//! The filters, in one place.
pub use crate::erase::Erase;
pub use crate::fill::Fill;
pub use crate::filter::Filter;
pub use crate::scale::Scale;
pub use crate::scoped::Scoped;
pub use crate::silhouette::Silhouette;
