//! The rasterized shapes, in one place.
pub use crate::line::Line;
pub use crate::polygon::Polygon;
pub use crate::rectangle::Rectangle;
