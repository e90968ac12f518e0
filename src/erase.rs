//! The filter that removes everything.
use vstd::prelude::*;
use crate::filter::Filter;
use crate::image::Image;

verus! {

/// Replaces the image by an empty, unnamed one.
#[derive(Debug, Clone, Copy)]
pub struct Erase;

impl Filter for Erase {
    open spec fn accepts(&self, image: Image) -> bool {
        true
    }

    open spec fn transforms(&self, before: Image, after: Image) -> bool {
        after.name.is_none() && after.pixels@.len() == 0 && after.children@.len() == 0
    }

    fn filter(&self, image: Image) -> (r: Image) {
        Image::new()
    }
}

} // verus!
