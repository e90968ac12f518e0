//! A colored position.
use vstd::prelude::*;
use crate::color::Color;
use crate::position::Position;

verus! {

/// A color at a position.
#[derive(Debug, Clone, Copy, PartialEq, Eq, Hash, Structural)]
pub struct Pixel {
    pub position: Position,
    pub color: Color,
}

impl Pixel {
    pub fn new(position: Position, color: Color) -> (r: Self)
        ensures
            r == (Pixel { position, color }),
    {
        Pixel { position, color }
    }

    /// The same color at the position that `f` gives for the old one.
    pub fn map_position<F>(self, f: F) -> (r: Self)
        where
            F: FnOnce(Position) -> Position,
        requires
            f.requires((self.position,)),
        ensures
            f.ensures((self.position,), r.position),
            r.color == self.color,
    {
        Pixel { position: f(self.position), color: self.color }
    }
}

} // verus!
