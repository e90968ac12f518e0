//! A small 2D scene-composition and rasterization engine: sparse images built
//! from primitive shapes, composited with integer alpha blending, transformed by
//! pixel filters and serialized to exact binary raster formats.
use vstd::prelude::*;

pub mod animation;
pub mod bmp;
pub mod canvas;
pub mod color;
pub mod entity;
pub mod erase;
pub mod fill;
pub mod filter;
pub mod filters;
pub mod flood;
pub mod gif;
pub mod image;
pub mod line;
pub mod named;
pub mod palette;
pub mod pixel;
pub mod polygon;
pub mod position;
pub mod rectangle;
pub mod region;
pub mod scale;
pub mod scoped;
pub mod silhouette;
pub mod shapes;
pub mod size;
pub mod text;

pub use animation::Animation;
pub use canvas::Canvas;
pub use color::Color;
pub use image::Image;
pub use palette::Palette;
pub use pixel::Pixel;
pub use position::Position;
pub use region::Region;
pub use size::Size;

verus! {

/// The position `(x, y)`.
pub fn xy(x: i16, y: i16) -> (r: Position)
    ensures
        r == (Position { x, y }),
{
    Position::xy(x, y)
}

/// The position `(x, y)`, given row first.
pub fn yx(y: i16, x: i16) -> (r: Position)
    ensures
        r == (Position { x, y }),
{
    Position::xy(x, y)
}

/// The position `(x, 0)`.
pub fn x(v: i16) -> (r: Position)
    ensures
        r == (Position { x: v, y: 0 }),
{
    xy(v, 0)
}

/// The position `(0, y)`.
pub fn y(v: i16) -> (r: Position)
    ensures
        r == (Position { x: 0, y: v }),
{
    xy(0, v)
}

/// The size `width` by `height`.
pub fn wh(width: u16, height: u16) -> (r: Size)
    ensures
        r == (Size { width, height }),
{
    Size::new(width, height)
}

/// The size `side` by `side`.
pub fn square(side: u16) -> (r: Size)
    ensures
        r == (Size { width: side, height: side }),
{
    Size::square(side)
}

} // verus!
