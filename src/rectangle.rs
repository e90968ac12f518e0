//! Axis-aligned rectangles, outlined or filled.
use vstd::prelude::*;
use crate::color::Color;
use crate::image::{Image, unique_positions};
use crate::pixel::Pixel;
use crate::position::{Position, fits_i16};
use crate::size::{Size, grid, grid_row, lemma_grid_element};

verus! {

/// The middle rows of the outline of a `w` by `h` box: the first and last column of each
/// row from `1` to `h - 2`, row by row (one column when `w` is 1).
pub open spec fn outline_middle(w: int, h: int) -> Seq<Position> {
    if h < 3 {
        Seq::empty()
    } else if w >= 2 {
        Seq::new(
            (2 * (h - 2)) as nat,
            |i: int| Position { x: (if i % 2 == 0 { 0 } else { w - 1 }) as i16, y: (i / 2 + 1) as i16 },
        )
    } else {
        Seq::new((h - 2) as nat, |i: int| Position { x: 0, y: (i + 1) as i16 })
    }
}

/// The border of a `w` by `h` box from the origin, in row-major order, each position
/// once.
pub open spec fn outline(w: int, h: int) -> Seq<Position> {
    if w <= 0 || h <= 0 {
        Seq::empty()
    } else {
        grid_row(w, 0) + outline_middle(w, h) + if h >= 2 { grid_row(w, h - 1) } else { Seq::empty() }
    }
}

/// The offsets that a rectangle of `size` covers: every position when `fill` is set,
/// the border otherwise.
pub open spec fn rectangle_offsets(size: Size, fill: bool) -> Seq<Position> {
    if fill || size.width == 0 || size.height == 0 {
        grid(size.width as int, size.height as int)
    } else {
        outline(size.width as int, size.height as int)
    }
}

/// An outline has `2w + 2h - 4` positions when both sides are longer than one, and a
/// filled box `w * h`.
pub proof fn lemma_rectangle_counts(w: u16, h: u16)
    requires
        w > 1,
        h > 1,
    ensures
        rectangle_offsets(Size { width: w, height: h }, false).len() == 2 * w + 2 * h - 4,
        rectangle_offsets(Size { width: w, height: h }, true).len() == w * h,
{
    assert(outline_middle(w as int, h as int).len() == if h >= 3 { 2 * (h - 2) } else { 0 });
}

/// A rectangle of one color at `position`.
#[derive(Debug, Clone, Copy)]
pub struct Rectangle {
    pub color: Color,
    pub position: Position,
    pub size: Size,
    pub fill: bool,
}

impl Rectangle {
    /// A black, empty, outlined rectangle at the origin.
    pub fn new() -> (r: Self)
        ensures
            r.color == (Color { r: 0, g: 0, b: 0, a: 255 }),
            r.position == (Position { x: 0, y: 0 }),
            r.size == (Size { width: 0, height: 0 }),
            !r.fill,
    {
        Rectangle { color: Color::black(), position: Position::origin(), size: Size::empty(), fill: false }
    }

    pub fn color(self, color: Color) -> (r: Self)
        ensures
            r == (Rectangle { color, ..self }),
    {
        Rectangle { color, ..self }
    }

    pub fn position(self, position: Position) -> (r: Self)
        ensures
            r == (Rectangle { position, ..self }),
    {
        Rectangle { position, ..self }
    }

    pub fn size(self, size: Size) -> (r: Self)
        ensures
            r == (Rectangle { size, ..self }),
    {
        Rectangle { size, ..self }
    }

    /// The same rectangle, filled.
    pub fn fill(self) -> (r: Self)
        ensures
            r == (Rectangle { fill: true, ..self }),
    {
        Rectangle { fill: true, ..self }
    }

    /// The rectangle lies within 16-bit coordinates.
    pub open spec fn fits(self) -> bool {
        &&& self.size.width <= 32767
        &&& self.size.height <= 32767
        &&& fits_i16(self.position.x + self.size.width - 1)
        &&& fits_i16(self.position.y + self.size.height - 1)
    }

    /// The pixels of the rectangle in row-major order, each position once.
    pub fn pixels(self) -> (r: Vec<Pixel>)
        requires
            self.fits(),
        ensures
            r@.len() == rectangle_offsets(self.size, self.fill).len(),
            forall|i: int|
                0 <= i < r@.len() ==> #[trigger] r@[i] == (Pixel {
                    position: self.position.spec_add(rectangle_offsets(self.size, self.fill)[i]),
                    color: self.color,
                }),
    {
        let offsets = if self.fill || self.size.is_empty() {
            self.size.positions()
        } else {
            outline_positions(self.size.width, self.size.height)
        };
        let ghost offs = rectangle_offsets(self.size, self.fill);
        let mut r: Vec<Pixel> = Vec::new();
        let mut i: usize = 0;
        while i < offsets.len()
            invariant
                0 <= i <= offsets@.len(),
                offsets@ == offs,
                offs == rectangle_offsets(self.size, self.fill),
                self.fits(),
                r@.len() == i,
                forall|j: int|
                    0 <= j < i ==> #[trigger] r@[j] == (Pixel {
                        position: self.position.spec_add(offs[j]),
                        color: self.color,
                    }),
            decreases offsets@.len() - i,
        {
            proof {
                lemma_offsets_in_box(self.size, self.fill, i as int);
            }
            r.push(Pixel::new(self.position + offsets[i], self.color));
            i = i + 1;
        }
        r
    }

    /// The rectangle as an image of one layer.
    pub fn to_image(self) -> (r: Image)
        requires
            self.fits(),
        ensures
            r.wf(),
            r.name.is_none(),
            r.children@.len() == 0,
            forall|i: int|
                0 <= i < rectangle_offsets(self.size, self.fill).len() ==> #[trigger] r.own_map().contains_key(
                    self.position.spec_add(rectangle_offsets(self.size, self.fill)[i]),
                ),
            forall|p: Position| #[trigger] r.own_map().contains_key(p) ==> r.own_map()[p] == self.color,
    {
        let pixels = self.pixels();
        let image = Image::from_pixels(pixels.as_slice());
        proof {
            lemma_offsets_distinct(self.size, self.fill);
            assert(unique_positions(pixels@)) by {
                assert forall|a: int, b: int|
                    0 <= a < pixels@.len() && 0 <= b < pixels@.len() && a != b implies #[trigger] pixels@[a].position
                    != #[trigger] pixels@[b].position by {
                    lemma_offsets_in_box(self.size, self.fill, a);
                    lemma_offsets_in_box(self.size, self.fill, b);
                }
            }
            crate::line::lemma_blend_distinct(pixels@, self.color);
            crate::image::lemma_pixel_map(pixels@);
            assert forall|i: int| 0 <= i < rectangle_offsets(self.size, self.fill).len() implies #[trigger] image.own_map().contains_key(
                self.position.spec_add(rectangle_offsets(self.size, self.fill)[i])) by {
                assert(pixels@[i].position == self.position.spec_add(rectangle_offsets(self.size, self.fill)[i]));
            }
        }
        image
    }
}

/// Every offset lies within the box.
proof fn lemma_offsets_in_box(size: Size, fill: bool, i: int)
    requires
        size.width <= 32767,
        size.height <= 32767,
        0 <= i < rectangle_offsets(size, fill).len(),
    ensures
        0 <= rectangle_offsets(size, fill)[i].x < size.width,
        0 <= rectangle_offsets(size, fill)[i].y < size.height,
{
    let (w, h) = (size.width as int, size.height as int);
    if fill || w == 0 || h == 0 {
        lemma_grid_element(w, h, i);
    } else {
        let top = grid_row(w, 0);
        let mid = outline_middle(w, h);
        let bottom = if h >= 2 { grid_row(w, h - 1) } else { Seq::<Position>::empty() };
        if i < top.len() {
        } else if i < top.len() + mid.len() {
            let k = i - top.len();
            if w >= 2 {
                vstd::arithmetic::div_mod::lemma_div_pos_is_pos(k, 2);
                assert(k / 2 < h - 2);
            }
        } else {
        }
    }
}

/// No offset repeats.
proof fn lemma_offsets_distinct(size: Size, fill: bool)
    requires
        size.width <= 32767,
        size.height <= 32767,
    ensures
        forall|a: int, b: int|
            0 <= a < rectangle_offsets(size, fill).len() && 0 <= b < rectangle_offsets(size, fill).len() && a != b
                ==> #[trigger] rectangle_offsets(size, fill)[a] != #[trigger] rectangle_offsets(size, fill)[b],
{
    let (w, h) = (size.width as int, size.height as int);
    let s = rectangle_offsets(size, fill);
    assert forall|a: int, b: int| 0 <= a < s.len() && 0 <= b < s.len() && a != b implies #[trigger] s[a] != #[trigger] s[b] by {
        if fill || w == 0 || h == 0 {
            lemma_grid_element(w, h, a);
            lemma_grid_element(w, h, b);
            vstd::arithmetic::div_mod::lemma_fundamental_div_mod(a, w);
            vstd::arithmetic::div_mod::lemma_fundamental_div_mod(b, w);
        } else {
            let top = grid_row(w, 0);
            let mid = outline_middle(w, h);
            let tl = top.len() as int;
            let ml = mid.len() as int;
            lemma_offsets_in_box(size, fill, a);
            lemma_offsets_in_box(size, fill, b);
            if w >= 2 && tl <= a < tl + ml && tl <= b < tl + ml {
                let (ka, kb) = (a - tl, b - tl);
                vstd::arithmetic::div_mod::lemma_fundamental_div_mod(ka, 2);
                vstd::arithmetic::div_mod::lemma_fundamental_div_mod(kb, 2);
            }
        }
    }
}

/// The border of a `w` by `h` box from the origin, in row-major order.
fn outline_positions(w: u16, h: u16) -> (r: Vec<Position>)
    requires
        1 <= w <= 32767,
        1 <= h <= 32767,
    ensures
        r@ == outline(w as int, h as int),
{
    let wi = w as i16;
    let hi = h as i16;
    let mut r: Vec<Position> = Vec::new();
    let mut y: i16 = 0;
    let ghost top = grid_row(w as int, 0);
    while y < hi
        invariant
            0 <= y <= hi,
            wi == w,
            hi == h,
            1 <= w <= 32767,
            1 <= h <= 32767,
            r@ == outline_prefix(w as int, h as int, y as int),
        decreases hi - y,
    {
        let ghost before = r@;
        if y == 0 || y == hi - 1 {
            let mut x: i16 = 0;
            while x < wi
                invariant
                    0 <= x <= wi,
                    wi == w,
                    r@ == before + grid_row(x as int, y as int),
                decreases wi - x,
            {
                r.push(Position::xy(x, y));
                x = x + 1;
                assert(r@ =~= before + grid_row(x as int, y as int));
            }
        } else {
            r.push(Position::xy(0, y));
            if wi >= 2 {
                r.push(Position::xy(wi - 1, y));
            }
        }
        proof {
            lemma_outline_prefix_step(w as int, h as int, y as int);
            if !(y == 0 || y == hi - 1) {
                assert(r@ =~= outline_prefix(w as int, h as int, y + 1));
            }
        }
        y = y + 1;
    }
    proof {
        lemma_outline_prefix_full(w as int, h as int);
    }
    r
}

/// The outline rows above row `y`.
pub open spec fn outline_prefix(w: int, h: int, y: int) -> Seq<Position>
    decreases y,
{
    if y <= 0 {
        Seq::empty()
    } else if y - 1 == 0 || y - 1 == h - 1 {
        outline_prefix(w, h, y - 1) + grid_row(w, y - 1)
    } else if w >= 2 {
        outline_prefix(w, h, y - 1).push(Position { x: 0, y: (y - 1) as i16 }).push(
            Position { x: (w - 1) as i16, y: (y - 1) as i16 },
        )
    } else {
        outline_prefix(w, h, y - 1).push(Position { x: 0, y: (y - 1) as i16 })
    }
}

proof fn lemma_outline_prefix_step(w: int, h: int, y: int)
    requires
        0 <= y,
    ensures
        outline_prefix(w, h, y + 1) == if y == 0 || y == h - 1 {
            outline_prefix(w, h, y) + grid_row(w, y)
        } else if w >= 2 {
            outline_prefix(w, h, y).push(Position { x: 0, y: y as i16 }).push(
                Position { x: (w - 1) as i16, y: y as i16 },
            )
        } else {
            outline_prefix(w, h, y).push(Position { x: 0, y: y as i16 })
        },
{
}

/// The middle rows of the outline up to row `y`.
proof fn lemma_outline_prefix_middle(w: int, h: int, y: int)
    requires
        1 <= w,
        3 <= h,
        1 <= y <= h - 1,
    ensures
        outline_prefix(w, h, y) == grid_row(w, 0) + (if w >= 2 {
            outline_middle(w, h).take(2 * (y - 1))
        } else {
            outline_middle(w, h).take(y - 1)
        }),
    decreases y,
{
    if y == 1 {
        assert(outline_prefix(w, h, 0) =~= Seq::<Position>::empty());
        assert(outline_prefix(w, h, 1) =~= grid_row(w, 0));
        assert(outline_middle(w, h).take(0) =~= Seq::<Position>::empty());
        assert(grid_row(w, 0) + Seq::<Position>::empty() =~= grid_row(w, 0));
    } else {
        lemma_outline_prefix_middle(w, h, y - 1);
        if w >= 2 {
            let m = outline_middle(w, h);
            assert(m.take(2 * (y - 1)) =~= m.take(2 * (y - 2)).push(m[2 * (y - 2)]).push(m[2 * (y - 2) + 1]));
            assert(m[2 * (y - 2)] == Position { x: 0, y: (y - 1) as i16 });
            assert(m[2 * (y - 2) + 1] == Position { x: (w - 1) as i16, y: (y - 1) as i16 });
        } else {
            let m = outline_middle(w, h);
            assert(m.take(y - 1) =~= m.take(y - 2).push(m[y - 2]));
        }
    }
}

proof fn lemma_outline_prefix_full(w: int, h: int)
    requires
        1 <= w,
        1 <= h,
    ensures
        outline_prefix(w, h, h) == outline(w, h),
{
    if h == 1 {
        assert(outline_prefix(w, h, 0) =~= Seq::<Position>::empty());
        assert(outline_prefix(w, h, 1) =~= grid_row(w, 0));
        assert(outline(w, h) =~= grid_row(w, 0));
    } else if h == 2 {
        assert(outline_prefix(w, h, 0) =~= Seq::<Position>::empty());
        assert(outline_prefix(w, h, 1) =~= grid_row(w, 0));
        assert(outline(w, h) =~= grid_row(w, 0) + grid_row(w, 1));
    } else {
        lemma_outline_prefix_middle(w, h, h - 1);
        let m = outline_middle(w, h);
        if w >= 2 {
            assert(m.take(2 * (h - 2)) =~= m);
        } else {
            assert(m.take(h - 2) =~= m);
        }
    }
}

impl Default for Rectangle {
    fn default() -> (r: Self)
        ensures
            r.color == (Color { r: 0, g: 0, b: 0, a: 255 }),
            r.position == (Position { x: 0, y: 0 }),
            r.size == (Size { width: 0, height: 0 }),
            !r.fill,
    {
        Rectangle::new()
    }
}

} // verus!
