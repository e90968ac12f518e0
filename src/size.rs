//! Unsigned 16-bit extents and the positions they cover.
use vstd::prelude::*;
use crate::position::Position;

verus! {

/// A width and a height.
#[derive(Debug, Default, Clone, Copy, PartialEq, Eq, Hash, Structural)]
pub struct Size {
    pub width: u16,
    pub height: u16,
}

/// The positions of a `w` by `h` grid from the origin, row by row.
pub open spec fn grid(w: int, h: int) -> Seq<Position> {
    Seq::new((w * h) as nat, |i: int| Position { x: (i % w) as i16, y: (i / w) as i16 })
}

/// The row `y` of a grid `w` wide, left to right.
pub open spec fn grid_row(w: int, y: int) -> Seq<Position> {
    Seq::new(w as nat, |x: int| Position { x: x as i16, y: y as i16 })
}

/// The column `x` from row `1` to row `h - 2`, top to bottom.
pub open spec fn grid_inner_column(x: int, h: int) -> Seq<Position> {
    Seq::new(if h >= 2 { (h - 2) as nat } else { 0 }, |i: int| Position { x: x as i16, y: (i + 1) as i16 })
}

/// The border of a `w` by `h` grid: top row, bottom row, left column, right column,
/// each position once.
pub open spec fn grid_edge(w: int, h: int) -> Seq<Position> {
    (if h > 0 { grid_row(w, 0) } else { Seq::empty() })
        + (if h > 1 { grid_row(w, h - 1) } else { Seq::empty() })
        + (if w > 0 { grid_inner_column(0, h) } else { Seq::empty() })
        + (if w > 1 { grid_inner_column(w - 1, h) } else { Seq::empty() })
}

/// `p` lies within the `w` by `h` grid from the origin.
pub open spec fn in_grid(p: Position, w: int, h: int) -> bool {
    0 <= p.x < w && 0 <= p.y < h
}

/// The index of `(x, y)` in a grid `w` wide: `y * w + x`.
pub proof fn lemma_grid_index(w: int, h: int, x: int, y: int)
    requires
        0 <= x < w,
        0 <= y < h,
        w <= 32767,
        h <= 32767,
    ensures
        0 <= y * w + x < w * h,
        grid(w, h)[y * w + x] == (Position { x: x as i16, y: y as i16 }),
{
    assert(y * w + x < w * h) by (nonlinear_arith) requires 0 <= x < w, 0 <= y < h;
    assert(0 <= y * w) by (nonlinear_arith) requires 0 <= y, 0 <= w;
    vstd::arithmetic::div_mod::lemma_fundamental_div_mod_converse(y * w + x, w, y, x);
}

/// The element at index `i` of a grid lies within it.
pub proof fn lemma_grid_element(w: int, h: int, i: int)
    requires
        0 <= w <= 32767,
        0 <= h <= 32767,
        0 <= i < w * h,
    ensures
        in_grid(grid(w, h)[i], w, h),
        grid(w, h)[i].x == i % w,
        grid(w, h)[i].y == i / w,
{
    assert(w > 0) by (nonlinear_arith) requires 0 <= i < w * h, 0 <= h;
    vstd::arithmetic::div_mod::lemma_div_pos_is_pos(i, w);
    vstd::arithmetic::div_mod::lemma_mod_bound(i, w);
    vstd::arithmetic::div_mod::lemma_div_is_ordered(i, w * h, w);
    vstd::arithmetic::div_mod::lemma_div_multiples_vanish(h, w);
    assert(w * h == h * w) by (nonlinear_arith);
    if i / w >= h {
        vstd::arithmetic::div_mod::lemma_fundamental_div_mod(i, w);
        assert(w * (i / w) >= w * h) by (nonlinear_arith) requires i / w >= h, w > 0;
    }
}

impl Size {
    pub open spec fn spec_is_empty(self) -> bool {
        self.width == 0 || self.height == 0
    }

    /// The size `(0, 0)`.
    pub fn empty() -> (r: Self)
        ensures
            r == (Size { width: 0, height: 0 }),
    {
        Size { width: 0, height: 0 }
    }

    pub fn new(width: u16, height: u16) -> (r: Self)
        ensures
            r == (Size { width, height }),
    {
        Size { width, height }
    }

    pub fn square(size: u16) -> (r: Self)
        ensures
            r == (Size { width: size, height: size }),
    {
        Self::new(size, size)
    }

    pub fn is_empty(self) -> (r: bool)
        ensures
            r == self.spec_is_empty(),
    {
        self.width == 0 || self.height == 0
    }

    /// The number of positions covered.
    pub fn area(self) -> (r: u32)
        ensures
            r == self.width * self.height,
    {
        proof {
            assert(self.width * self.height <= 65535 * 65535) by (nonlinear_arith)
                requires self.width <= 65535, self.height <= 65535;
        }
        self.width as u32 * self.height as u32
    }

    /// Whether `position` lies within the size, counted from the origin.
    pub fn contains(self, position: Position) -> (r: bool)
        ensures
            r == in_grid(position, self.width as int, self.height as int),
    {
        if position.x < 0 || position.y < 0 {
            return false;
        }
        (position.y as u16) < self.height && (position.x as u16) < self.width
    }

    /// Componentwise maximum.
    pub fn max(self, other: Self) -> (r: Self)
        ensures
            r.width == if self.width >= other.width { self.width } else { other.width },
            r.height == if self.height >= other.height { self.height } else { other.height },
    {
        Self::new(
            if self.width >= other.width { self.width } else { other.width },
            if self.height >= other.height { self.height } else { other.height },
        )
    }

    /// Componentwise minimum.
    pub fn min(self, other: Self) -> (r: Self)
        ensures
            r.width == if self.width <= other.width { self.width } else { other.width },
            r.height == if self.height <= other.height { self.height } else { other.height },
    {
        Self::new(
            if self.width <= other.width { self.width } else { other.width },
            if self.height <= other.height { self.height } else { other.height },
        )
    }

    /// The positions covered, from the origin, in row-major order.
    pub fn positions(self) -> (r: Vec<Position>)
        requires
            self.width <= 32767,
            self.height <= 32767,
        ensures
            r@ == grid(self.width as int, self.height as int),
    {
        let w = self.width as i16;
        let h = self.height as i16;
        let ghost gw = w as int;
        let mut r: Vec<Position> = Vec::new();
        let mut y: i16 = 0;
        while y < h
            invariant
                0 <= y <= h,
                w == self.width,
                h == self.height,
                h <= 32767,
                w <= 32767,
                gw == w,
                r@ == grid(gw, y as int),
            decreases h - y,
        {
            proof {
                assert((y + 1) * gw == y * gw + gw) by (nonlinear_arith);
                assert(y * gw >= 0) by (nonlinear_arith) requires y >= 0, gw >= 0;
                assert(gw * y == y * gw) by (nonlinear_arith);
                assert(gw * (y + 1) == (y + 1) * gw) by (nonlinear_arith);
                assert forall|i: int| 0 <= i < r@.len() implies #[trigger] r@[i] == grid(gw, y + 1)[i] by {
                    assert(r@[i] == grid(gw, y as int)[i]);
                }
            }
            let mut x: i16 = 0;
            while x < w
                invariant
                    0 <= x <= w,
                    0 <= y < h,
                    w == self.width,
                    h == self.height,
                    h <= 32767,
                    w <= 32767,
                    gw == w,
                    r@.len() == y * gw + x,
                    (y + 1) * gw == y * gw + gw,
                    forall|i: int| 0 <= i < r@.len() ==> #[trigger] r@[i] == grid(gw, y + 1)[i],
                decreases w - x,
            {
                proof {
                    lemma_grid_index(gw, y + 1, x as int, y as int);
                }
                r.push(Position::xy(x, y));
                x = x + 1;
            }
            assert(r@ =~= grid(gw, y + 1));
            y = y + 1;
        }
        r
    }

    /// The border positions, each once: top row, bottom row, then the inner parts of
    /// the left and right columns.
    pub fn edge_positions(self) -> (r: Vec<Position>)
        requires
            self.width <= 32767,
            self.height <= 32767,
        ensures
            r@ == grid_edge(self.width as int, self.height as int),
    {
        let w = self.width as i16;
        let h = self.height as i16;
        let mut r: Vec<Position> = Vec::new();
        let ghost top = if h > 0 { grid_row(w as int, 0) } else { Seq::<Position>::empty() };
        let ghost bottom = if h > 1 { grid_row(w as int, h - 1) } else { Seq::<Position>::empty() };
        let ghost left = if w > 0 { grid_inner_column(0, h as int) } else { Seq::<Position>::empty() };
        let ghost right = if w > 1 { grid_inner_column(w - 1, h as int) } else { Seq::<Position>::empty() };
        if h > 0 {
            push_row(&mut r, w, 0);
        }
        assert(r@ =~= top);
        if h > 1 {
            push_row(&mut r, w, h - 1);
        }
        assert(r@ =~= top + bottom);
        if w > 0 {
            push_inner_column(&mut r, 0, h);
        }
        assert(r@ =~= top + bottom + left);
        if w > 1 {
            push_inner_column(&mut r, w - 1, h);
        }
        assert(r@ =~= top + bottom + left + right);
        r
    }
}

fn push_row(r: &mut Vec<Position>, w: i16, y: i16)
    requires
        w >= 0,
    ensures
        final(r)@ == old(r)@ + grid_row(w as int, y as int),
{
    let mut x: i16 = 0;
    while x < w
        invariant
            0 <= x <= w,
            r@ == old(r)@ + grid_row(x as int, y as int),
        decreases w - x,
    {
        r.push(Position::xy(x, y));
        x = x + 1;
        assert(r@ =~= old(r)@ + grid_row(x as int, y as int));
    }
}

fn push_inner_column(r: &mut Vec<Position>, x: i16, h: i16)
    requires
        h >= 0,
    ensures
        final(r)@ == old(r)@ + grid_inner_column(x as int, h as int),
{
    let mut y: i16 = 1;
    assert(old(r)@ + grid_inner_column(x as int, 1) =~= old(r)@);
    while y < h - 1
        invariant
            1 <= y,
            h >= 0,
            y <= h - 1 || y == 1,
            r@ == old(r)@ + grid_inner_column(x as int, y as int + 1),
        decreases h - y,
    {
        r.push(Position::xy(x, y));
        y = y + 1;
        assert(r@ =~= old(r)@ + grid_inner_column(x as int, y as int + 1));
    }
    assert(grid_inner_column(x as int, y as int + 1) =~= grid_inner_column(x as int, h as int)) by {
        if h < 2 {
            assert(grid_inner_column(x as int, h as int).len() == 0);
            assert(grid_inner_column(x as int, y as int + 1).len() == 0);
        }
    }
}

} // verus!
