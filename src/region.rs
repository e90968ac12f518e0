//! Rectangular regions and bounding boxes of position sets.
use vstd::prelude::*;
use crate::position::{Position, fits_i16};
use crate::size::{Size, grid, lemma_grid_element};

verus! {

/// The componentwise minimum of `ps`, starting from the largest position.
pub open spec fn min_of(ps: Seq<Position>) -> Position
    decreases ps.len(),
{
    if ps.len() == 0 {
        Position { x: i16::MAX, y: i16::MAX }
    } else {
        min_of(ps.drop_last()).spec_min(ps.last())
    }
}

/// The componentwise maximum of `ps`, starting from the smallest position.
pub open spec fn max_of(ps: Seq<Position>) -> Position
    decreases ps.len(),
{
    if ps.len() == 0 {
        Position { x: i16::MIN, y: i16::MIN }
    } else {
        max_of(ps.drop_last()).spec_max(ps.last())
    }
}

/// The number of values from `lo` to `hi` inclusive, at most `u16::MAX`.
pub open spec fn span(lo: i16, hi: i16) -> u16 {
    if hi - lo + 1 > u16::MAX {
        u16::MAX
    } else {
        (hi - lo + 1) as u16
    }
}

/// The extent of the bounding box of `ps`; empty when `ps` is.
pub open spec fn size_of(ps: Seq<Position>) -> Size {
    if ps.len() == 0 {
        Size { width: 0, height: 0 }
    } else {
        Size {
            width: span(min_of(ps).x, max_of(ps).x),
            height: span(min_of(ps).y, max_of(ps).y),
        }
    }
}

/// The bounding box of `ps`; the empty region at the origin when `ps` is empty.
pub open spec fn region_of(ps: Seq<Position>) -> Region {
    if ps.len() == 0 {
        Region { start: Position { x: 0, y: 0 }, size: Size { width: 0, height: 0 } }
    } else {
        Region { start: min_of(ps), size: size_of(ps) }
    }
}

/// The positions of the region of `start` and `size`, row by row.
pub open spec fn region_positions(start: Position, size: Size) -> Seq<Position> {
    grid(size.width as int, size.height as int).map_values(|p: Position| start.spec_add(p))
}

/// The fold bounds every element, and on a non-empty sequence each bound is reached.
pub proof fn lemma_bounds(ps: Seq<Position>)
    ensures
        forall|i: int|
            0 <= i < ps.len() ==> min_of(ps).x <= #[trigger] ps[i].x <= max_of(ps).x && min_of(
                ps,
            ).y <= ps[i].y <= max_of(ps).y,
        ps.len() > 0 ==> exists|i: int| 0 <= i < ps.len() && #[trigger] ps[i].x == min_of(ps).x,
        ps.len() > 0 ==> exists|i: int| 0 <= i < ps.len() && #[trigger] ps[i].y == min_of(ps).y,
        ps.len() > 0 ==> exists|i: int| 0 <= i < ps.len() && #[trigger] ps[i].x == max_of(ps).x,
        ps.len() > 0 ==> exists|i: int| 0 <= i < ps.len() && #[trigger] ps[i].y == max_of(ps).y,
    decreases ps.len(),
{
    if ps.len() > 0 {
        let qs = ps.drop_last();
        lemma_bounds(qs);
        assert forall|i: int| 0 <= i < qs.len() implies ps[i] == #[trigger] qs[i] by {}
        let n = ps.len() - 1;
        assert forall|i: int| 0 <= i < ps.len() implies min_of(ps).x <= #[trigger] ps[i].x
            <= max_of(ps).x && min_of(ps).y <= ps[i].y <= max_of(ps).y by {
            if i < n {
                assert(qs[i] == ps[i]);
            }
        }
        if qs.len() > 0 {
            if min_of(qs).x <= ps.last().x {
                let i = choose|i: int| 0 <= i < qs.len() && #[trigger] qs[i].x == min_of(qs).x;
                assert(ps[i].x == min_of(ps).x);
            } else {
                assert(ps[n].x == min_of(ps).x);
            }
            if min_of(qs).y <= ps.last().y {
                let i = choose|i: int| 0 <= i < qs.len() && #[trigger] qs[i].y == min_of(qs).y;
                assert(ps[i].y == min_of(ps).y);
            } else {
                assert(ps[n].y == min_of(ps).y);
            }
            if max_of(qs).x >= ps.last().x {
                let i = choose|i: int| 0 <= i < qs.len() && #[trigger] qs[i].x == max_of(qs).x;
                assert(ps[i].x == max_of(ps).x);
            } else {
                assert(ps[n].x == max_of(ps).x);
            }
            if max_of(qs).y >= ps.last().y {
                let i = choose|i: int| 0 <= i < qs.len() && #[trigger] qs[i].y == max_of(qs).y;
                assert(ps[i].y == max_of(ps).y);
            } else {
                assert(ps[n].y == max_of(ps).y);
            }
        } else {
            assert(ps[n].x == min_of(ps).x);
            assert(ps[n].y == min_of(ps).y);
            assert(ps[n].x == max_of(ps).x);
            assert(ps[n].y == max_of(ps).y);
        }
    }
}

/// The componentwise minimum and maximum of `ps`.
pub fn bounds(ps: &[Position]) -> (r: (Position, Position))
    ensures
        r == (min_of(ps@), max_of(ps@)),
{
    let mut lo = Position::max_value();
    let mut hi = Position::min_value();
    let mut i: usize = 0;
    while i < ps.len()
        invariant
            0 <= i <= ps@.len(),
            lo == min_of(ps@.take(i as int)),
            hi == max_of(ps@.take(i as int)),
        decreases ps@.len() - i,
    {
        assert(ps@.take(i as int + 1).drop_last() =~= ps@.take(i as int));
        lo = lo.min(ps[i]);
        hi = hi.max(ps[i]);
        i = i + 1;
    }
    assert(ps@.take(i as int) =~= ps@);
    (lo, hi)
}

/// `hi - lo + 1`, at most `u16::MAX`.
fn span_of(lo: i16, hi: i16) -> (r: u16)
    requires
        lo <= hi,
    ensures
        r == span(lo, hi),
{
    let n: i32 = hi as i32 - lo as i32 + 1;
    if n > u16::MAX as i32 {
        u16::MAX
    } else {
        n as u16
    }
}

impl Size {
    /// The extent of the bounding box of `ps`.
    pub fn from_positions(ps: &[Position]) -> (r: Size)
        ensures
            r == size_of(ps@),
    {
        let (lo, hi) = bounds(ps);
        if ps.len() == 0 {
            Size::empty()
        } else {
            proof {
                lemma_bounds(ps@);
                assert(lo.x <= ps@[0].x <= hi.x);
            }
            Size::new(span_of(lo.x, hi.x), span_of(lo.y, hi.y))
        }
    }
}

/// A start position and a size.
#[derive(Debug, Default, Clone, Copy, PartialEq, Eq, Hash, Structural)]
pub struct Region {
    pub start: Position,
    pub size: Size,
}

impl Region {
    pub fn new(start: Position, size: Size) -> (r: Self)
        ensures
            r == (Region { start, size }),
    {
        Region { start, size }
    }

    pub fn is_empty(self) -> (r: bool)
        ensures
            r == self.size.spec_is_empty(),
    {
        self.size.is_empty()
    }

    /// The first row.
    pub fn top(self) -> (r: i16)
        ensures
            r == self.start.y,
    {
        self.start.y
    }

    /// The last row: `start.y + height - 1`.
    pub fn bottom(self) -> (r: i16)
        requires
            fits_i16(self.start.y + self.size.height - 1),
        ensures
            r == self.start.y + self.size.height - 1,
    {
        (self.start.y as i32 + self.size.height as i32 - 1) as i16
    }

    /// The first column.
    pub fn left(self) -> (r: i16)
        ensures
            r == self.start.x,
    {
        self.start.x
    }

    /// The last column: `start.x + width - 1`.
    pub fn right(self) -> (r: i16)
        requires
            fits_i16(self.start.x + self.size.width - 1),
        ensures
            r == self.start.x + self.size.width - 1,
    {
        (self.start.x as i32 + self.size.width as i32 - 1) as i16
    }

    pub fn top_left(self) -> (r: Position)
        ensures
            r == self.start,
    {
        self.start
    }

    pub fn top_right(self) -> (r: Position)
        requires
            fits_i16(self.start.x + self.size.width - 1),
        ensures
            r == (Position { x: (self.start.x + self.size.width - 1) as i16, y: self.start.y }),
    {
        Position::xy(self.right(), self.top())
    }

    pub fn bottom_left(self) -> (r: Position)
        requires
            fits_i16(self.start.y + self.size.height - 1),
        ensures
            r == (Position { x: self.start.x, y: (self.start.y + self.size.height - 1) as i16 }),
    {
        Position::xy(self.left(), self.bottom())
    }

    pub fn bottom_right(self) -> (r: Position)
        requires
            fits_i16(self.start.x + self.size.width - 1),
            fits_i16(self.start.y + self.size.height - 1),
        ensures
            r == (Position {
                x: (self.start.x + self.size.width - 1) as i16,
                y: (self.start.y + self.size.height - 1) as i16,
            }),
    {
        Position::xy(self.right(), self.bottom())
    }

    /// The positions covered, in row-major order.
    pub fn positions(self) -> (r: Vec<Position>)
        requires
            self.size.width <= 32767,
            self.size.height <= 32767,
            fits_i16(self.start.x + self.size.width - 1),
            fits_i16(self.start.y + self.size.height - 1),
        ensures
            r@ == region_positions(self.start, self.size),
    {
        let grid_ps = self.size.positions();
        let ghost w = self.size.width as int;
        let ghost h = self.size.height as int;
        let mut r: Vec<Position> = Vec::new();
        let mut i: usize = 0;
        while i < grid_ps.len()
            invariant
                0 <= i <= grid_ps@.len(),
                grid_ps@ == grid(w, h),
                w == self.size.width,
                h == self.size.height,
                w <= 32767,
                h <= 32767,
                fits_i16(self.start.x + w - 1),
                fits_i16(self.start.y + h - 1),
                r@ == grid_ps@.take(i as int).map_values(|p: Position| self.start.spec_add(p)),
            decreases grid_ps@.len() - i,
        {
            proof {
                lemma_grid_element(w, h, i as int);
            }
            let p = grid_ps[i];
            r.push(self.start + p);
            assert(grid_ps@.take(i as int + 1) =~= grid_ps@.take(i as int).push(p));
            assert(r@ =~= grid_ps@.take(i as int + 1).map_values(|p: Position| self.start.spec_add(p)));
            i = i + 1;
        }
        assert(grid_ps@.take(i as int) =~= grid_ps@);
        r
    }

    /// The bounding box of `ps`: the empty region at the origin when `ps` is empty.
    pub fn from_positions(ps: &[Position]) -> (r: Region)
        ensures
            r == region_of(ps@),
    {
        let (lo, _) = bounds(ps);
        let size = Size::from_positions(ps);
        if ps.len() == 0 {
            Region::new(Position::origin(), Size::empty())
        } else {
            Region::new(lo, size)
        }
    }
}

} // verus!
