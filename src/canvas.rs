//! A sparse drawing surface that tracks the bounding box of what is drawn on it.
use vstd::prelude::*;
use crate::color::{Color, spec_alpha_blend, spec_transparent};
use crate::image::{Image, blend_into, lemma_pixel_map, pixel_map, positions_of, unique_positions};
use crate::pixel::Pixel;
use crate::position::Position;
use crate::region::{bounds, lemma_bounds, max_of, min_of};
use crate::size::{Size, grid, lemma_grid_element};

verus! {

/// The bounding box that drawing at each of `ps` in turn leaves on a new canvas: start
/// and exclusive end.
pub open spec fn drawn_bounds(ps: Seq<Position>) -> (Position, Position)
    decreases ps.len(),
{
    if ps.len() == 0 {
        (Position { x: i16::MAX, y: i16::MAX }, Position { x: i16::MIN, y: i16::MIN })
    } else {
        (drawn_bounds(ps.drop_last()).0.spec_min(ps.last()), drawn_bounds(ps.drop_last()).1.spec_max(past(ps.last())))
    }
}

/// The position one step right and down from `p`.
pub open spec fn past(p: Position) -> Position {
    Position { x: (p.x + 1) as i16, y: (p.y + 1) as i16 }
}

/// After any sequence of draws on a new canvas, the start is the componentwise
/// minimum of the positions drawn and the end is their componentwise maximum plus one.
pub proof fn lemma_canvas_bounds(ps: Seq<Position>)
    requires
        ps.len() > 0,
        forall|i: int| 0 <= i < ps.len() ==> (#[trigger] ps[i]).x < i16::MAX && ps[i].y < i16::MAX,
    ensures
        drawn_bounds(ps).0 == min_of(ps),
        drawn_bounds(ps).1 == past(max_of(ps)),
    decreases ps.len(),
{
    let qs = ps.drop_last();
    assert(ps.last() == ps[ps.len() - 1]);
    if qs.len() > 0 {
        assert forall|i: int| 0 <= i < qs.len() implies (#[trigger] qs[i]).x < i16::MAX && qs[i].y < i16::MAX by {
            assert(qs[i] == ps[i]);
        }
        lemma_canvas_bounds(qs);
        lemma_bounds(qs);
        let c = choose|c: int| 0 <= c < qs.len() && #[trigger] qs[c].x == max_of(qs).x;
        let d = choose|d: int| 0 <= d < qs.len() && #[trigger] qs[d].y == max_of(qs).y;
        assert(qs[c] == ps[c] && qs[d] == ps[d]);
        assert(max_of(qs).x < i16::MAX && max_of(qs).y < i16::MAX);
    } else {
        assert(drawn_bounds(qs) == (Position { x: i16::MAX, y: i16::MAX }, Position { x: i16::MIN, y: i16::MIN }));
        assert(min_of(qs) == Position { x: i16::MAX, y: i16::MAX });
        assert(max_of(qs) == Position { x: i16::MIN, y: i16::MIN });
    }
}

/// A sparse surface: at most one color per position, with the bounding box of the
/// positions drawn.
#[derive(Debug)]
pub struct Canvas {
    pixels: Vec<Pixel>,
    start_point: Position,
    end_point: Position,
    background_color: Color,
}

impl Canvas {
    /// The colors held, by position.
    pub closed spec fn spec_map(self) -> Map<Position, Color> {
        pixel_map(self.pixels@)
    }

    /// The positions held, in the order they were first drawn.
    pub closed spec fn spec_positions(self) -> Seq<Position> {
        positions_of(self.pixels@)
    }

    /// The top-left corner of the bounding box.
    pub closed spec fn spec_start(self) -> Position {
        self.start_point
    }

    /// The exclusive bottom-right corner of the bounding box.
    pub closed spec fn spec_end(self) -> Position {
        self.end_point
    }

    /// The color beneath every pixel of the finished image.
    pub closed spec fn spec_background(self) -> Color {
        self.background_color
    }

    /// One color per position; the bounding box is that of the positions held, or the
    /// empty box from the largest to the smallest position when there are none.
    pub closed spec fn wf(self) -> bool {
        &&& unique_positions(self.pixels@)
        &&& self.pixels@.len() == 0 ==> self.start_point == (Position { x: i16::MAX, y: i16::MAX })
            && self.end_point == (Position { x: i16::MIN, y: i16::MIN })
        &&& self.pixels@.len() > 0 ==> self.start_point == min_of(positions_of(self.pixels@))
            && self.end_point == past(max_of(positions_of(self.pixels@)))
        &&& forall|i: int| 0 <= i < self.pixels@.len() ==> (#[trigger] self.pixels@[i]).position.x < i16::MAX
            && self.pixels@[i].position.y < i16::MAX
    }

    /// The positions held are those of the map.
    pub proof fn lemma_positions(self)
        requires
            self.wf(),
        ensures
            forall|p: Position| self.spec_positions().contains(p) <==> #[trigger] self.spec_map().contains_key(p),
            self.spec_positions().len() == 0 ==> self.spec_map() == Map::<Position, Color>::empty(),
    {
        lemma_pixel_map(self.pixels@);
        assert forall|p: Position| self.spec_positions().contains(p) <==> #[trigger] self.spec_map().contains_key(p) by {
            if self.spec_positions().contains(p) {
                let i = choose|i: int| 0 <= i < self.spec_positions().len() && self.spec_positions()[i] == p;
                assert(self.pixels@[i].position == p);
            }
            if self.spec_map().contains_key(p) {
                let i = choose|i: int| 0 <= i < self.pixels@.len() && self.pixels@[i].position == p;
                assert(self.spec_positions()[i] == p);
            }
        }
        if self.spec_positions().len() == 0 {
            assert(self.spec_map() =~= Map::<Position, Color>::empty());
        }
    }

    /// An empty canvas on a transparent background.
    pub fn new() -> (r: Self)
        ensures
            r.wf(),
            r.spec_map() == Map::<Position, Color>::empty(),
            r.spec_start() == (Position { x: i16::MAX, y: i16::MAX }),
            r.spec_end() == (Position { x: i16::MIN, y: i16::MIN }),
            r.spec_background() == spec_transparent(),
    {
        Canvas {
            pixels: Vec::new(),
            start_point: Position::max_value(),
            end_point: Position::min_value(),
            background_color: Color::transparent(),
        }
    }

    /// The pixels held, one per position.
    pub fn pixels(&self) -> (r: Vec<Pixel>)
        requires
            self.wf(),
        ensures
            unique_positions(r@),
            pixel_map(r@) == self.spec_map(),
    {
        let mut r: Vec<Pixel> = Vec::new();
        let mut i: usize = 0;
        while i < self.pixels.len()
            invariant
                0 <= i <= self.pixels@.len(),
                r@ == self.pixels@.take(i as int),
            decreases self.pixels@.len() - i,
        {
            r.push(self.pixels[i]);
            i = i + 1;
            assert(r@ =~= self.pixels@.take(i as int));
        }
        assert(self.pixels@.take(i as int) =~= self.pixels@);
        r
    }

    /// Widens the bounding box to hold `position`.
    fn stretch(&mut self, position: Position)
        requires
            position.x < i16::MAX,
            position.y < i16::MAX,
        ensures
            final(self).pixels == old(self).pixels,
            final(self).background_color == old(self).background_color,
            final(self).start_point == old(self).start_point.spec_min(position),
            final(self).end_point == old(self).end_point.spec_max(past(position)),
    {
        self.start_point = self.start_point.min(position);
        self.end_point = self.end_point.max(Position::xy(position.x + 1, position.y + 1));
    }

    /// Blends `color` over the color held at `position`, or stores it where there is
    /// none, and widens the bounding box to hold `position`.
    pub fn draw_pixel(&mut self, position: Position, color: Color)
        requires
            old(self).wf(),
            position.x < i16::MAX,
            position.y < i16::MAX,
        ensures
            final(self).wf(),
            final(self).spec_map() == blend_into(old(self).spec_map(), Pixel { position, color }),
            final(self).spec_start() == old(self).spec_start().spec_min(position),
            final(self).spec_end() == old(self).spec_end().spec_max(past(position)),
            final(self).spec_background() == old(self).spec_background(),
    {
        let ghost before = *self;
        let mut layer = Image { name: None, pixels: Vec::new(), children: Vec::new() };
        std::mem::swap(&mut layer.pixels, &mut self.pixels);
        layer.insert(Pixel::new(position, color));
        std::mem::swap(&mut layer.pixels, &mut self.pixels);
        self.stretch(position);
        proof {
            self.lemma_grown(before, position);
        }
    }

    /// Stores `color` at `position`, replacing any color there, and widens the bounding
    /// box to hold `position`.
    pub fn set_pixel(&mut self, position: Position, color: Color)
        requires
            old(self).wf(),
            position.x < i16::MAX,
            position.y < i16::MAX,
        ensures
            final(self).wf(),
            final(self).spec_map() == old(self).spec_map().insert(position, color),
            final(self).spec_start() == old(self).spec_start().spec_min(position),
            final(self).spec_end() == old(self).spec_end().spec_max(past(position)),
            final(self).spec_background() == old(self).spec_background(),
    {
        let ghost before = *self;
        let mut layer = Image { name: None, pixels: Vec::new(), children: Vec::new() };
        std::mem::swap(&mut layer.pixels, &mut self.pixels);
        layer.put(Pixel::new(position, color));
        std::mem::swap(&mut layer.pixels, &mut self.pixels);
        self.stretch(position);
        proof {
            self.lemma_grown(before, position);
        }
    }

    /// After storing at `position` and widening the box, the box is that of the
    /// positions held.
    proof fn lemma_grown(self, before: Canvas, position: Position)
        requires
            before.wf(),
            unique_positions(self.pixels@),
            position.x < i16::MAX,
            position.y < i16::MAX,
            pixel_map(self.pixels@).dom() == pixel_map(before.pixels@).dom().insert(position),
            self.start_point == before.start_point.spec_min(position),
            self.end_point == before.end_point.spec_max(past(position)),
        ensures
            self.wf(),
    {
        lemma_pixel_map(self.pixels@);
        lemma_pixel_map(before.pixels@);
        let ps = positions_of(self.pixels@);
        let qs = positions_of(before.pixels@);
        lemma_bounds(ps);
        lemma_bounds(qs);
        // Every position held now was held before, or is `position`.
        assert forall|i: int| 0 <= i < ps.len() implies ps[i] == position || qs.contains(#[trigger] ps[i]) by {
            assert(pixel_map(self.pixels@).contains_key(self.pixels@[i].position));
            if ps[i] != position {
                assert(pixel_map(before.pixels@).contains_key(ps[i]));
                let j = choose|j: int| 0 <= j < before.pixels@.len() && before.pixels@[j].position == ps[i];
                assert(qs[j] == ps[i]);
            }
        }
        assert(pixel_map(self.pixels@).contains_key(position));
        let k = choose|k: int| 0 <= k < self.pixels@.len() && self.pixels@[k].position == position;
        assert(ps[k] == position);
        assert forall|j: int| 0 <= j < qs.len() implies ps.contains(#[trigger] qs[j]) by {
            assert(pixel_map(before.pixels@).contains_key(before.pixels@[j].position));
            assert(qs[j] == before.pixels@[j].position);
            assert(pixel_map(self.pixels@).dom().contains(qs[j]));
            let i = choose|i: int| 0 <= i < self.pixels@.len() && self.pixels@[i].position == qs[j];
            assert(ps[i] == qs[j]);
        }
        assert forall|i: int| 0 <= i < self.pixels@.len() implies (#[trigger] self.pixels@[i]).position.x < i16::MAX
            && self.pixels@[i].position.y < i16::MAX by {
            if ps[i] != position {
                let j = choose|j: int| 0 <= j < qs.len() && qs[j] == ps[i];
                assert(before.pixels@[j].position == qs[j]);
            }
        }
        lemma_min_max_agree(ps, qs, position);
    }

    /// Removes the color at `position`, if any, and shrinks the bounding box to the
    /// positions that remain.
    pub fn erase_pixel(&mut self, position: Position)
        requires
            old(self).wf(),
        ensures
            final(self).wf(),
            final(self).spec_map() == old(self).spec_map().remove(position),
            final(self).spec_start() == if final(self).spec_positions().len() == 0 {
                Position { x: i16::MAX, y: i16::MAX }
            } else {
                min_of(final(self).spec_positions())
            },
            final(self).spec_end() == if final(self).spec_positions().len() == 0 {
                Position { x: i16::MIN, y: i16::MIN }
            } else {
                past(max_of(final(self).spec_positions()))
            },
            final(self).spec_background() == old(self).spec_background(),
    {
        let mut rest: Vec<Pixel> = Vec::new();
        let mut i: usize = 0;
        let ghost ps = self.pixels@;
        while i < self.pixels.len()
            invariant
                0 <= i <= ps.len(),
                ps == self.pixels@,
                unique_positions(ps),
                forall|k: int| 0 <= k < ps.len() ==> (#[trigger] ps[k]).position.x < i16::MAX && ps[k].position.y < i16::MAX,
                unique_positions(rest@),
                forall|k: int| 0 <= k < rest@.len() ==> (#[trigger] rest@[k]).position.x < i16::MAX && rest@[k].position.y < i16::MAX,
                pixel_map(rest@) == pixel_map(ps.take(i as int)).remove(position),
                forall|k: int| 0 <= k < rest@.len() ==> exists|j: int| 0 <= j < i && #[trigger] rest@[k] == ps[j],
            decreases ps.len() - i,
        {
            let px = self.pixels[i];
            let ghost prev = rest@;
            proof {
                assert(ps.take(i as int + 1).drop_last() =~= ps.take(i as int));
            }
            if px.position != position {
                rest.push(px);
                proof {
                    lemma_pixel_map(ps.take(i as int));
                    assert(!pixel_map(prev).contains_key(px.position)) by {
                        if pixel_map(ps.take(i as int)).contains_key(px.position) {
                            let j = choose|j: int| 0 <= j < i && ps.take(i as int)[j].position == px.position;
                            assert(ps[j].position != ps[i as int].position);
                        }
                    }
                    lemma_pixel_map(prev);
                    assert(rest@.drop_last() =~= prev);
                    assert(pixel_map(rest@) =~= pixel_map(ps.take(i as int + 1)).remove(position));
                    assert forall|a: int, b: int|
                        0 <= a < rest@.len() && 0 <= b < rest@.len() && a != b implies #[trigger] rest@[a].position
                        != #[trigger] rest@[b].position by {
                        if b == rest@.len() - 1 {
                            assert(pixel_map(prev).contains_key(prev[a].position));
                        } else if a == rest@.len() - 1 {
                            assert(pixel_map(prev).contains_key(prev[b].position));
                        } else {
                            assert(rest@[a] == prev[a] && rest@[b] == prev[b]);
                        }
                    }
                    assert forall|k: int| 0 <= k < rest@.len() implies exists|j: int| 0 <= j < i + 1 && #[trigger] rest@[k] == ps[j] by {
                        if k < prev.len() {
                            assert(rest@[k] == prev[k]);
                        } else {
                            assert(rest@[k] == ps[i as int]);
                        }
                    }
                }
            } else {
                proof {
                    assert(pixel_map(rest@) =~= pixel_map(ps.take(i as int + 1)).remove(position));
                }
            }
            i = i + 1;
        }
        assert(ps.take(i as int) =~= ps);
        let positions = pixel_positions(&rest);
        let (lo, hi) = bounds(positions.as_slice());
        if rest.len() == 0 {
            self.start_point = Position::max_value();
            self.end_point = Position::min_value();
        } else {
            proof {
                lemma_bounds(positions@);
                assert(positions@[0] == rest@[0].position);
                let j = choose|j: int| 0 <= j < positions@.len() && #[trigger] positions@[j].x == max_of(positions@).x;
                let k = choose|k: int| 0 <= k < positions@.len() && #[trigger] positions@[k].y == max_of(positions@).y;
                assert(positions@[j] == rest@[j].position);
                assert(positions@[k] == rest@[k].position);
            }
            self.start_point = lo;
            self.end_point = Position::xy(hi.x + 1, hi.y + 1);
        }
        self.pixels = rest;
    }

    /// Sets the color beneath every pixel of the finished image.
    pub fn set_background_color(&mut self, color: Color)
        requires
            old(self).wf(),
        ensures
            final(self).wf(),
            final(self).spec_map() == old(self).spec_map(),
            final(self).spec_start() == old(self).spec_start(),
            final(self).spec_end() == old(self).spec_end(),
            final(self).spec_background() == color,
    {
        self.background_color = color;
    }

    pub fn start_point(&self) -> (r: Position)
        ensures
            r == self.spec_start(),
    {
        self.start_point
    }

    pub fn end_point(&self) -> (r: Position)
        ensures
            r == self.spec_end(),
    {
        self.end_point
    }

    /// The extent of the bounding box; empty when nothing is held.
    pub open spec fn spec_size(self) -> Size {
        Size {
            width: if self.spec_end().x > self.spec_start().x { (self.spec_end().x - self.spec_start().x) as u16 } else { 0 },
            height: if self.spec_end().y > self.spec_start().y { (self.spec_end().y - self.spec_start().y) as u16 } else { 0 },
        }
    }

    pub fn size(&self) -> (r: Size)
        ensures
            r == self.spec_size(),
    {
        let w: i32 = self.end_point.x as i32 - self.start_point.x as i32;
        let h: i32 = self.end_point.y as i32 - self.start_point.y as i32;
        Size::new(if w > 0 { w as u16 } else { 0 }, if h > 0 { h as u16 } else { 0 })
    }

    /// The dense image of the bounding box, from the origin: at each position the
    /// background, with the color held at the same offset from the start blended over it.
    pub fn to_image(&self) -> (r: Image)
        requires
            self.wf(),
            self.spec_size().width <= 32767,
            self.spec_size().height <= 32767,
        ensures
            r.wf(),
            r.name.is_none(),
            r.children@.len() == 0,
            r.pixels@.len() == self.spec_size().width * self.spec_size().height,
            forall|i: int|
                0 <= i < r.pixels@.len() ==> #[trigger] r.pixels@[i] == (Pixel {
                    position: grid(self.spec_size().width as int, self.spec_size().height as int)[i],
                    color: if self.spec_map().contains_key(
                        self.spec_start().spec_add(grid(self.spec_size().width as int, self.spec_size().height as int)[i]),
                    ) {
                        spec_alpha_blend(
                            self.spec_map()[self.spec_start().spec_add(
                                grid(self.spec_size().width as int, self.spec_size().height as int)[i],
                            )],
                            self.spec_background(),
                        )
                    } else {
                        self.spec_background()
                    },
                }),
    {
        let size = self.size();
        let cells = size.positions();
        let ghost w = size.width as int;
        let ghost h = size.height as int;
        let mut out: Vec<Pixel> = Vec::new();
        let mut i: usize = 0;
        proof {
            lemma_pixel_map(self.pixels@);
        }
        while i < cells.len()
            invariant
                self.wf(),
                size == self.spec_size(),
                w == size.width,
                h == size.height,
                w <= 32767,
                h <= 32767,
                cells@ == grid(w, h),
                0 <= i <= cells@.len(),
                out@.len() == i,
                forall|k: int| 0 <= k < i ==> #[trigger] out@[k] == (Pixel {
                    position: grid(w, h)[k],
                    color: if self.spec_map().contains_key(self.spec_start().spec_add(grid(w, h)[k])) {
                        spec_alpha_blend(self.spec_map()[self.spec_start().spec_add(grid(w, h)[k])], self.spec_background())
                    } else {
                        self.spec_background()
                    },
                }),
                forall|k: int| 0 <= k < i ==> (#[trigger] out@[k]).position == grid(w, h)[k],
            decreases cells@.len() - i,
        {
            let cell = cells[i];
            proof {
                lemma_grid_element(w, h, i as int);
                self.lemma_box_fits(cell);
                self.lemma_map_entries();
            }
            let target = self.start_point + cell;
            let color = match crate::image::find_pixel(&self.pixels, target) {
                Some(j) => self.pixels[j].color.alpha_blend(self.background_color),
                None => self.background_color,
            };
            out.push(Pixel::new(cell, color));
            i = i + 1;
        }
        let r = Image { name: None, pixels: out, children: Vec::new() };
        proof {
            assert(unique_positions(r.pixels@)) by {
                assert forall|a: int, b: int|
                    0 <= a < r.pixels@.len() && 0 <= b < r.pixels@.len() && a != b implies #[trigger] r.pixels@[a].position
                    != #[trigger] r.pixels@[b].position by {
                    lemma_grid_element(w, h, a);
                    lemma_grid_element(w, h, b);
                    vstd::arithmetic::div_mod::lemma_fundamental_div_mod(a, w);
                    vstd::arithmetic::div_mod::lemma_fundamental_div_mod(b, w);
                }
            }
        }
        r
    }

    /// What the map holds, entry by entry.
    proof fn lemma_map_entries(self)
        requires
            self.wf(),
        ensures
            forall|i: int| 0 <= i < self.pixels@.len() ==> #[trigger] self.spec_map().contains_key(self.pixels@[i].position)
                && self.spec_map()[self.pixels@[i].position] == self.pixels@[i].color,
            forall|p: Position| #[trigger] self.spec_map().contains_key(p) ==> exists|i: int|
                0 <= i < self.pixels@.len() && self.pixels@[i].position == p,
    {
        lemma_pixel_map(self.pixels@);
        assert forall|i: int| 0 <= i < self.pixels@.len() implies #[trigger] self.spec_map().contains_key(self.pixels@[i].position)
            && self.spec_map()[self.pixels@[i].position] == self.pixels@[i].color by {
            assert(pixel_map(self.pixels@).contains_key(self.pixels@[i].position));
        }
    }

    /// A cell of the box, moved to the start, stays within 16 bits.
    proof fn lemma_box_fits(self, cell: Position)
        requires
            self.wf(),
            0 <= cell.x < self.spec_size().width,
            0 <= cell.y < self.spec_size().height,
        ensures
            self.spec_start().can_add(cell),
    {
    }
}

/// The positions of `ps`, in order.
fn pixel_positions(ps: &Vec<Pixel>) -> (r: Vec<Position>)
    ensures
        r@ == positions_of(ps@),
{
    let mut r: Vec<Position> = Vec::new();
    let mut i: usize = 0;
    while i < ps.len()
        invariant
            0 <= i <= ps@.len(),
            r@ == positions_of(ps@.take(i as int)),
        decreases ps@.len() - i,
    {
        r.push(ps[i].position);
        i = i + 1;
        assert(r@ =~= positions_of(ps@.take(i as int)));
    }
    assert(ps@.take(i as int) =~= ps@);
    r
}

/// When `ps` holds the positions of `qs` and `p`, and nothing else, its bounds are those
/// of `qs` widened by `p`.
proof fn lemma_min_max_agree(ps: Seq<Position>, qs: Seq<Position>, p: Position)
    requires
        ps.contains(p),
        forall|i: int| 0 <= i < ps.len() ==> ps[i] == p || qs.contains(#[trigger] ps[i]),
        forall|j: int| 0 <= j < qs.len() ==> ps.contains(#[trigger] qs[j]),
    ensures
        min_of(ps) == if qs.len() == 0 { p } else { min_of(qs).spec_min(p) },
        max_of(ps) == if qs.len() == 0 { p } else { max_of(qs).spec_max(p) },
{
    lemma_bounds(ps);
    lemma_bounds(qs);
    let k = choose|k: int| 0 <= k < ps.len() && ps[k] == p;
    // Where each bound of `ps` is reached.
    let a = choose|a: int| 0 <= a < ps.len() && #[trigger] ps[a].x == min_of(ps).x;
    let b = choose|b: int| 0 <= b < ps.len() && #[trigger] ps[b].y == min_of(ps).y;
    let c = choose|c: int| 0 <= c < ps.len() && #[trigger] ps[c].x == max_of(ps).x;
    let d = choose|d: int| 0 <= d < ps.len() && #[trigger] ps[d].y == max_of(ps).y;
    assert(ps[k].x >= min_of(ps).x && ps[k].y >= min_of(ps).y);
    assert(ps[k].x <= max_of(ps).x && ps[k].y <= max_of(ps).y);
    if qs.len() == 0 {
        if ps[a] != p { assert(qs.contains(ps[a])); }
        if ps[b] != p { assert(qs.contains(ps[b])); }
        if ps[c] != p { assert(qs.contains(ps[c])); }
        if ps[d] != p { assert(qs.contains(ps[d])); }
    } else {
        let a2 = choose|a2: int| 0 <= a2 < qs.len() && #[trigger] qs[a2].x == min_of(qs).x;
        let b2 = choose|b2: int| 0 <= b2 < qs.len() && #[trigger] qs[b2].y == min_of(qs).y;
        let c2 = choose|c2: int| 0 <= c2 < qs.len() && #[trigger] qs[c2].x == max_of(qs).x;
        let d2 = choose|d2: int| 0 <= d2 < qs.len() && #[trigger] qs[d2].y == max_of(qs).y;
        assert(ps.contains(qs[a2]) && ps.contains(qs[b2]) && ps.contains(qs[c2]) && ps.contains(qs[d2]));
        let ia = choose|i: int| 0 <= i < ps.len() && ps[i] == qs[a2];
        let ib = choose|i: int| 0 <= i < ps.len() && ps[i] == qs[b2];
        let ic = choose|i: int| 0 <= i < ps.len() && ps[i] == qs[c2];
        let id = choose|i: int| 0 <= i < ps.len() && ps[i] == qs[d2];
        assert(ps[ia].x >= min_of(ps).x);
        assert(ps[ib].x >= min_of(ps).x);
        assert(ps[ic].x <= max_of(ps).x);
        assert(ps[id].x <= max_of(ps).x);
        if ps[a] != p {
            let j = choose|j: int| 0 <= j < qs.len() && qs[j] == ps[a];
            assert(qs[j].x >= min_of(qs).x);
        }
        if ps[b] != p {
            let j = choose|j: int| 0 <= j < qs.len() && qs[j] == ps[b];
            assert(qs[j].x >= min_of(qs).x);
        }
        if ps[c] != p {
            let j = choose|j: int| 0 <= j < qs.len() && qs[j] == ps[c];
            assert(qs[j].x <= max_of(qs).x);
        }
        if ps[d] != p {
            let j = choose|j: int| 0 <= j < qs.len() && qs[j] == ps[d];
            assert(qs[j].x <= max_of(qs).x);
        }
    }
}

} // verus!
