//! Closed polygon outlines.
use vstd::prelude::*;
use crate::color::Color;
use crate::line::{Line, line_fits, line_len, line_step, line_vector_ok};
use crate::position::Position;

verus! {

/// The `k`-th corner: the origin followed by the running sums of the steps `vs`.
pub open spec fn corner(vs: Seq<Position>, k: int) -> Position
    decreases k,
{
    if k <= 0 || k > vs.len() {
        Position { x: 0, y: 0 }
    } else {
        corner(vs, k - 1).spec_add(vs[k - 1])
    }
}

/// The vector of edge `k`: the step `vs[k]`, or for `k == vs.len()` the way back from
/// the last corner to the origin.
pub open spec fn edge_vector(vs: Seq<Position>, k: int) -> Position {
    if k < vs.len() {
        vs[k]
    } else {
        Position { x: 0, y: 0 }.spec_sub(corner(vs, vs.len() as int))
    }
}

/// The outline passes through `p`: some edge's line holds it.
pub open spec fn on_outline(vs: Seq<Position>, p: Position) -> bool {
    exists|k: int, i: int|
        0 <= k <= vs.len() && 0 <= i < line_len(edge_vector(vs, k)) && p == #[trigger] corner(vs, k).spec_add(
            #[trigger] line_step(edge_vector(vs, k), i),
        )
}

/// Every corner, every edge vector and every pixel of the outline fits in 16 bits.
pub open spec fn outline_fits(vs: Seq<Position>) -> bool {
    &&& forall|k: int| 0 <= k < vs.len() ==> #[trigger] corner(vs, k).can_add(vs[k])
    &&& Position { x: 0, y: 0 }.can_sub(corner(vs, vs.len() as int))
    &&& forall|k: int|
        0 <= k <= vs.len() ==> line_vector_ok(#[trigger] edge_vector(vs, k)) && line_fits(corner(vs, k), edge_vector(vs, k))
}

/// A closed outline of one color. Each vertex is a step from the previous corner, the
/// first from the origin; a last edge closes the outline back to the origin.
#[derive(Debug)]
pub struct Polygon {
    pub vertices: Vec<Position>,
    pub color: Color,
}

fn contains_position(ps: &Vec<Position>, p: Position) -> (r: bool)
    ensures
        r == ps@.contains(p),
{
    let mut i: usize = 0;
    while i < ps.len()
        invariant
            0 <= i <= ps@.len(),
            forall|j: int| 0 <= j < i ==> ps@[j] != p,
        decreases ps@.len() - i,
    {
        if ps[i] == p {
            return true;
        }
        i = i + 1;
    }
    false
}

impl Polygon {
    /// A polygon without vertices.
    pub fn new(color: Color) -> (r: Self)
        ensures
            r.vertices@.len() == 0,
            r.color == color,
    {
        Polygon { vertices: Vec::new(), color }
    }

    /// The polygon with one more step.
    pub fn vertex(self, step: Position) -> (r: Self)
        ensures
            r.vertices@ == self.vertices@.push(step),
            r.color == self.color,
    {
        let mut p = self;
        p.vertices.push(step);
        p
    }

    /// The polygon with more steps.
    pub fn vertices(self, steps: Vec<Position>) -> (r: Self)
        ensures
            r.vertices@ == self.vertices@ + steps@,
            r.color == self.color,
    {
        let mut p = self;
        let mut more = steps;
        p.vertices.append(&mut more);
        p
    }

    /// The positions of the outline, each once, in no particular order.
    pub fn points(&self) -> (r: Vec<Position>)
        requires
            outline_fits(self.vertices@),
        ensures
            forall|i: int, j: int| 0 <= i < j < r@.len() ==> r@[i] != r@[j],
            forall|p: Position| r@.contains(p) <==> #[trigger] on_outline(self.vertices@, p),
    {
        let ghost vs = self.vertices@;
        let m = self.vertices.len();
        let mut r: Vec<Position> = Vec::new();
        let mut start = Position::origin();
        let mut k: usize = 0;
        while k < m
            invariant
                0 <= k <= m,
                m == vs.len(),
                vs == self.vertices@,
                outline_fits(vs),
                start == corner(vs, k as int),
                forall|a: int, b: int| 0 <= a < b < r@.len() ==> r@[a] != r@[b],
                forall|p: Position| r@.contains(p) <==> drawn_before(vs, k as int, p),
            decreases m - k,
        {
            let vector = self.vertices[k];
            assert(vector == edge_vector(vs, k as int));
            let ghost before = r@;
            add_line(&mut r, start, vector);
            proof {
                lemma_drawn_step(vs, k as int, before, r@);
            }
            assert(corner(vs, k as int).can_add(vs[k as int]));
            start = start + vector;
            k = k + 1;
        }
        let vector = Position::origin() - start;
        assert(vector == edge_vector(vs, m as int));
        let ghost before = r@;
        add_line(&mut r, start, vector);
        proof {
            lemma_drawn_step(vs, m as int, before, r@);
            assert forall|p: Position| r@.contains(p) <==> #[trigger] on_outline(vs, p) by {
                if on_outline(vs, p) {
                    let (e, i) = choose|e: int, i: int|
                        0 <= e <= vs.len() && 0 <= i < line_len(edge_vector(vs, e)) && p == #[trigger] corner(vs, e).spec_add(
                            #[trigger] line_step(edge_vector(vs, e), i),
                        );
                    assert(drawn_before(vs, m + 1, p));
                }
            }
        }
        r
    }
}

/// Some edge before edge `k` passes through `p`.
pub open spec fn drawn_before(vs: Seq<Position>, k: int, p: Position) -> bool {
    exists|e: int, i: int|
        0 <= e < k && 0 <= i < line_len(edge_vector(vs, e)) && p == #[trigger] corner(vs, e).spec_add(
            #[trigger] line_step(edge_vector(vs, e), i),
        )
}

proof fn lemma_drawn_step(vs: Seq<Position>, k: int, before: Seq<Position>, after: Seq<Position>)
    requires
        0 <= k,
        forall|p: Position| before.contains(p) <==> drawn_before(vs, k, p),
        forall|q: Position|
            after.contains(q) <==> before.contains(q) || exists|i: int|
                0 <= i < line_len(edge_vector(vs, k)) && q == #[trigger] corner(vs, k).spec_add(
                    line_step(edge_vector(vs, k), i),
                ),
    ensures
        forall|p: Position| after.contains(p) <==> drawn_before(vs, k + 1, p),
{
    assert forall|p: Position| after.contains(p) <==> drawn_before(vs, k + 1, p) by {
        if before.contains(p) {
            let (e, i) = choose|e: int, i: int|
                0 <= e < k && 0 <= i < line_len(edge_vector(vs, e)) && p == #[trigger] corner(vs, e).spec_add(
                    #[trigger] line_step(edge_vector(vs, e), i),
                );
            assert(0 <= e < k + 1);
        }
        if after.contains(p) && !before.contains(p) {
            let i = choose|i: int|
                0 <= i < line_len(edge_vector(vs, k)) && p == #[trigger] corner(vs, k).spec_add(
                    line_step(edge_vector(vs, k), i),
                );
            assert(p == corner(vs, k).spec_add(line_step(edge_vector(vs, k), i)));
        }
        if drawn_before(vs, k + 1, p) {
            let (e, i) = choose|e: int, i: int|
                0 <= e < k + 1 && 0 <= i < line_len(edge_vector(vs, e)) && p == #[trigger] corner(vs, e).spec_add(
                    #[trigger] line_step(edge_vector(vs, e), i),
                );
            if e < k {
                assert(drawn_before(vs, k, p));
            } else {
                assert(p == corner(vs, k).spec_add(line_step(edge_vector(vs, k), i)));
            }
        }
    }
}

/// Adds to `r` each position of the line from `start` along `vector` that it lacks.
fn add_line(r: &mut Vec<Position>, start: Position, vector: Position)
    requires
        line_vector_ok(vector),
        line_fits(start, vector),
        forall|a: int, b: int| 0 <= a < b < old(r)@.len() ==> old(r)@[a] != old(r)@[b],
    ensures
        forall|a: int, b: int| 0 <= a < b < final(r)@.len() ==> final(r)@[a] != final(r)@[b],
        forall|q: Position|
            final(r)@.contains(q) <==> old(r)@.contains(q) || exists|i: int|
                0 <= i < line_len(vector) && q == #[trigger] start.spec_add(line_step(vector, i)),
{
    let line = Line { color: Color::black(), position: start, vector };
    let pixels = line.pixels();
    let mut j: usize = 0;
    while j < pixels.len()
        invariant
            0 <= j <= pixels@.len(),
            pixels@.len() == line_len(vector),
            forall|i: int|
                0 <= i < pixels@.len() ==> #[trigger] pixels@[i].position == start.spec_add(line_step(vector, i)),
            forall|a: int, b: int| 0 <= a < b < r@.len() ==> r@[a] != r@[b],
            forall|q: Position|
                r@.contains(q) <==> old(r)@.contains(q) || exists|i: int|
                    0 <= i < j && q == #[trigger] start.spec_add(line_step(vector, i)),
        decreases pixels@.len() - j,
    {
        let p = pixels[j].position;
        let ghost prev = r@;
        let present = contains_position(r, p);
        if !present {
            r.push(p);
            proof {
                assert forall|a: int, b: int| 0 <= a < b < r@.len() implies r@[a] != r@[b] by {
                    if b == r@.len() - 1 {
                        assert(r@[a] == prev[a]);
                        if r@[a] == p {
                            assert(prev.contains(p));
                        }
                    } else {
                        assert(r@[a] == prev[a] && r@[b] == prev[b]);
                    }
                }
                assert(r@[r@.len() - 1] == p);
            }
        }
        proof {
            assert(r@.contains(p));
            assert forall|q: Position| r@.contains(q) == prev.contains(q) || q == p by {
                if r@.contains(q) && q != p {
                    let ix = choose|ix: int| 0 <= ix < r@.len() && r@[ix] == q;
                    if !present {
                        assert(ix < prev.len());
                        assert(prev[ix] == q);
                    }
                }
                if prev.contains(q) && !present {
                    let ix = choose|ix: int| 0 <= ix < prev.len() && prev[ix] == q;
                    assert(r@[ix] == q);
                }
            }
            assert(p == start.spec_add(line_step(vector, j as int)));
            assert forall|q: Position|
                r@.contains(q) <==> old(r)@.contains(q) || exists|i: int|
                    0 <= i < j + 1 && q == #[trigger] start.spec_add(line_step(vector, i)) by {
                if exists|i: int| 0 <= i < j + 1 && q == #[trigger] start.spec_add(line_step(vector, i)) {
                    let i = choose|i: int| 0 <= i < j + 1 && q == #[trigger] start.spec_add(line_step(vector, i));
                    if i < j {
                        assert(prev.contains(q));
                    }
                }
            }
        }
        j = j + 1;
    }
}

} // verus!
