//! Digital straight lines.
use vstd::prelude::*;
use crate::color::Color;
use crate::image::{Image, blend_all, pixel_map, unique_positions};
use crate::pixel::Pixel;
use crate::position::Position;

verus! {

pub open spec fn abs(v: int) -> int {
    if v < 0 { -v } else { v }
}

/// `m` in the direction of `v`: forward when `v` is positive, backward otherwise.
pub open spec fn toward(v: int, m: int) -> int {
    if v > 0 { m } else { -m }
}

/// The number of pixels of the line along `v`: one per unit of its major axis, both
/// ends included.
pub open spec fn line_len(v: Position) -> int {
    if abs(v.x as int) >= abs(v.y as int) { abs(v.x as int) + 1 } else { abs(v.y as int) + 1 }
}

/// The offset from the start of the `i`-th pixel of the line along `v`. The major axis
/// (x on a tie) advances one unit per pixel; the minor one has advanced
/// `i * (m + 1) / (M + 1)` units, truncated, where `M` and `m` are the major and minor
/// lengths.
pub open spec fn line_step(v: Position, i: int) -> Position {
    let ax = abs(v.x as int);
    let ay = abs(v.y as int);
    if ax >= ay {
        Position {
            x: toward(v.x as int, i) as i16,
            y: (toward(v.y as int, i * (ay + 1) / (ax + 1))) as i16,
        }
    } else {
        Position {
            x: (toward(v.x as int, i * (ax + 1) / (ay + 1))) as i16,
            y: toward(v.y as int, i) as i16,
        }
    }
}

/// The offsets of the pixels of the line along `v`, from its start to its end.
pub open spec fn line_points(v: Position) -> Seq<Position> {
    Seq::new(line_len(v) as nat, |i: int| line_step(v, i))
}

/// A vector whose length `abs` can take.
pub open spec fn line_vector_ok(v: Position) -> bool {
    v.x > i16::MIN && v.y > i16::MIN
}

/// Every pixel of the line from `start` along `v` has a position within 16 bits.
pub open spec fn line_fits(start: Position, v: Position) -> bool {
    forall|i: int| 0 <= i < line_len(v) ==> start.can_add(#[trigger] line_step(v, i))
}

/// The minor offset stays between zero and the minor length.
proof fn lemma_minor(i: int, a: int, b: int)
    requires
        0 <= i <= a,
        0 <= b <= a,
    ensures
        0 <= i * (b + 1) / (a + 1) <= b,
        i == a ==> i * (b + 1) / (a + 1) == b,
{
    assert(0 <= i * (b + 1)) by (nonlinear_arith) requires 0 <= i, 0 <= b;
    assert(i * (b + 1) < (b + 1) * (a + 1)) by (nonlinear_arith) requires 0 <= i <= a, 0 <= b;
    vstd::arithmetic::div_mod::lemma_div_pos_is_pos(i * (b + 1), a + 1);
    let x = i * (b + 1);
    let q = x / (a + 1);
    vstd::arithmetic::div_mod::lemma_fundamental_div_mod(x, a + 1);
    vstd::arithmetic::div_mod::lemma_mod_bound(x, a + 1);
    assert(q <= b) by (nonlinear_arith)
        requires x == (a + 1) * q + x % (a + 1), x % (a + 1) >= 0, x < (b + 1) * (a + 1), a >= 0;
    if i == a {
        assert(a * (b + 1) == b * (a + 1) + (a - b)) by (nonlinear_arith);
        vstd::arithmetic::div_mod::lemma_fundamental_div_mod_converse(a * (b + 1), a + 1, b, a - b);
    }
}

/// The line along any vector starts at the origin, ends at the vector, and has
/// `max(|dx|, |dy|) + 1` pixels, no two at the same position.
pub proof fn lemma_line_ends(v: Position)
    requires
        line_vector_ok(v),
    ensures
        line_points(v).len() == if abs(v.x as int) >= abs(v.y as int) { abs(v.x as int) + 1 } else { abs(v.y as int) + 1 },
        line_points(v)[0] == (Position { x: 0, y: 0 }),
        line_points(v).last() == v,
        forall|i: int, j: int|
            0 <= i < line_points(v).len() && 0 <= j < line_points(v).len() && i != j
                ==> #[trigger] line_points(v)[i] != #[trigger] line_points(v)[j],
{
    let ax = abs(v.x as int);
    let ay = abs(v.y as int);
    let n = line_len(v);
    lemma_line_steps(v);
    if ax >= ay {
        lemma_minor(0, ax, ay);
        lemma_minor(ax, ax, ay);
    } else {
        lemma_minor(0, ay, ax);
        lemma_minor(ay, ay, ax);
    }
    assert(line_points(v)[n - 1] == line_step(v, n - 1));
}

/// Each pixel of the line lies between the origin and the vector, and the major
/// coordinate tells pixels apart.
proof fn lemma_line_steps(v: Position)
    requires
        line_vector_ok(v),
    ensures
        forall|i: int|
            0 <= i < line_len(v) ==> {
                let p = #[trigger] line_step(v, i);
                &&& abs(p.x as int) <= abs(v.x as int)
                &&& abs(p.y as int) <= abs(v.y as int)
                &&& (abs(v.x as int) >= abs(v.y as int) ==> p.x == toward(v.x as int, i))
                &&& (abs(v.x as int) < abs(v.y as int) ==> p.y == toward(v.y as int, i))
            },
{
    let ax = abs(v.x as int);
    let ay = abs(v.y as int);
    assert forall|i: int| 0 <= i < line_len(v) implies {
        let p = #[trigger] line_step(v, i);
        &&& abs(p.x as int) <= ax
        &&& abs(p.y as int) <= ay
        &&& (ax >= ay ==> p.x == toward(v.x as int, i))
        &&& (ax < ay ==> p.y == toward(v.y as int, i))
    } by {
        let p = line_step(v, i);
        if ax >= ay {
            lemma_minor(i, ax, ay);
            let m = i * (ay + 1) / (ax + 1);
            assert(-32767 <= toward(v.x as int, i) <= 32767);
            assert(-32767 <= toward(v.y as int, m) <= 32767);
            assert(p.x as int == toward(v.x as int, i));
            assert(p.y as int == toward(v.y as int, m));
        } else {
            lemma_minor(i, ay, ax);
            let m = i * (ax + 1) / (ay + 1);
            assert(-32767 <= toward(v.y as int, i) <= 32767);
            assert(-32767 <= toward(v.x as int, m) <= 32767);
            assert(p.y as int == toward(v.y as int, i));
            assert(p.x as int == toward(v.x as int, m));
        }
    }
}

fn toward_exec(v: i16, m: i32) -> (r: i16)
    requires
        0 <= m <= 32767,
    ensures
        r == toward(v as int, m as int),
{
    if v > 0 { m as i16 } else { -(m as i16) }
}

/// A straight line of one color from `position` along `vector`.
#[derive(Debug, Clone, Copy)]
pub struct Line {
    pub color: Color,
    pub position: Position,
    pub vector: Position,
}

impl Line {
    /// A black, zero-length line at the origin.
    pub fn new() -> (r: Self)
        ensures
            r.color == (Color { r: 0, g: 0, b: 0, a: 255 }),
            r.position == (Position { x: 0, y: 0 }),
            r.vector == (Position { x: 0, y: 0 }),
    {
        Line { color: Color::black(), position: Position::origin(), vector: Position::origin() }
    }

    pub fn color(self, color: Color) -> (r: Self)
        ensures
            r == (Line { color, ..self }),
    {
        Line { color, ..self }
    }

    pub fn position(self, position: Position) -> (r: Self)
        ensures
            r == (Line { position, ..self }),
    {
        Line { position, ..self }
    }

    pub fn vector(self, vector: Position) -> (r: Self)
        ensures
            r == (Line { vector, ..self }),
    {
        Line { vector, ..self }
    }

    /// The pixels of the line, from its start to its end.
    pub fn pixels(self) -> (r: Vec<Pixel>)
        requires
            line_vector_ok(self.vector),
            line_fits(self.position, self.vector),
        ensures
            r@.len() == line_len(self.vector),
            forall|i: int|
                0 <= i < r@.len() ==> #[trigger] r@[i] == (Pixel {
                    position: self.position.spec_add(line_step(self.vector, i)),
                    color: self.color,
                }),
    {
        let v = self.vector;
        let ax: i32 = if v.x < 0 { -(v.x as i32) } else { v.x as i32 };
        let ay: i32 = if v.y < 0 { -(v.y as i32) } else { v.y as i32 };
        let x_major = ax >= ay;
        let n: i32 = if x_major { ax + 1 } else { ay + 1 };
        let mut r: Vec<Pixel> = Vec::new();
        let mut i: i32 = 0;
        proof {
            lemma_line_steps(v);
        }
        while i < n
            invariant
                0 <= i <= n,
                n == line_len(v),
                ax == abs(v.x as int),
                ay == abs(v.y as int),
                x_major == (ax >= ay),
                v == self.vector,
                line_vector_ok(v),
                line_fits(self.position, v),
                r@.len() == i,
                forall|j: int|
                    0 <= j < i ==> #[trigger] r@[j] == (Pixel {
                        position: self.position.spec_add(line_step(v, j)),
                        color: self.color,
                    }),
            decreases n - i,
        {
            let step = if x_major {
                proof {
                    lemma_minor(i as int, ax as int, ay as int);
                    assert(i * (ay + 1) <= 32768 * 32768) by (nonlinear_arith)
                        requires 0 <= i <= ax, ay <= ax, ax <= 32767;
                }
                let minor = (i as i64 * (ay as i64 + 1) / (ax as i64 + 1)) as i32;
                Position::xy(toward_exec(v.x, i), toward_exec(v.y, minor))
            } else {
                proof {
                    lemma_minor(i as int, ay as int, ax as int);
                    assert(i * (ax + 1) <= 32768 * 32768) by (nonlinear_arith)
                        requires 0 <= i <= ay, ax <= ay, ay <= 32767;
                }
                let minor = (i as i64 * (ax as i64 + 1) / (ay as i64 + 1)) as i32;
                Position::xy(toward_exec(v.x, minor), toward_exec(v.y, i))
            };
            assert(step == line_step(v, i as int));
            assert(self.position.can_add(line_step(v, i as int)));
            r.push(Pixel::new(self.position + step, self.color));
            i = i + 1;
        }
        r
    }

    /// The line as an image of one layer.
    pub fn to_image(self) -> (r: Image)
        requires
            line_vector_ok(self.vector),
            line_fits(self.position, self.vector),
        ensures
            r.wf(),
            r.name.is_none(),
            r.children@.len() == 0,
            forall|i: int|
                0 <= i < line_len(self.vector) ==> #[trigger] r.own_map().contains_key(
                    self.position.spec_add(line_step(self.vector, i)),
                ),
            forall|p: Position| #[trigger] r.own_map().contains_key(p) ==> r.own_map()[p] == self.color,
    {
        let pixels = self.pixels();
        let image = Image::from_pixels(pixels.as_slice());
        proof {
            lemma_line_ends(self.vector);
            assert(unique_positions(pixels@)) by {
                assert forall|a: int, b: int|
                    0 <= a < pixels@.len() && 0 <= b < pixels@.len() && a != b implies #[trigger] pixels@[a].position
                    != #[trigger] pixels@[b].position by {
                    assert(line_points(self.vector)[a] != line_points(self.vector)[b]);
                }
            }
            lemma_blend_distinct(pixels@, self.color);
            crate::image::lemma_pixel_map(pixels@);
            assert forall|i: int| 0 <= i < line_len(self.vector) implies #[trigger] image.own_map().contains_key(
                self.position.spec_add(line_step(self.vector, i))) by {
                assert(pixels@[i].position == self.position.spec_add(line_step(self.vector, i)));
            }
        }
        image
    }
}

/// Blending pixels of one color at distinct positions stores each of them once.
pub proof fn lemma_blend_distinct(ps: Seq<Pixel>, color: Color)
    requires
        forall|i: int| 0 <= i < ps.len() ==> (#[trigger] ps[i]).color == color,
        unique_positions(ps),
    ensures
        blend_all(Map::empty(), ps) == pixel_map(ps),
    decreases ps.len(),
{
    if ps.len() > 0 {
        let qs = ps.drop_last();
        assert forall|i: int| 0 <= i < qs.len() implies (#[trigger] qs[i]).color == color by {
            assert(qs[i] == ps[i]);
        }
        assert(unique_positions(qs)) by {
            assert forall|a: int, b: int|
                0 <= a < qs.len() && 0 <= b < qs.len() && a != b implies #[trigger] qs[a].position
                != #[trigger] qs[b].position by {
                assert(qs[a] == ps[a] && qs[b] == ps[b]);
                assert(ps[a].position != ps[b].position);
            }
        }
        lemma_blend_distinct(qs, color);
        crate::image::lemma_pixel_map(qs);
        if pixel_map(qs).contains_key(ps.last().position) {
            let j = choose|j: int| 0 <= j < qs.len() && qs[j].position == ps.last().position;
            assert(ps[j] == qs[j]);
            assert(ps[j].position != ps[ps.len() - 1].position);
        }
    }
}

impl Default for Line {
    fn default() -> (r: Self)
        ensures
            r.color == (Color { r: 0, g: 0, b: 0, a: 255 }),
            r.position == (Position { x: 0, y: 0 }),
            r.vector == (Position { x: 0, y: 0 }),
    {
        Line::new()
    }
}

} // verus!
