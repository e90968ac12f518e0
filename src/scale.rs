//! The filter that magnifies every pixel into a square block.
use vstd::prelude::*;
use crate::filter::Filter;
use crate::image::{Image, copy_name, flat_all, lemma_child_decreases, positions_of, unique_positions};
use crate::region::{lemma_bounds, max_of, min_of, size_of};
use crate::pixel::Pixel;
use crate::position::{Position, fits_i16};

verus! {

/// The pixel at index `t` of the `k` by `k` block that `px` becomes, row by row.
pub open spec fn block_pixel(px: Pixel, k: int, t: int) -> Pixel {
    Pixel {
        position: Position {
            x: (px.position.x * k + t % k) as i16,
            y: (px.position.y * k + t / k) as i16,
        },
        color: px.color,
    }
}

/// Each pixel of `ps` replaced by its `k` by `k` block, in order.
pub open spec fn blocks(ps: Seq<Pixel>, k: int) -> Seq<Pixel> {
    Seq::new((ps.len() * (k * k)) as nat, |j: int| block_pixel(ps[j / (k * k)], k, j % (k * k)))
}

/// The block of `p` magnified `k` times fits in 16 bits.
pub open spec fn block_fits(p: Position, k: int) -> bool {
    fits_i16(p.x * k) && fits_i16(p.x * k + k - 1) && fits_i16(p.y * k) && fits_i16(p.y * k + k - 1)
}

/// Every block of every layer fits in 16 bits.
pub open spec fn scale_fits(image: Image, k: int) -> bool
    decreases image,
{
    &&& forall|i: int| 0 <= i < image.pixels@.len() ==> block_fits((#[trigger] image.pixels@[i]).position, k)
    &&& forall|i: int| 0 <= i < image.children@.len() ==> scale_fits(#[trigger] image.children@[i], k)
}

/// `after` is `before` with every layer's pixels magnified `k` times.
pub open spec fn scaled(before: Image, after: Image, k: int) -> bool
    decreases before,
{
    &&& after.name == before.name
    &&& after.pixels@ == blocks(before.pixels@, k)
    &&& after.children@.len() == before.children@.len()
    &&& forall|i: int|
        0 <= i < before.children@.len() ==> scaled(#[trigger] before.children@[i], after.children@[i], k)
}

/// Where a block pixel lands: its block's corner plus its offset.
proof fn lemma_block_pixel(px: Pixel, k: int, t: int)
    requires
        k >= 1,
        0 <= t < k * k,
        block_fits(px.position, k),
    ensures
        0 <= t % k < k,
        0 <= t / k < k,
        block_pixel(px, k, t).position.x == px.position.x * k + t % k,
        block_pixel(px, k, t).position.y == px.position.y * k + t / k,
        (block_pixel(px, k, t).position.x as int) / k == px.position.x,
        (block_pixel(px, k, t).position.y as int) / k == px.position.y,
{
    vstd::arithmetic::div_mod::lemma_mod_bound(t, k);
    vstd::arithmetic::div_mod::lemma_div_pos_is_pos(t, k);
    vstd::arithmetic::div_mod::lemma_div_is_ordered(t, k * k, k);
    vstd::arithmetic::div_mod::lemma_div_multiples_vanish(k, k);
    if t / k >= k {
        vstd::arithmetic::div_mod::lemma_fundamental_div_mod(t, k);
        assert(k * (t / k) >= k * k) by (nonlinear_arith) requires t / k >= k, k >= 1;
    }
    let x = px.position.x * k + t % k;
    let y = px.position.y * k + t / k;
    vstd::arithmetic::div_mod::lemma_fundamental_div_mod_converse(x, k, px.position.x as int, t % k);
    vstd::arithmetic::div_mod::lemma_fundamental_div_mod_converse(y, k, px.position.y as int, t / k);
    assert(px.position.x * k == k * px.position.x) by (nonlinear_arith);
    assert(px.position.y * k == k * px.position.y) by (nonlinear_arith);
}

/// The index of a block pixel splits into the source index and the offset.
proof fn lemma_block_index(n: int, k: int, i: int, t: int)
    requires
        k >= 1,
        0 <= i < n,
        0 <= t < k * k,
    ensures
        0 <= i * (k * k) + t < n * (k * k),
        (i * (k * k) + t) / (k * k) == i,
        (i * (k * k) + t) % (k * k) == t,
{
    vstd::arithmetic::div_mod::lemma_fundamental_div_mod_converse(i * (k * k), k * k, i, 0);
    vstd::arithmetic::div_mod::lemma_fundamental_div_mod_converse(i * (k * k) + t, k * k, i, t);
    assert(i * (k * k) + t < n * (k * k)) by (nonlinear_arith) requires 0 <= i < n, 0 <= t < k * k;
    assert(0 <= i * (k * k)) by (nonlinear_arith) requires 0 <= i, k >= 1;
}

/// The blocks of distinct pixels do not overlap, and no block repeats a position.
proof fn lemma_blocks_unique(ps: Seq<Pixel>, k: int)
    requires
        k >= 1,
        unique_positions(ps),
        forall|i: int| 0 <= i < ps.len() ==> block_fits((#[trigger] ps[i]).position, k),
    ensures
        unique_positions(blocks(ps, k)),
{
    let bs = blocks(ps, k);
    let kk = k * k;
    assert(kk >= 1) by (nonlinear_arith) requires k >= 1, kk == k * k;
    assert forall|a: int, b: int|
        0 <= a < bs.len() && 0 <= b < bs.len() && a != b implies #[trigger] bs[a].position
        != #[trigger] bs[b].position by {
        vstd::arithmetic::div_mod::lemma_div_pos_is_pos(a, kk);
        vstd::arithmetic::div_mod::lemma_div_pos_is_pos(b, kk);
        vstd::arithmetic::div_mod::lemma_mod_bound(a, kk);
        vstd::arithmetic::div_mod::lemma_mod_bound(b, kk);
        vstd::arithmetic::div_mod::lemma_div_is_ordered(a, ps.len() * kk, kk);
        vstd::arithmetic::div_mod::lemma_div_is_ordered(b, ps.len() * kk, kk);
        vstd::arithmetic::div_mod::lemma_div_multiples_vanish(ps.len() as int, kk);
        assert(kk * ps.len() == ps.len() * kk) by (nonlinear_arith);
        let (ia, ib) = (a / kk, b / kk);
        let (ta, tb) = (a % kk, b % kk);
        if ia >= ps.len() {
            vstd::arithmetic::div_mod::lemma_fundamental_div_mod(a, kk);
            assert(kk * ia >= kk * ps.len()) by (nonlinear_arith) requires ia >= ps.len(), kk >= 1;
        }
        if ib >= ps.len() {
            vstd::arithmetic::div_mod::lemma_fundamental_div_mod(b, kk);
            assert(kk * ib >= kk * ps.len()) by (nonlinear_arith) requires ib >= ps.len(), kk >= 1;
        }
        lemma_block_pixel(ps[ia], k, ta);
        lemma_block_pixel(ps[ib], k, tb);
        if ia != ib {
            assert(ps[ia].position != ps[ib].position);
        } else {
            vstd::arithmetic::div_mod::lemma_fundamental_div_mod(a, kk);
            vstd::arithmetic::div_mod::lemma_fundamental_div_mod(b, kk);
            assert(ta != tb);
            vstd::arithmetic::div_mod::lemma_fundamental_div_mod(ta, k);
            vstd::arithmetic::div_mod::lemma_fundamental_div_mod(tb, k);
        }
    }
}

/// Blocks of a concatenation are the concatenation of the blocks.
proof fn lemma_blocks_concat(a: Seq<Pixel>, b: Seq<Pixel>, k: int)
    requires
        k >= 1,
    ensures
        blocks(a + b, k) == blocks(a, k) + blocks(b, k),
{
    let kk = k * k;
    assert(kk >= 1) by (nonlinear_arith) requires k >= 1, kk == k * k;
    let l = blocks(a + b, k);
    let r = blocks(a, k) + blocks(b, k);
    assert((a.len() + b.len()) * kk == a.len() * kk + b.len() * kk) by (nonlinear_arith);
    assert forall|j: int| 0 <= j < l.len() implies l[j] == r[j] by {
        let t = j % kk;
        vstd::arithmetic::div_mod::lemma_fundamental_div_mod(j, kk);
        vstd::arithmetic::div_mod::lemma_mod_bound(j, kk);
        vstd::arithmetic::div_mod::lemma_div_pos_is_pos(j, kk);
        if j < a.len() * kk {
            if j / kk >= a.len() {
                assert(kk * (j / kk) >= kk * a.len()) by (nonlinear_arith) requires j / kk >= a.len(), kk >= 1;
            }
            assert((a + b)[j / kk] == a[j / kk]);
        } else {
            let j2 = j - a.len() * kk;
            vstd::arithmetic::div_mod::lemma_fundamental_div_mod(j2, kk);
            vstd::arithmetic::div_mod::lemma_mod_bound(j2, kk);
            let q2 = j2 / kk;
            assert(j == (q2 + a.len()) * kk + j2 % kk) by (nonlinear_arith)
                requires j2 == kk * q2 + j2 % kk, j2 == j - a.len() * kk;
            vstd::arithmetic::div_mod::lemma_fundamental_div_mod_converse(j, kk, q2 + a.len(), j2 % kk);
            vstd::arithmetic::div_mod::lemma_div_pos_is_pos(j2, kk);
            assert(q2 < b.len()) by {
                if q2 >= b.len() {
                    assert(kk * q2 >= kk * b.len()) by (nonlinear_arith) requires q2 >= b.len(), kk >= 1;
                    assert(b.len() * kk == kk * b.len()) by (nonlinear_arith);
                }
            }
            vstd::arithmetic::div_mod::lemma_div_pos_is_pos(j2, kk);
            assert((a + b)[j / kk] == b[j2 / kk]);
        }
    }
    assert(l =~= r);
}

/// Scaling every layer scales the whole tree: the pixels of the result, depth first,
/// are the blocks of the pixels of the source; every pixel of the source has a block
/// that fits.
proof fn lemma_flat_scaled(before: Image, after: Image, k: int)
    requires
        k >= 1,
        scale_fits(before, k),
        scaled(before, after, k),
    ensures
        after.flat() == blocks(before.flat(), k),
        forall|j: int| 0 <= j < before.flat().len() ==> block_fits((#[trigger] before.flat()[j]).position, k),
    decreases before, 1int, 0int,
{
    lemma_flat_all_scaled(before, after, k, before.children@.len() as int);
    lemma_blocks_concat(before.pixels@, flat_all(before.children@, before.children@.len() as int), k);
    let ps = before.pixels@;
    let cs = flat_all(before.children@, before.children@.len() as int);
    assert forall|j: int| 0 <= j < before.flat().len() implies block_fits((#[trigger] before.flat()[j]).position, k) by {
        if j < ps.len() {
            assert(before.flat()[j] == ps[j]);
        } else {
            assert(before.flat()[j] == cs[j - ps.len()]);
        }
    }
}

proof fn lemma_flat_all_scaled(before: Image, after: Image, k: int, i: int)
    requires
        k >= 1,
        scale_fits(before, k),
        scaled(before, after, k),
        0 <= i <= before.children@.len(),
    ensures
        flat_all(after.children@, i) == blocks(flat_all(before.children@, i), k),
        forall|j: int|
            0 <= j < flat_all(before.children@, i).len() ==> block_fits((#[trigger] flat_all(before.children@, i)[j]).position, k),
    decreases before, 0int, i,
{
    let kk = k * k;
    if i == 0 {
        assert(blocks(Seq::<Pixel>::empty(), k) =~= Seq::<Pixel>::empty());
    } else {
        lemma_flat_all_scaled(before, after, k, i - 1);
        lemma_child_decreases(before, i - 1);
        assert(scale_fits(before.children@[i - 1], k));
        assert(scaled(before.children@[i - 1], after.children@[i - 1], k));
        lemma_flat_scaled(before.children@[i - 1], after.children@[i - 1], k);
        lemma_blocks_concat(flat_all(before.children@, i - 1), before.children@[i - 1].flat(), k);
        let a = flat_all(before.children@, i - 1);
        let b = before.children@[i - 1].flat();
        assert(flat_all(before.children@, i) == a + b);
        assert forall|j: int| 0 <= j < (a + b).len() implies block_fits((#[trigger] (a + b)[j]).position, k) by {
            if j < a.len() {
                assert((a + b)[j] == a[j]);
            } else {
                assert((a + b)[j] == b[j - a.len()]);
            }
        }
    }
}

/// The corners of the bounding box of the blocks are the source's corners magnified,
/// the far one moved by `k - 1`.
proof fn lemma_blocks_bounds(ps: Seq<Pixel>, k: int)
    requires
        k >= 1,
        ps.len() > 0,
        forall|j: int| 0 <= j < ps.len() ==> block_fits((#[trigger] ps[j]).position, k),
    ensures
        min_of(positions_of(blocks(ps, k))).x == min_of(positions_of(ps)).x * k,
        min_of(positions_of(blocks(ps, k))).y == min_of(positions_of(ps)).y * k,
        max_of(positions_of(blocks(ps, k))).x == max_of(positions_of(ps)).x * k + k - 1,
        max_of(positions_of(blocks(ps, k))).y == max_of(positions_of(ps)).y * k + k - 1,
{
    let kk = k * k;
    assert(kk >= 1) by (nonlinear_arith) requires k >= 1, kk == k * k;
    let qs = positions_of(ps);
    let bs = blocks(ps, k);
    let bq = positions_of(bs);
    assert(ps.len() * kk >= 1) by (nonlinear_arith) requires ps.len() >= 1, kk >= 1;
    assert(bq.len() > 0);
    lemma_bounds(qs);
    lemma_bounds(bq);
    let (lo, hi) = (min_of(qs), max_of(qs));
    // Every block position lies between the magnified corners.
    assert forall|j: int| 0 <= j < bq.len() implies lo.x * k <= #[trigger] bq[j].x <= hi.x * k + k - 1
        && lo.y * k <= bq[j].y <= hi.y * k + k - 1 by {
        vstd::arithmetic::div_mod::lemma_div_pos_is_pos(j, kk);
        vstd::arithmetic::div_mod::lemma_mod_bound(j, kk);
        vstd::arithmetic::div_mod::lemma_fundamental_div_mod(j, kk);
        let i = j / kk;
        if i >= ps.len() {
            assert(kk * i >= kk * ps.len()) by (nonlinear_arith) requires i >= ps.len(), kk >= 1;
            assert(ps.len() * kk == kk * ps.len()) by (nonlinear_arith);
        }
        lemma_block_pixel(ps[i], k, j % kk);
        assert(qs[i] == ps[i].position);
        let p = ps[i].position;
        assert(lo.x * k <= p.x * k) by (nonlinear_arith) requires lo.x <= p.x, k >= 1;
        assert(lo.y * k <= p.y * k) by (nonlinear_arith) requires lo.y <= p.y, k >= 1;
        assert(p.x * k <= hi.x * k) by (nonlinear_arith) requires p.x <= hi.x, k >= 1;
        assert(p.y * k <= hi.y * k) by (nonlinear_arith) requires p.y <= hi.y, k >= 1;
    }
    // The corner blocks reach them.
    let a = choose|a: int| 0 <= a < qs.len() && #[trigger] qs[a].x == lo.x;
    let b = choose|b: int| 0 <= b < qs.len() && #[trigger] qs[b].y == lo.y;
    let c = choose|c: int| 0 <= c < qs.len() && #[trigger] qs[c].x == hi.x;
    let d = choose|d: int| 0 <= d < qs.len() && #[trigger] qs[d].y == hi.y;
    lemma_block_index(ps.len() as int, k, a, 0);
    lemma_block_index(ps.len() as int, k, b, 0);
    lemma_block_index(ps.len() as int, k, c, kk - 1);
    lemma_block_index(ps.len() as int, k, d, kk - 1);
    lemma_block_pixel(ps[a], k, 0);
    lemma_block_pixel(ps[b], k, 0);
    lemma_block_pixel(ps[c], k, kk - 1);
    lemma_block_pixel(ps[d], k, kk - 1);
    assert(kk - 1 == (k - 1) * k + (k - 1)) by (nonlinear_arith) requires kk == k * k;
    vstd::arithmetic::div_mod::lemma_fundamental_div_mod_converse(kk - 1, k, k - 1, k - 1);
    assert(bq[a * kk].x == lo.x * k);
    assert(bq[b * kk].y == lo.y * k);
    assert(bq[c * kk + kk - 1].x == hi.x * k + k - 1);
    assert(bq[d * kk + kk - 1].y == hi.y * k + k - 1);
    let m1 = choose|m: int| 0 <= m < bq.len() && #[trigger] bq[m].x == min_of(bq).x;
    let m2 = choose|m: int| 0 <= m < bq.len() && #[trigger] bq[m].y == min_of(bq).y;
    let m3 = choose|m: int| 0 <= m < bq.len() && #[trigger] bq[m].x == max_of(bq).x;
    let m4 = choose|m: int| 0 <= m < bq.len() && #[trigger] bq[m].y == max_of(bq).y;
    assert(min_of(bq).x <= bq[b * kk].x <= max_of(bq).x && min_of(bq).y <= bq[b * kk].y <= max_of(bq).y);
    assert(min_of(bq).x <= bq[d * kk + kk - 1].x <= max_of(bq).x && min_of(bq).y <= bq[d * kk + kk - 1].y <= max_of(bq).y);
    assert(lo.x * k <= bq[m2].x && lo.y * k <= bq[m2].y);
    assert(bq[m4].x <= hi.x * k + k - 1 && bq[m4].y <= hi.y * k + k - 1);
}

/// Scaling by `k` multiplies the bounding size of an image by `k`, and each pixel of
/// the result carries the color of the source pixel at its position divided by `k`,
/// rounded down.
pub proof fn lemma_scale_law(before: Image, after: Image, k: u8)
    requires
        k >= 1,
        scale_fits(before, k as int),
        scaled(before, after, k as int),
        size_of(positions_of(before.flat())).width * k < u16::MAX,
        size_of(positions_of(before.flat())).height * k < u16::MAX,
    ensures
        size_of(positions_of(after.flat())).width == size_of(positions_of(before.flat())).width * k,
        size_of(positions_of(after.flat())).height == size_of(positions_of(before.flat())).height * k,
        after.flat().len() == before.flat().len() * (k * k),
        forall|j: int|
            0 <= j < after.flat().len() ==> {
                let q = (#[trigger] after.flat()[j]).position;
                let src = before.flat()[j / (k * k)];
                &&& src.position == (Position { x: (q.x as int / k as int) as i16, y: (q.y as int / k as int) as i16 })
                &&& after.flat()[j].color == src.color
            },
{
    let gk = k as int;
    let kk = gk * gk;
    assert(kk >= 1) by (nonlinear_arith) requires gk >= 1, kk == gk * gk;
    lemma_flat_scaled(before, after, gk);
    let ps = before.flat();
    assert forall|j: int| 0 <= j < after.flat().len() implies {
        let q = (#[trigger] after.flat()[j]).position;
        let src = before.flat()[j / (k * k)];
        &&& src.position == (Position { x: (q.x as int / k as int) as i16, y: (q.y as int / k as int) as i16 })
        &&& after.flat()[j].color == src.color
    } by {
        vstd::arithmetic::div_mod::lemma_div_pos_is_pos(j, kk);
        vstd::arithmetic::div_mod::lemma_mod_bound(j, kk);
        vstd::arithmetic::div_mod::lemma_fundamental_div_mod(j, kk);
        let i = j / kk;
        if i >= ps.len() {
            assert(kk * i >= kk * ps.len()) by (nonlinear_arith) requires i >= ps.len(), kk >= 1;
            assert(ps.len() * kk == kk * ps.len()) by (nonlinear_arith);
        }
        lemma_block_pixel(ps[i], gk, j % kk);
    }
    if ps.len() > 0 {
        lemma_blocks_bounds(ps, gk);
        let qs = positions_of(ps);
        let bq = positions_of(blocks(ps, gk));
        lemma_bounds(qs);
        assert(qs[0] == ps[0].position);
        assert(bq.len() > 0) by {
            assert(ps.len() * kk >= 1) by (nonlinear_arith) requires ps.len() >= 1, kk >= 1;
        }
        let (lo, hi) = (min_of(qs), max_of(qs));
        assert((hi.x * gk + gk - 1) - lo.x * gk + 1 == (hi.x - lo.x + 1) * gk) by (nonlinear_arith);
        assert((hi.y * gk + gk - 1) - lo.y * gk + 1 == (hi.y - lo.y + 1) * gk) by (nonlinear_arith);
        assert(hi.x - lo.x + 1 <= u16::MAX) by {
            assert(lo.x <= qs[0].x <= hi.x);
        }
        assert(hi.y - lo.y + 1 <= u16::MAX) by {
            assert(lo.y <= qs[0].y <= hi.y);
        }
        assert(lo.x <= hi.x && lo.y <= hi.y) by {
            assert(lo.x <= qs[0].x <= hi.x);
        }
        assert(size_of(qs).width == hi.x - lo.x + 1);
        assert(size_of(qs).height == hi.y - lo.y + 1);
        assert(after.flat() == blocks(ps, gk));
        assert(positions_of(after.flat()) == bq);
        assert(min_of(bq).x == lo.x * gk);
        assert(max_of(bq).x == hi.x * gk + gk - 1);
        assert(size_of(bq).width == (hi.x - lo.x + 1) * gk);
        assert(size_of(bq).height == (hi.y - lo.y + 1) * gk);
    } else {
        assert(ps.len() * kk == 0) by (nonlinear_arith) requires ps.len() == 0;
        assert(blocks(ps, gk).len() == 0);
        assert(positions_of(after.flat()).len() == 0);
        assert(positions_of(before.flat()).len() == 0);
        assert(size_of(positions_of(before.flat())).width == 0);
        assert(size_of(positions_of(before.flat())).height == 0);
        assert(0 * gk == 0);
    }
}

/// Magnifies every pixel `k` times: the pixel at `p` becomes the `k` by `k` block whose
/// top-left corner is `p * k`. Children are scaled the same way.
#[derive(Debug, Clone, Copy)]
pub struct Scale {
    pub factor: u8,
}

impl Scale {
    pub open spec fn spec_factor(self) -> u8 {
        self.factor
    }

    /// The filter that magnifies `factor` times; `factor` is at least 1.
    pub fn new(factor: u8) -> (r: Self)
        requires
            factor >= 1,
        ensures
            r.spec_factor() == factor,
    {
        Scale { factor }
    }
}

impl Filter for Scale {
    open spec fn accepts(&self, image: Image) -> bool {
        self.factor >= 1 && scale_fits(image, self.factor as int)
    }

    open spec fn transforms(&self, before: Image, after: Image) -> bool {
        scaled(before, after, self.factor as int)
    }

    fn filter(&self, image: Image) -> (r: Image) {
        scale_image(&image, self.factor)
    }
}

fn scale_image(image: &Image, k: u8) -> (r: Image)
    requires
        image.wf(),
        k >= 1,
        scale_fits(*image, k as int),
    ensures
        r.wf(),
        scaled(*image, r, k as int),
    decreases image,
{
    let ghost gk = k as int;
    let ghost kk = gk * gk;
    let ghost ps = image.pixels@;
    let n = image.pixels.len();
    let mut out: Vec<Pixel> = Vec::new();
    let mut i: usize = 0;
    proof {
        assert(kk >= 1) by (nonlinear_arith) requires gk >= 1, kk == gk * gk;
    }
    while i < n
        invariant
            0 <= i <= n,
            n == ps.len(),
            ps == image.pixels@,
            gk == k,
            kk == gk * gk,
            kk >= 1,
            k >= 1,
            scale_fits(*image, gk),
            out@.len() == i * kk,
            forall|j: int| 0 <= j < out@.len() ==> #[trigger] out@[j] == blocks(ps, gk)[j],
        decreases n - i,
    {
        let px = image.pixels[i];
        assert(block_fits(px.position, gk));
        let mut dy: u8 = 0;
        while dy < k
            invariant
                0 <= i < n,
                n == ps.len(),
                ps == image.pixels@,
                px == ps[i as int],
                gk == k,
                kk == gk * gk,
                kk >= 1,
                block_fits(px.position, gk),
                0 <= dy <= k,
                out@.len() == i * kk + dy * gk,
                forall|j: int| 0 <= j < out@.len() ==> #[trigger] out@[j] == blocks(ps, gk)[j],
            decreases k - dy,
        {
            let mut dx: u8 = 0;
            while dx < k
                invariant
                    0 <= i < n,
                    n == ps.len(),
                    ps == image.pixels@,
                    px == ps[i as int],
                    gk == k,
                    kk == gk * gk,
                    kk >= 1,
                    block_fits(px.position, gk),
                    0 <= dy < k,
                    0 <= dx <= k,
                    out@.len() == i * kk + dy * gk + dx,
                    forall|j: int| 0 <= j < out@.len() ==> #[trigger] out@[j] == blocks(ps, gk)[j],
                decreases k - dx,
            {
                let ghost t = dy * gk + dx;
                proof {
                    assert(t < kk) by (nonlinear_arith) requires t == dy * gk + dx, dy < gk, dx < gk, kk == gk * gk;
                    assert(t >= 0) by (nonlinear_arith) requires t == dy * gk + dx, dy >= 0, dx >= 0, gk >= 1;
                    lemma_block_index(n as int, gk, i as int, t);
                    vstd::arithmetic::div_mod::lemma_fundamental_div_mod_converse(t, gk, dy as int, dx as int);
                    lemma_block_pixel(px, gk, t);
                    assert(px.position.x * gk <= px.position.x * gk + dx);
                }
                let x = (px.position.x as i32 * k as i32 + dx as i32) as i16;
                let y = (px.position.y as i32 * k as i32 + dy as i32) as i16;
                out.push(Pixel::new(Position::xy(x, y), px.color));
                proof {
                    assert(out@[out@.len() - 1] == blocks(ps, gk)[i * kk + t]);
                }
                dx = dx + 1;
            }
            proof {
                assert((dy + 1) * gk == dy * gk + gk) by (nonlinear_arith);
            }
            dy = dy + 1;
        }
        proof {
            assert(gk * gk == kk);
            assert((i + 1) * kk == i * kk + kk) by (nonlinear_arith);
        }
        i = i + 1;
    }
    proof {
        assert(out@ =~= blocks(ps, gk));
        assert forall|j: int| 0 <= j < ps.len() implies block_fits((#[trigger] ps[j]).position, gk) by {}
        lemma_blocks_unique(ps, gk);
    }
    let mut children: Vec<Image> = Vec::new();
    let mut c: usize = 0;
    while c < image.children.len()
        invariant
            image.wf(),
            scale_fits(*image, k as int),
            k >= 1,
            0 <= c <= image.children@.len(),
            children@.len() == c,
            forall|j: int|
                0 <= j < c ==> (#[trigger] children@[j]).wf() && scaled(
                    image.children@[j],
                    children@[j],
                    k as int,
                ),
        decreases image.children@.len() - c,
    {
        assert(image.children@[c as int].wf());
        assert(scale_fits(image.children@[c as int], k as int));
        let done = scale_image(&image.children[c], k);
        children.push(done);
        c = c + 1;
    }
    Image { name: copy_name(&image.name), pixels: out, children }
}

} // verus!
