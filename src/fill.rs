//! The filter that fills the holes that opaque pixels enclose.
use vstd::prelude::*;
use crate::color::Color;
use crate::filter::Filter;
use crate::flood::{cell_index, in_cells, outer_cells, reaches_border};
use crate::image::{
    Image, copy_name, dense_position, fits_extent, lemma_pixel_map, pixel_map, positions_of,
    stored_color, unique_positions,
};
use crate::pixel::Pixel;
use crate::position::Position;
use crate::region::{Region, lemma_bounds, max_of, min_of, region_of};

verus! {

/// For each cell of the bounding box of `ps`, row by row: whether it is transparent.
pub open spec fn clear_cells(ps: Seq<Pixel>) -> Seq<bool> {
    let r = region_of(positions_of(ps));
    Seq::new(
        (r.size.width * r.size.height) as nat,
        |i: int| stored_color(ps, dense_position(r.start, r.size.width as int, i)).a == 0,
    )
}

/// `p` is a transparent position inside the bounding box of `ps` that no path of
/// transparent positions, sides touching, joins to the box's border.
pub open spec fn is_hole(ps: Seq<Pixel>, p: Position) -> bool {
    let r = region_of(positions_of(ps));
    let w = r.size.width as int;
    let h = r.size.height as int;
    &&& in_cells(w, h, p.x - r.start.x, p.y - r.start.y)
    &&& stored_color(ps, p).a == 0
    &&& !reaches_border(clear_cells(ps), w, h, p.x - r.start.x, p.y - r.start.y)
}

/// The layer `ps` with each hole given `color`.
pub open spec fn filled_map(ps: Seq<Pixel>, color: Color) -> Map<Position, Color> {
    Map::new(
        |p: Position| pixel_map(ps).contains_key(p) || is_hole(ps, p),
        |p: Position|
            if is_hole(ps, p) {
                color
            } else {
                pixel_map(ps)[p]
            },
    )
}

/// Filling gives each hole the color and leaves every other position as it was: an
/// opaque pixel is never a hole, and neither is a position outside the layer's
/// bounding box or one joined to its border through transparent positions.
pub proof fn lemma_fill_law(ps: Seq<Pixel>, color: Color, p: Position)
    ensures
        is_hole(ps, p) ==> filled_map(ps, color).contains_key(p) && filled_map(ps, color)[p] == color,
        !is_hole(ps, p) ==> filled_map(ps, color).contains_key(p) == pixel_map(ps).contains_key(p),
        !is_hole(ps, p) && pixel_map(ps).contains_key(p) ==> filled_map(ps, color)[p] == pixel_map(ps)[p],
        stored_color(ps, p).a != 0 ==> !is_hole(ps, p),
        !in_cells(
            region_of(positions_of(ps)).size.width as int,
            region_of(positions_of(ps)).size.height as int,
            p.x - region_of(positions_of(ps)).start.x,
            p.y - region_of(positions_of(ps)).start.y,
        ) ==> !is_hole(ps, p),
{
}

/// The bounding box of every layer has sides that a `Size` can hold.
pub open spec fn fill_fits(image: Image) -> bool
    decreases image,
{
    &&& fits_extent(positions_of(image.pixels@))
    &&& forall|i: int| 0 <= i < image.children@.len() ==> fill_fits(#[trigger] image.children@[i])
}

/// `after` is `before` with the holes of each layer, found within that layer alone,
/// given `color`.
pub open spec fn filled(before: Image, after: Image, color: Color) -> bool
    decreases before,
{
    &&& after.name == before.name
    &&& after.own_map() == filled_map(before.pixels@, color)
    &&& after.children@.len() == before.children@.len()
    &&& forall|i: int|
        0 <= i < before.children@.len() ==> filled(#[trigger] before.children@[i], after.children@[i], color)
}

/// Fills the transparent positions of each layer that opaque pixels of that layer
/// enclose: those that no chain of transparent positions, sides touching, joins to the
/// border of the layer's bounding box.
#[derive(Debug, Clone, Copy)]
pub struct Fill {
    pub color: Color,
}

impl Fill {
    pub fn new(color: Color) -> (r: Self)
        ensures
            r.color == color,
    {
        Fill { color }
    }
}

impl Filter for Fill {
    open spec fn accepts(&self, image: Image) -> bool {
        fill_fits(image)
    }

    open spec fn transforms(&self, before: Image, after: Image) -> bool {
        filled(before, after, self.color)
    }

    fn filter(&self, image: Image) -> (r: Image) {
        fill_image(&image, self.color)
    }
}

/// Some entry of `ps` puts a visible color at `p`.
pub open spec fn visible_at(ps: Seq<Pixel>, p: Position) -> bool {
    exists|j: int| 0 <= j < ps.len() && (#[trigger] ps[j]).position == p && ps[j].color.a != 0
}

proof fn lemma_visible_stored(ps: Seq<Pixel>, p: Position)
    requires
        unique_positions(ps),
    ensures
        visible_at(ps, p) <==> stored_color(ps, p).a != 0,
{
    lemma_pixel_map(ps);
    if visible_at(ps, p) {
        let j = choose|j: int| 0 <= j < ps.len() && (#[trigger] ps[j]).position == p && ps[j].color.a != 0;
        assert(pixel_map(ps).contains_key(ps[j].position));
    }
    if stored_color(ps, p).a != 0 {
        let j = choose|j: int| 0 <= j < ps.len() && ps[j].position == p;
        assert(pixel_map(ps).contains_key(ps[j].position));
        assert(ps[j].color.a != 0);
    }
}

/// The positions of the own layer, in order.
fn layer_positions(pixels: &Vec<Pixel>) -> (r: Vec<Position>)
    ensures
        r@ == positions_of(pixels@),
{
    let mut r: Vec<Position> = Vec::new();
    let mut i: usize = 0;
    while i < pixels.len()
        invariant
            0 <= i <= pixels@.len(),
            r@ == positions_of(pixels@.take(i as int)),
        decreases pixels@.len() - i,
    {
        r.push(pixels[i].position);
        i = i + 1;
        assert(r@ =~= positions_of(pixels@.take(i as int)));
    }
    assert(pixels@.take(i as int) =~= pixels@);
    r
}

/// The in-box offset of a position of the layer, and the facts the fill needs of it.
proof fn lemma_cell_of(ps: Seq<Pixel>, j: int)
    requires
        0 <= j < ps.len(),
        fits_extent(positions_of(ps)),
    ensures
        ({
            let r = region_of(positions_of(ps));
            let p = ps[j].position;
            &&& in_cells(r.size.width as int, r.size.height as int, p.x - r.start.x, p.y - r.start.y)
            &&& dense_position(r.start, r.size.width as int, cell_index(r.size.width as int, p.x - r.start.x, p.y - r.start.y)) == p
        }),
{
    let qs = positions_of(ps);
    lemma_bounds(qs);
    assert(qs[j] == ps[j].position);
    let r = region_of(qs);
    let p = ps[j].position;
    let w = r.size.width as int;
    let (x, y) = (p.x - r.start.x, p.y - r.start.y);
    assert(min_of(qs).x <= qs[j].x <= max_of(qs).x);
    crate::image::lemma_dense_index(w, x, y);
}

/// Whether each cell of the layer's bounding box is transparent.
fn clear_grid(pixels: &Vec<Pixel>, region: Region) -> (r: Vec<bool>)
    requires
        unique_positions(pixels@),
        fits_extent(positions_of(pixels@)),
        region == region_of(positions_of(pixels@)),
    ensures
        r@ == clear_cells(pixels@),
{
    let ghost ps = pixels@;
    let w = region.size.width as usize;
    let n = region.size.area() as usize;
    let mut clear: Vec<bool> = Vec::new();
    let mut i: usize = 0;
    while i < n
        invariant
            0 <= i <= n,
            clear@.len() == i,
            forall|k: int| 0 <= k < i ==> #[trigger] clear@[k],
        decreases n - i,
    {
        clear.push(true);
        i = i + 1;
    }
    let mut j: usize = 0;
    while j < pixels.len()
        invariant
            0 <= j <= ps.len(),
            ps == pixels@,
            unique_positions(ps),
            fits_extent(positions_of(ps)),
            region == region_of(positions_of(ps)),
            w == region.size.width,
            n == region.size.width * region.size.height,
            clear@.len() == n,
            forall|k: int|
                0 <= k < n ==> #[trigger] clear@[k] == !visible_at(
                    ps.take(j as int),
                    dense_position(region.start, w as int, k),
                ),
        decreases ps.len() - j,
    {
        let px = pixels[j];
        let ghost next = ps.take(j as int + 1);
        proof {
            assert(next.drop_last() =~= ps.take(j as int));
            lemma_cell_of(ps, j as int);
        }
        if !px.color.is_transparent() {
            let x = (px.position.x as i32 - region.start.x as i32) as usize;
            let y = (px.position.y as i32 - region.start.y as i32) as usize;
            proof {
                crate::flood::lemma_cell_index(w as int, region.size.height as int, x as int, y as int);
            }
            let idx = y * w + x;
            clear.set(idx, false);
            proof {
                assert forall|k: int| 0 <= k < n implies #[trigger] clear@[k] == !visible_at(
                    next,
                    dense_position(region.start, w as int, k),
                ) by {
                    let q = dense_position(region.start, w as int, k);
                    if k == idx {
                        assert(next[j as int] == px);
                    } else {
                        lemma_other_cell(region, k, idx as int, px.position);
                        assert(q != px.position);
                        lemma_visible_extend(ps.take(j as int), px, q);
                        assert(next =~= ps.take(j as int).push(px));
                    }
                }
            }
        } else {
            proof {
                assert forall|k: int| 0 <= k < n implies #[trigger] clear@[k] == !visible_at(
                    next,
                    dense_position(region.start, w as int, k),
                ) by {
                    let q = dense_position(region.start, w as int, k);
                    lemma_visible_extend(ps.take(j as int), px, q);
                    assert(next =~= ps.take(j as int).push(px));
                }
            }
        }
        j = j + 1;
    }
    proof {
        assert(ps.take(j as int) =~= ps);
        assert forall|k: int| 0 <= k < n implies #[trigger] clear@[k] == clear_cells(ps)[k] by {
            lemma_visible_stored(ps, dense_position(region.start, w as int, k));
        }
    }
    assert(clear@ =~= clear_cells(ps));
    clear
}

proof fn lemma_visible_extend(ps: Seq<Pixel>, px: Pixel, q: Position)
    ensures
        visible_at(ps.push(px), q) <==> visible_at(ps, q) || (px.position == q && px.color.a != 0),
{
    let qs = ps.push(px);
    if visible_at(qs, q) {
        let j = choose|j: int| 0 <= j < qs.len() && (#[trigger] qs[j]).position == q && qs[j].color.a != 0;
        if j < ps.len() {
            assert(qs[j] == ps[j]);
        }
    }
    if visible_at(ps, q) {
        let j = choose|j: int| 0 <= j < ps.len() && (#[trigger] ps[j]).position == q && ps[j].color.a != 0;
        assert(qs[j] == ps[j]);
    }
    if px.position == q && px.color.a != 0 {
        assert(qs[ps.len() as int] == px);
    }
}

/// A cell other than the one at `p` stands for another position.
proof fn lemma_other_cell(region: Region, k: int, idx: int, p: Position)
    requires
        0 <= k < region.size.width * region.size.height,
        in_cells(region.size.width as int, region.size.height as int, p.x - region.start.x, p.y - region.start.y),
        idx == cell_index(region.size.width as int, p.x - region.start.x, p.y - region.start.y),
        k != idx,
        region.start.x + region.size.width - 1 <= i16::MAX,
        region.start.y + region.size.height - 1 <= i16::MAX,
    ensures
        dense_position(region.start, region.size.width as int, k) != p,
{
    let w = region.size.width as int;
    let h = region.size.height as int;
    vstd::arithmetic::div_mod::lemma_fundamental_div_mod(k, w);
    vstd::arithmetic::div_mod::lemma_mod_bound(k, w);
    vstd::arithmetic::div_mod::lemma_div_pos_is_pos(k, w);
    if k / w >= h {
        assert(w * (k / w) >= w * h) by (nonlinear_arith) requires k / w >= h, w > 0;
    }
    if dense_position(region.start, w, k) == p {
        assert(k % w == p.x - region.start.x);
        assert(k / w == p.y - region.start.y);
        assert(w * (k / w) == (k / w) * w) by (nonlinear_arith);
    }
}

/// The cell index of `p` in the bounding box of `ps`.
pub open spec fn cell_of(ps: Seq<Pixel>, p: Position) -> int {
    let r = region_of(positions_of(ps));
    cell_index(r.size.width as int, p.x - r.start.x, p.y - r.start.y)
}

/// The layer with the holes in its first `i` cells filled.
pub open spec fn filled_before(ps: Seq<Pixel>, color: Color, i: int) -> Map<Position, Color> {
    Map::new(
        |p: Position| pixel_map(ps).contains_key(p) || (is_hole(ps, p) && cell_of(ps, p) < i),
        |p: Position|
            if is_hole(ps, p) && cell_of(ps, p) < i {
                color
            } else {
                pixel_map(ps)[p]
            },
    )
}

/// The cell of a position in the box is the one whose dense position it is.
proof fn lemma_cell_of_dense(ps: Seq<Pixel>, i: int)
    requires
        fits_extent(positions_of(ps)),
        ps.len() > 0,
        0 <= i < region_of(positions_of(ps)).size.width * region_of(positions_of(ps)).size.height,
    ensures
        ({
            let r = region_of(positions_of(ps));
            let w = r.size.width as int;
            let q = dense_position(r.start, w, i);
            &&& q.x - r.start.x == i % w
            &&& q.y - r.start.y == i / w
            &&& in_cells(w, r.size.height as int, i % w, i / w)
            &&& cell_of(ps, q) == i
            &&& cell_index(w, i % w, i / w) == i
        }),
{
    let qs = positions_of(ps);
    let r = region_of(qs);
    let w = r.size.width as int;
    let h = r.size.height as int;
    lemma_bounds(qs);
    assert(qs[0] == ps[0].position);
    vstd::arithmetic::div_mod::lemma_fundamental_div_mod(i, w);
    vstd::arithmetic::div_mod::lemma_mod_bound(i, w);
    vstd::arithmetic::div_mod::lemma_div_pos_is_pos(i, w);
    if i / w >= h {
        assert(w * (i / w) >= w * h) by (nonlinear_arith) requires i / w >= h, w > 0;
    }
    assert(w * (i / w) == (i / w) * w) by (nonlinear_arith);
}

/// The layer `pixels` with its holes filled with `color`.
fn fill_layer(pixels: &Vec<Pixel>, color: Color) -> (r: Vec<Pixel>)
    requires
        unique_positions(pixels@),
        fits_extent(positions_of(pixels@)),
    ensures
        unique_positions(r@),
        pixel_map(r@) == filled_map(pixels@, color),
{
    let ghost ps = pixels@;
    let positions = layer_positions(pixels);
    let region = Region::from_positions(positions.as_slice());
    let clear = clear_grid(pixels, region);
    let w = region.size.width as usize;
    let h = region.size.height as usize;
    let outer = outer_cells(&clear, w, h);
    let mut copy: Vec<Pixel> = Vec::new();
    let mut j: usize = 0;
    while j < pixels.len()
        invariant
            0 <= j <= pixels@.len(),
            copy@ == pixels@.take(j as int),
        decreases pixels@.len() - j,
    {
        copy.push(pixels[j]);
        j = j + 1;
        assert(copy@ =~= pixels@.take(j as int));
    }
    assert(pixels@.take(j as int) =~= pixels@);
    let mut layer = Image { name: None, pixels: copy, children: Vec::new() };
    assert(filled_before(ps, color, 0) =~= pixel_map(ps)) by {
        assert forall|p: Position| is_hole(ps, p) implies cell_of(ps, p) >= 0 by {
            let r = region_of(positions_of(ps));
            crate::flood::lemma_cell_index(r.size.width as int, r.size.height as int, p.x - r.start.x, p.y - r.start.y);
        }
    }
    let n = clear.len();
    let mut i: usize = 0;
    while i < n
        invariant
            0 <= i <= n,
            ps == pixels@,
            unique_positions(ps),
            fits_extent(positions_of(ps)),
            region == region_of(positions_of(ps)),
            w == region.size.width,
            h == region.size.height,
            n == w * h,
            clear@ == clear_cells(ps),
            outer@.len() == n,
            forall|x: int, y: int|
                in_cells(w as int, h as int, x, y) ==> outer@[cell_index(w as int, x, y)]
                    == #[trigger] reaches_border(clear@, w as int, h as int, x, y),
            layer.wf(),
            layer.children@.len() == 0,
            layer.own_map() == filled_before(ps, color, i as int),
        decreases n - i,
    {
        let ghost q = dense_position(region.start, w as int, i as int);
        proof {
            lemma_cell_of_dense(ps, i as int);
            assert(reaches_border(clear@, w as int, h as int, (i as int) % (w as int), (i as int) / (w as int)) == outer@[i as int]);
        }
        if clear[i] && !outer[i] {
            let x = (region.start.x as i32 + (i % w) as i32) as i16;
            let y = (region.start.y as i32 + (i / w) as i32) as i16;
            let p = Position::xy(x, y);
            assert(p == q);
            assert(is_hole(ps, q));
            layer.put(Pixel::new(p, color));
        } else {
            assert(!is_hole(ps, q));
        }
        proof {
            assert forall|p: Position| is_hole(ps, p) && cell_of(ps, p) == i implies p == q by {
                let r = region_of(positions_of(ps));
                let (px, py) = (p.x - r.start.x, p.y - r.start.y);
                crate::flood::lemma_cell_index_injective(w as int, h as int, px, py, (i as int) % (w as int), (i as int) / (w as int));
            }
        }
        assert(layer.own_map() =~= filled_before(ps, color, i + 1));
        i = i + 1;
    }
    proof {
        assert forall|p: Position| is_hole(ps, p) implies cell_of(ps, p) < n by {
            let r = region_of(positions_of(ps));
            crate::flood::lemma_cell_index(w as int, h as int, p.x - r.start.x, p.y - r.start.y);
        }
        assert(layer.own_map() =~= filled_map(ps, color));
    }
    layer.pixels
}

fn fill_image(image: &Image, color: Color) -> (r: Image)
    requires
        image.wf(),
        fill_fits(*image),
    ensures
        r.wf(),
        filled(*image, r, color),
    decreases image,
{
    let layer = fill_layer(&image.pixels, color);
    let mut children: Vec<Image> = Vec::new();
    let mut c: usize = 0;
    while c < image.children.len()
        invariant
            image.wf(),
            fill_fits(*image),
            0 <= c <= image.children@.len(),
            children@.len() == c,
            forall|j: int|
                0 <= j < c ==> (#[trigger] children@[j]).wf() && filled(
                    image.children@[j],
                    children@[j],
                    color,
                ),
        decreases image.children@.len() - c,
    {
        assert(image.children@[c as int].wf());
        assert(fill_fits(image.children@[c as int]));
        let done = fill_image(&image.children[c], color);
        children.push(done);
        c = c + 1;
    }
    Image { name: copy_name(&image.name), pixels: layer, children }
}

} // verus!
