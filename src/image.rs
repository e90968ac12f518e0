//! Sparse images: a named tree of pixel maps, children painted over their parent.
use vstd::prelude::*;
use crate::color::{Color, spec_alpha_blend, spec_transparent};
use crate::pixel::Pixel;
use crate::position::Position;
use crate::region::{Region, min_of, max_of, region_of, size_of, lemma_bounds};
use crate::size::{Size, grid, lemma_grid_element};
use crate::filter::Filter;

verus! {

/// The map from position to color that `ps` holds; a later entry wins.
pub open spec fn pixel_map(ps: Seq<Pixel>) -> Map<Position, Color>
    decreases ps.len(),
{
    if ps.len() == 0 {
        Map::empty()
    } else {
        pixel_map(ps.drop_last()).insert(ps.last().position, ps.last().color)
    }
}

/// No two entries of `ps` share a position.
pub open spec fn unique_positions(ps: Seq<Pixel>) -> bool {
    forall|i: int, j: int|
        0 <= i < ps.len() && 0 <= j < ps.len() && i != j ==> #[trigger] ps[i].position
            != #[trigger] ps[j].position
}

/// The color stored at `p` in `ps`, transparent where there is none.
pub open spec fn stored_color(ps: Seq<Pixel>, p: Position) -> Color {
    if pixel_map(ps).contains_key(p) {
        pixel_map(ps)[p]
    } else {
        spec_transparent()
    }
}

/// The positions of `ps`, in order.
pub open spec fn positions_of(ps: Seq<Pixel>) -> Seq<Position> {
    ps.map_values(|px: Pixel| px.position)
}

/// What `pixel_map` holds, entry by entry, when positions are unique.
pub proof fn lemma_pixel_map(ps: Seq<Pixel>)
    requires
        unique_positions(ps),
    ensures
        forall|i: int| 0 <= i < ps.len() ==> #[trigger] pixel_map(ps).contains_key(ps[i].position)
            && pixel_map(ps)[ps[i].position] == ps[i].color,
        forall|p: Position|
            #[trigger] pixel_map(ps).contains_key(p) ==> exists|i: int|
                0 <= i < ps.len() && ps[i].position == p,
    decreases ps.len(),
{
    if ps.len() > 0 {
        let qs = ps.drop_last();
        assert(unique_positions(qs)) by {
            assert forall|i: int, j: int|
                0 <= i < qs.len() && 0 <= j < qs.len() && i != j implies #[trigger] qs[i].position
                != #[trigger] qs[j].position by {
                assert(qs[i] == ps[i] && qs[j] == ps[j]);
                assert(ps[i].position != ps[j].position);
            }
        }
        lemma_pixel_map(qs);
        let n = ps.len() - 1;
        assert forall|i: int| 0 <= i < ps.len() implies #[trigger] pixel_map(ps).contains_key(
            ps[i].position,
        ) && pixel_map(ps)[ps[i].position] == ps[i].color by {
            if i < n {
                assert(qs[i] == ps[i]);
                assert(pixel_map(qs).contains_key(qs[i].position));
                assert(ps[i].position != ps[n].position);
            }
        }
        assert forall|p: Position| #[trigger] pixel_map(ps).contains_key(p) implies exists|i: int|
            0 <= i < ps.len() && ps[i].position == p by {
            if p != ps[n].position {
                assert(pixel_map(qs).contains_key(p));
                let i = choose|i: int| 0 <= i < qs.len() && qs[i].position == p;
                assert(ps[i] == qs[i]);
            }
        }
    }
}

/// `m` with `px` blended over whatever color it held at the pixel's position.
pub open spec fn blend_into(m: Map<Position, Color>, px: Pixel) -> Map<Position, Color> {
    m.insert(
        px.position,
        if m.contains_key(px.position) {
            spec_alpha_blend(px.color, m[px.position])
        } else {
            px.color
        },
    )
}

/// `m` with each of `ps` blended in, in order.
pub open spec fn blend_all(m: Map<Position, Color>, ps: Seq<Pixel>) -> Map<Position, Color>
    decreases ps.len(),
{
    if ps.len() == 0 {
        m
    } else {
        blend_into(blend_all(m, ps.drop_last()), ps.last())
    }
}

/// Replacing the entry at `i` by one at the same position updates the map there alone.
pub proof fn lemma_pixel_map_update(ps: Seq<Pixel>, i: int, px: Pixel)
    requires
        unique_positions(ps),
        0 <= i < ps.len(),
        ps[i].position == px.position,
    ensures
        unique_positions(ps.update(i, px)),
        pixel_map(ps.update(i, px)) == pixel_map(ps).insert(px.position, px.color),
{
    let qs = ps.update(i, px);
    assert(unique_positions(qs)) by {
        assert forall|a: int, b: int|
            0 <= a < qs.len() && 0 <= b < qs.len() && a != b implies #[trigger] qs[a].position
            != #[trigger] qs[b].position by {
            assert(ps[a].position != ps[b].position);
        }
    }
    lemma_pixel_map(ps);
    lemma_pixel_map(qs);
    assert forall|p: Position| #[trigger] pixel_map(qs).contains_key(p) implies pixel_map(ps).insert(
        px.position,
        px.color,
    ).contains_key(p) by {
        let j = choose|j: int| 0 <= j < qs.len() && qs[j].position == p;
        if j != i {
            assert(pixel_map(ps).contains_key(ps[j].position));
        }
    }
    assert forall|p: Position| #[trigger] pixel_map(ps).insert(px.position, px.color).contains_key(p)
        implies pixel_map(qs).contains_key(p) && pixel_map(qs)[p] == pixel_map(ps).insert(
        px.position,
        px.color,
    )[p] by {
        if p == px.position {
            assert(pixel_map(qs).contains_key(qs[i].position));
        } else {
            assert(pixel_map(ps).contains_key(p));
            let j = choose|j: int| 0 <= j < ps.len() && ps[j].position == p;
            assert(qs[j] == ps[j]);
            assert(pixel_map(qs).contains_key(qs[j].position));
        }
    }
    assert(pixel_map(qs) =~= pixel_map(ps).insert(px.position, px.color));
}

/// The index of the entry of `ps` at `p`, if there is one.
pub fn find_pixel(ps: &Vec<Pixel>, p: Position) -> (r: Option<usize>)
    ensures
        match r {
            Some(i) => i < ps@.len() && ps@[i as int].position == p,
            None => forall|i: int| 0 <= i < ps@.len() ==> ps@[i].position != p,
        },
{
    let mut i: usize = 0;
    while i < ps.len()
        invariant
            0 <= i <= ps@.len(),
            forall|j: int| 0 <= j < i ==> ps@[j].position != p,
        decreases ps@.len() - i,
    {
        if ps[i].position == p {
            return Some(i);
        }
        i = i + 1;
    }
    None
}

/// `base` with each entry of `ps` at `p` blended over it in turn.
pub open spec fn composite(ps: Seq<Pixel>, p: Position, base: Color) -> Color
    decreases ps.len(),
{
    if ps.len() == 0 {
        base
    } else {
        let below = composite(ps.drop_last(), p, base);
        if ps.last().position == p {
            spec_alpha_blend(ps.last().color, below)
        } else {
            below
        }
    }
}

/// The bounding box of `ps` has sides that a `Size` can hold.
pub open spec fn fits_extent(ps: Seq<Position>) -> bool {
    ps.len() > 0 ==> max_of(ps).x - min_of(ps).x < u16::MAX && max_of(ps).y - min_of(ps).y
        < u16::MAX
}

/// The position of index `i` of a dense row-major buffer `w` wide whose first entry
/// stands for `start`.
pub open spec fn dense_position(start: Position, w: int, i: int) -> Position {
    Position { x: (start.x + i % w) as i16, y: (start.y + i / w) as i16 }
}

/// Row-major indices name one cell each.
pub proof fn lemma_dense_index(w: int, x: int, y: int)
    requires
        0 <= x < w,
        0 <= y,
    ensures
        (y * w + x) % w == x,
        (y * w + x) / w == y,
        y * w + x >= 0,
{
    vstd::arithmetic::div_mod::lemma_fundamental_div_mod_converse(y * w + x, w, y, x);
    assert(y * w >= 0) by (nonlinear_arith) requires y >= 0, w > 0;
}

/// A child is smaller than its parent.
pub proof fn lemma_child_decreases(image: Image, k: int)
    requires
        0 <= k < image.children@.len(),
    ensures
        decreases_to!(image => image.children@[k]),
{
    assert(decreases_to!(image.children => image.children@));
    assert(decreases_to!(image.children@ => image.children@[k]));
    assert(decreases_to!(image => image.children));
}

/// A copy of an image's name.
pub fn copy_name(name: &Option<String>) -> (r: Option<String>)
    ensures
        r == *name,
{
    match name {
        Some(s) => Some(s.clone()),
        None => None,
    }
}

/// `px` moved by `offset`.
pub open spec fn shifted_pixel(px: Pixel, offset: Position) -> Pixel {
    Pixel { position: px.position.spec_add(offset), color: px.color }
}

/// Every position of every layer can be moved by `offset` within 16 bits.
pub open spec fn can_shift(image: Image, offset: Position) -> bool
    decreases image,
{
    &&& forall|i: int| 0 <= i < image.pixels@.len() ==> (#[trigger] image.pixels@[i]).position.can_add(offset)
    &&& forall|i: int| 0 <= i < image.children@.len() ==> can_shift(#[trigger] image.children@[i], offset)
}

/// `after` is `before` with every pixel of every layer moved by `offset`.
pub open spec fn shifted(before: Image, after: Image, offset: Position) -> bool
    decreases before,
{
    &&& after.name == before.name
    &&& after.pixels@ == before.pixels@.map_values(|px: Pixel| shifted_pixel(px, offset))
    &&& after.children@.len() == before.children@.len()
    &&& forall|i: int|
        0 <= i < before.children@.len() ==> shifted(#[trigger] before.children@[i], after.children@[i], offset)
}

fn shift_image(image: &Image, offset: Position) -> (r: Image)
    requires
        image.wf(),
        can_shift(*image, offset),
    ensures
        r.wf(),
        shifted(*image, r, offset),
    decreases image,
{
    let mut pixels: Vec<Pixel> = Vec::new();
    let mut i: usize = 0;
    while i < image.pixels.len()
        invariant
            0 <= i <= image.pixels@.len(),
            can_shift(*image, offset),
            pixels@ == image.pixels@.take(i as int).map_values(|px: Pixel| shifted_pixel(px, offset)),
        decreases image.pixels@.len() - i,
    {
        let px = image.pixels[i];
        assert(px.position.can_add(offset));
        pixels.push(Pixel::new(px.position + offset, px.color));
        i = i + 1;
        assert(pixels@ =~= image.pixels@.take(i as int).map_values(|px: Pixel| shifted_pixel(px, offset)));
    }
    assert(image.pixels@.take(i as int) =~= image.pixels@);
    let mut children: Vec<Image> = Vec::new();
    let mut k: usize = 0;
    while k < image.children.len()
        invariant
            image.wf(),
            can_shift(*image, offset),
            0 <= k <= image.children@.len(),
            children@.len() == k,
            forall|j: int|
                0 <= j < k ==> (#[trigger] children@[j]).wf() && shifted(image.children@[j], children@[j], offset),
        decreases image.children@.len() - k,
    {
        assert(image.children@[k as int].wf());
        assert(can_shift(image.children@[k as int], offset));
        let done = shift_image(&image.children[k], offset);
        children.push(done);
        k = k + 1;
    }
    let r = Image { name: copy_name(&image.name), pixels, children };
    assert(unique_positions(r.pixels@)) by {
        assert forall|a: int, b: int|
            0 <= a < r.pixels@.len() && 0 <= b < r.pixels@.len() && a != b implies #[trigger] r.pixels@[a].position
            != #[trigger] r.pixels@[b].position by {
            assert(image.pixels@[a].position != image.pixels@[b].position);
        }
    }
    r
}

/// A grid of colors whose length is not its width times its height.
#[derive(Debug, Clone, Copy, PartialEq, Eq, Structural)]
pub struct InvalidDimensions {
    pub size: Size,
    pub len: usize,
}

/// A named tree of sparse pixel layers. Each layer holds at most one color per
/// position; children are painted over their parent, in order.
#[derive(Debug, Default, PartialEq, Eq, Hash)]
pub struct Image {
    pub name: Option<String>,
    pub pixels: Vec<Pixel>,
    pub children: Vec<Image>,
}

/// The pixels of the first `k` images of `cs`, each depth first.
pub open spec fn flat_all(cs: Seq<Image>, k: int) -> Seq<Pixel>
    decreases cs, 0int, k,
{
    if k <= 0 || k > cs.len() {
        Seq::empty()
    } else {
        flat_all(cs, k - 1) + cs[k - 1].flat()
    }
}

/// `base` with the colors at `p` of the first `k` images of `cs` blended over it in turn.
pub open spec fn color_over(base: Color, cs: Seq<Image>, p: Position, k: int) -> Color
    decreases cs, 0int, k,
{
    if k <= 0 || k > cs.len() {
        base
    } else {
        spec_alpha_blend(cs[k - 1].color_at(p), color_over(base, cs, p, k - 1))
    }
}

impl Image {
    /// Every layer of the tree holds at most one entry per position.
    pub open spec fn wf(self) -> bool
        decreases self,
    {
        &&& unique_positions(self.pixels@)
        &&& forall|i: int| 0 <= i < self.children@.len() ==> (#[trigger] self.children@[i]).wf()
    }

    /// The map of the image's own layer, without its children.
    pub open spec fn own_map(self) -> Map<Position, Color> {
        pixel_map(self.pixels@)
    }

    /// Every pixel of the tree: the own layer first, then each child's, depth first.
    pub open spec fn flat(self) -> Seq<Pixel>
        decreases self, 1int, 0int,
    {
        self.pixels@ + flat_all(self.children@, self.children@.len() as int)
    }

    /// The color seen at `p`: the own layer's color with each child's color blended
    /// over it in turn.
    pub open spec fn color_at(self, p: Position) -> Color
        decreases self, 1int, 0int,
    {
        color_over(stored_color(self.pixels@, p), self.children@, p, self.children@.len() as int)
    }

    /// `self` and `other` differ at most in their own layer.
    pub open spec fn same_tree(self, other: Image) -> bool {
        self.name == other.name && self.children == other.children
    }

    /// The dense row-major grid over the bounding box of the tree: at each cell, every
    /// pixel of the tree there blended, in the order of `flat`, onto transparent.
    pub open spec fn dense_colors(self) -> Seq<Color> {
        let r = region_of(positions_of(self.flat()));
        Seq::new(
            (r.size.width * r.size.height) as nat,
            |i: int| composite(self.flat(), dense_position(r.start, r.size.width as int, i), spec_transparent()),
        )
    }

    /// An empty image without a name.
    pub fn new() -> (r: Self)
        ensures
            r.name.is_none(),
            r.pixels@.len() == 0,
            r.children@.len() == 0,
            r.wf(),
    {
        Image { name: None, pixels: Vec::new(), children: Vec::new() }
    }

    /// Blends `pixel` over the color the own layer holds at its position, or stores it
    /// where there is none.
    pub fn insert(&mut self, pixel: Pixel)
        requires
            old(self).wf(),
        ensures
            final(self).wf(),
            final(self).same_tree(*old(self)),
            final(self).own_map() == blend_into(old(self).own_map(), pixel),
    {
        proof {
            lemma_pixel_map(self.pixels@);
        }
        match find_pixel(&self.pixels, pixel.position) {
            Some(i) => {
                let below = self.pixels[i].color;
                let px = Pixel::new(pixel.position, pixel.color.alpha_blend(below));
                proof {
                    lemma_pixel_map_update(self.pixels@, i as int, px);
                }
                self.pixels.set(i, px);
            },
            None => {
                proof {
                    assert(!pixel_map(self.pixels@).contains_key(pixel.position));
                }
                self.pixels.push(pixel);
                assert(self.pixels@.drop_last() =~= old(self).pixels@);
            },
        }
    }

    /// Stores `pixel` in the own layer, replacing any color at its position.
    pub fn put(&mut self, pixel: Pixel)
        requires
            old(self).wf(),
        ensures
            final(self).wf(),
            final(self).same_tree(*old(self)),
            final(self).own_map() == old(self).own_map().insert(pixel.position, pixel.color),
    {
        proof {
            lemma_pixel_map(self.pixels@);
        }
        match find_pixel(&self.pixels, pixel.position) {
            Some(i) => {
                proof {
                    lemma_pixel_map_update(self.pixels@, i as int, pixel);
                }
                self.pixels.set(i, pixel);
            },
            None => {
                self.pixels.push(pixel);
                assert(self.pixels@.drop_last() =~= old(self).pixels@);
            },
        }
    }

    /// Blends each of `pixels` into the own layer, in order.
    pub fn extend(&mut self, pixels: &[Pixel])
        requires
            old(self).wf(),
        ensures
            final(self).wf(),
            final(self).same_tree(*old(self)),
            final(self).own_map() == blend_all(old(self).own_map(), pixels@),
    {
        let mut i: usize = 0;
        while i < pixels.len()
            invariant
                0 <= i <= pixels@.len(),
                self.wf(),
                self.same_tree(*old(self)),
                self.own_map() == blend_all(old(self).own_map(), pixels@.take(i as int)),
            decreases pixels@.len() - i,
        {
            self.insert(pixels[i]);
            assert(pixels@.take(i as int + 1).drop_last() =~= pixels@.take(i as int));
            i = i + 1;
        }
        assert(pixels@.take(i as int) =~= pixels@);
    }

    /// An unnamed image without children whose layer holds `pixels` blended in order.
    pub fn from_pixels(pixels: &[Pixel]) -> (r: Self)
        ensures
            r.wf(),
            r.name.is_none(),
            r.children@.len() == 0,
            r.own_map() == blend_all(Map::empty(), pixels@),
    {
        let mut image = Self::new();
        image.extend(pixels);
        image
    }

    /// The image under the given name.
    pub fn name(self, name: &str) -> (r: Self)
        ensures
            r.name.is_some() && r.name.unwrap()@ == name@,
            r.pixels == self.pixels,
            r.children == self.children,
    {
        Image { name: Some(name.to_owned()), ..self }
    }

    /// The image with `child` added after its other children.
    pub fn child(self, child: Image) -> (r: Self)
        ensures
            r.name == self.name,
            r.pixels == self.pixels,
            r.children@ == self.children@.push(child),
            self.wf() && child.wf() ==> r.wf(),
    {
        let mut image = self;
        image.children.push(child);
        image
    }

    /// The image with `children` added after its other children.
    pub fn children(self, children: Vec<Image>) -> (r: Self)
        ensures
            r.name == self.name,
            r.pixels == self.pixels,
            r.children@ == self.children@ + children@,
            self.wf() && (forall|i: int| 0 <= i < children@.len() ==> (#[trigger] children@[i]).wf())
                ==> r.wf(),
    {
        let mut image = self;
        let mut more = children;
        image.children.append(&mut more);
        proof {
            if self.wf() && (forall|i: int| 0 <= i < children@.len() ==> (#[trigger] children@[i]).wf()) {
                assert forall|i: int| 0 <= i < image.children@.len() implies (
                #[trigger] image.children@[i]).wf() by {
                    if i >= self.children@.len() {
                        assert(image.children@[i] == children@[i - self.children@.len()]);
                    }
                }
            }
        }
        image
    }

    /// The color seen at `position`: the own layer's color, or transparent, with each
    /// child's color blended over it in order.
    pub fn get_color(&self, position: Position) -> (r: Color)
        requires
            self.wf(),
        ensures
            r == self.color_at(position),
        decreases self,
    {
        proof {
            lemma_pixel_map(self.pixels@);
        }
        let mut color = match find_pixel(&self.pixels, position) {
            Some(i) => self.pixels[i].color,
            None => Color::transparent(),
        };
        let mut i: usize = 0;
        while i < self.children.len()
            invariant
                self.wf(),
                0 <= i <= self.children@.len(),
                color == color_over(stored_color(self.pixels@, position), self.children@, position, i as int),
            decreases self.children@.len() - i,
        {
            assert(self.children@[i as int].wf());
            let above = self.children[i].get_color(position);
            color = above.alpha_blend(color);
            i = i + 1;
        }
        color
    }

    /// Every pixel of the tree: the own layer, then each child's pixels, depth first.
    pub fn iter(&self) -> (r: Vec<Pixel>)
        ensures
            r@ == self.flat(),
        decreases self,
    {
        let mut r: Vec<Pixel> = Vec::new();
        let mut j: usize = 0;
        while j < self.pixels.len()
            invariant
                0 <= j <= self.pixels@.len(),
                r@ == self.pixels@.take(j as int),
            decreases self.pixels@.len() - j,
        {
            r.push(self.pixels[j]);
            j = j + 1;
            assert(r@ =~= self.pixels@.take(j as int));
        }
        assert(self.pixels@.take(j as int) =~= self.pixels@);
        let mut i: usize = 0;
        while i < self.children.len()
            invariant
                0 <= i <= self.children@.len(),
                r@ == self.pixels@ + flat_all(self.children@, i as int),
            decreases self.children@.len() - i,
        {
            let mut more = self.children[i].iter();
            r.append(&mut more);
            i = i + 1;
            assert(r@ =~= self.pixels@ + flat_all(self.children@, i as int));
        }
        r
    }

    /// The positions of every pixel of the tree, in the order of `iter`.
    pub fn positions(&self) -> (r: Vec<Position>)
        ensures
            r@ == positions_of(self.flat()),
    {
        let pixels = self.iter();
        let mut r: Vec<Position> = Vec::new();
        let mut i: usize = 0;
        while i < pixels.len()
            invariant
                0 <= i <= pixels@.len(),
                pixels@ == self.flat(),
                r@ == positions_of(pixels@.take(i as int)),
            decreases pixels@.len() - i,
        {
            r.push(pixels[i].position);
            i = i + 1;
            assert(r@ =~= positions_of(pixels@.take(i as int)));
        }
        assert(pixels@.take(i as int) =~= pixels@);
        r
    }

    /// The bounding box of every position in the tree; the empty region at the origin
    /// when the tree holds no pixel.
    pub fn get_region(&self) -> (r: Region)
        ensures
            r == region_of(positions_of(self.flat())),
    {
        let ps = self.positions();
        Region::from_positions(ps.as_slice())
    }

    /// The extent of the bounding box of every position in the tree.
    pub fn get_size(&self) -> (r: Size)
        ensures
            r == size_of(positions_of(self.flat())),
    {
        let ps = self.positions();
        Size::from_positions(ps.as_slice())
    }

    /// The smallest row of any pixel in the tree, or `0` when it holds none.
    pub fn get_top(&self) -> (r: i16)
        ensures
            r == if self.flat().len() == 0 { 0 } else { min_of(positions_of(self.flat())).y },
    {
        let ps = self.positions();
        let (lo, _) = crate::region::bounds(ps.as_slice());
        if ps.len() == 0 { 0 } else { lo.y }
    }

    /// The largest row of any pixel in the tree, or `0` when it holds none.
    pub fn get_bottom(&self) -> (r: i16)
        ensures
            r == if self.flat().len() == 0 { 0 } else { max_of(positions_of(self.flat())).y },
    {
        let ps = self.positions();
        let (_, hi) = crate::region::bounds(ps.as_slice());
        if ps.len() == 0 { 0 } else { hi.y }
    }

    /// The smallest column of any pixel in the tree, or `0` when it holds none.
    pub fn get_left(&self) -> (r: i16)
        ensures
            r == if self.flat().len() == 0 { 0 } else { min_of(positions_of(self.flat())).x },
    {
        let ps = self.positions();
        let (lo, _) = crate::region::bounds(ps.as_slice());
        if ps.len() == 0 { 0 } else { lo.x }
    }

    /// The largest column of any pixel in the tree, or `0` when it holds none.
    pub fn get_right(&self) -> (r: i16)
        ensures
            r == if self.flat().len() == 0 { 0 } else { max_of(positions_of(self.flat())).x },
    {
        let ps = self.positions();
        let (_, hi) = crate::region::bounds(ps.as_slice());
        if ps.len() == 0 { 0 } else { hi.x }
    }

    /// Flattens the tree to a dense row-major grid over its bounding box: every pixel is
    /// blended, in the order of `iter`, onto a transparent buffer at its offset from the
    /// box's start. Children thus land over their parent.
    pub fn to_size_and_colors(&self) -> (r: (Size, Vec<Color>))
        requires
            fits_extent(positions_of(self.flat())),
        ensures
            r.0 == size_of(positions_of(self.flat())),
            r.1@ == self.dense_colors(),
            r.1@.len() == r.0.width * r.0.height,
            forall|i: int|
                0 <= i < r.1@.len() ==> #[trigger] r.1@[i] == composite(
                    self.flat(),
                    dense_position(region_of(positions_of(self.flat())).start, r.0.width as int, i),
                    spec_transparent(),
                ),
    {
        let pixels = self.iter();
        let ps = self.positions();
        let region = Region::from_positions(ps.as_slice());
        let size = region.size;
        let start = region.start;
        let ghost gps = positions_of(self.flat());
        proof {
            lemma_bounds(gps);
        }
        let w = size.width as usize;
        let n = size.area() as usize;
        let mut colors: Vec<Color> = Vec::new();
        let mut k: usize = 0;
        while k < n
            invariant
                0 <= k <= n,
                colors@.len() == k,
                forall|i: int| 0 <= i < k ==> #[trigger] colors@[i] == spec_transparent(),
            decreases n - k,
        {
            colors.push(Color::transparent());
            k = k + 1;
        }
        let mut k: usize = 0;
        while k < pixels.len()
            invariant
                0 <= k <= pixels@.len(),
                pixels@ == self.flat(),
                ps@ == gps,
                gps == positions_of(pixels@),
                region == region_of(gps),
                size == region.size,
                start == region.start,
                fits_extent(gps),
                w == size.width,
                n == size.width * size.height,
                colors@.len() == n,
                forall|i: int| 0 <= i < gps.len() ==> min_of(gps).x <= #[trigger] gps[i].x <= max_of(gps).x
                    && min_of(gps).y <= gps[i].y <= max_of(gps).y,
                forall|i: int|
                    0 <= i < n ==> #[trigger] colors@[i] == composite(
                        pixels@.take(k as int),
                        dense_position(start, w as int, i),
                        spec_transparent(),
                    ),
            decreases pixels@.len() - k,
        {
            let px = pixels[k];
            assert(gps[k as int] == px.position);
            let ix = (px.position.x as i32 - start.x as i32) as usize;
            let iy = (px.position.y as i32 - start.y as i32) as usize;
            proof {
                lemma_dense_index(w as int, ix as int, iy as int);
                assert(iy * w + ix < n) by (nonlinear_arith)
                    requires ix < w, iy < size.height, n == w * size.height;
            }
            let idx = iy * w + ix;
            let below = colors[idx];
            colors.set(idx, px.color.alpha_blend(below));
            proof {
                let next = pixels@.take(k as int + 1);
                assert(next.drop_last() =~= pixels@.take(k as int));
                assert(dense_position(start, w as int, idx as int) == px.position);
                assert forall|i: int| 0 <= i < n implies #[trigger] colors@[i] == composite(
                    next,
                    dense_position(start, w as int, i),
                    spec_transparent(),
                ) by {
                    if i != idx {
                        let q = dense_position(start, w as int, i);
                        vstd::arithmetic::div_mod::lemma_fundamental_div_mod(i, w as int);
                        vstd::arithmetic::div_mod::lemma_mod_bound(i, w as int);
                        vstd::arithmetic::div_mod::lemma_div_pos_is_pos(i, w as int);
                        vstd::arithmetic::div_mod::lemma_div_is_ordered(i, n as int, w as int);
                        vstd::arithmetic::div_mod::lemma_div_multiples_vanish(size.height as int, w as int);
                        assert(w * size.height == size.height * w) by (nonlinear_arith);
                        if q == px.position {
                            assert(i / (w as int) < size.height) by {
                                if i / (w as int) >= size.height {
                                    assert((w as int) * (i / (w as int)) >= (w as int) * size.height) by (nonlinear_arith)
                                        requires i / (w as int) >= size.height, w > 0;
                                }
                            }
                            assert(i % (w as int) == ix);
                            assert(i / (w as int) == iy);
                            assert((w as int) * (iy as int) == (iy as int) * (w as int)) by (nonlinear_arith);
                            assert(i == idx);
                        }
                    }
                }
            }
            k = k + 1;
        }
        assert(pixels@.take(k as int) =~= pixels@);
        assert(colors@ =~= self.dense_colors());
        (size, colors)
    }

    /// The image with every pixel of every layer moved by `offset`.
    pub fn offset(self, offset: Position) -> (r: Self)
        requires
            self.wf(),
            can_shift(self, offset),
        ensures
            r.wf(),
            shifted(self, r, offset),
    {
        shift_image(&self, offset)
    }

    /// The image as `filter` transforms it.
    pub fn filter<F: Filter>(self, filter: F) -> (r: Self)
        requires
            self.wf(),
            filter.accepts(self),
        ensures
            r.wf(),
            filter.transforms(self, r),
    {
        filter.filter(self)
    }

    /// The image of a dense row-major grid of `size`: `colors[i]` at the `i`-th position
    /// of the grid from the origin. A grid whose length is not `width * height` is
    /// refused.
    pub fn from_dense(size: Size, colors: Vec<Color>) -> (r: Result<Image, InvalidDimensions>)
        requires
            size.width <= 32767,
            size.height <= 32767,
        ensures
            colors@.len() != size.width * size.height <==> r is Err,
            r is Err ==> r->Err_0 == (InvalidDimensions { size, len: colors@.len() as usize }),
            r is Ok ==> {
                let image = r->Ok_0;
                &&& image.wf()
                &&& image.name.is_none()
                &&& image.children@.len() == 0
                &&& image.pixels@.len() == colors@.len()
                &&& forall|i: int| 0 <= i < colors@.len() ==> #[trigger] image.pixels@[i] == (Pixel {
                    position: grid(size.width as int, size.height as int)[i],
                    color: colors@[i],
                })
            },
    {
        if colors.len() as u64 != size.area() as u64 {
            return Err(InvalidDimensions { size, len: colors.len() });
        }
        let cells = size.positions();
        let ghost w = size.width as int;
        let ghost h = size.height as int;
        let mut pixels: Vec<Pixel> = Vec::new();
        let mut i: usize = 0;
        while i < colors.len()
            invariant
                0 <= i <= colors@.len(),
                colors@.len() == w * h,
                cells@ == grid(w, h),
                w == size.width,
                h == size.height,
                w <= 32767,
                h <= 32767,
                pixels@.len() == i,
                forall|k: int| 0 <= k < i ==> #[trigger] pixels@[k] == (Pixel { position: grid(w, h)[k], color: colors@[k] }),
            decreases colors@.len() - i,
        {
            pixels.push(Pixel::new(cells[i], colors[i]));
            i = i + 1;
        }
        let image = Image { name: None, pixels, children: Vec::new() };
        proof {
            assert(unique_positions(image.pixels@)) by {
                assert forall|a: int, b: int|
                    0 <= a < image.pixels@.len() && 0 <= b < image.pixels@.len() && a != b implies #[trigger] image.pixels@[a].position
                    != #[trigger] image.pixels@[b].position by {
                    lemma_grid_element(w, h, a);
                    lemma_grid_element(w, h, b);
                    vstd::arithmetic::div_mod::lemma_fundamental_div_mod(a, w);
                    vstd::arithmetic::div_mod::lemma_fundamental_div_mod(b, w);
                }
            }
        }
        Ok(image)
    }
}

} // verus!
