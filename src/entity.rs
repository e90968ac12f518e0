//! Scene graphs: images placed at offsets, holding further placed images.
use vstd::prelude::*;
use crate::image::{Image, blend_all, shifted_pixel};
use crate::pixel::Pixel;
use crate::position::Position;

verus! {

/// An image placed at `offset`, with children placed relative to it.
#[derive(Debug, Default)]
pub struct Entity {
    pub image: Image,
    pub offset: Position,
    pub name: Option<String>,
    pub children: Vec<Entity>,
}

/// The pixels of the entity before its own offset is applied: its image's, then each
/// child's, depth first.
pub open spec fn entity_local(e: Entity) -> Seq<Pixel>
    decreases e, 1int, 0int,
{
    e.image.flat() + entity_all(e.children@, e.children@.len() as int)
}

/// The placed pixels of the first `k` entities of `es`.
pub open spec fn entity_all(es: Seq<Entity>, k: int) -> Seq<Pixel>
    decreases es, 0int, k,
{
    if k <= 0 || k > es.len() {
        Seq::empty()
    } else {
        entity_all(es, k - 1) + entity_pixels(es[k - 1])
    }
}

/// The pixels of the entity where it places them: each moved by its offset, and a
/// child's by the child's offset too.
pub open spec fn entity_pixels(e: Entity) -> Seq<Pixel>
    decreases e, 2int, 0int,
{
    entity_local(e).map_values(|px: Pixel| shifted_pixel(px, e.offset))
}

/// Every placement stays within 16 bits.
pub open spec fn entity_fits(e: Entity) -> bool
    decreases e,
{
    &&& forall|i: int| 0 <= i < e.children@.len() ==> entity_fits(#[trigger] e.children@[i])
    &&& forall|j: int| 0 <= j < entity_local(e).len() ==> (#[trigger] entity_local(e)[j]).position.can_add(e.offset)
}

impl Entity {
    /// An empty entity at the origin.
    pub fn new() -> (r: Self)
        ensures
            r.image.name.is_none(),
            r.image.pixels@.len() == 0,
            r.image.children@.len() == 0,
            r.offset == (Position { x: 0, y: 0 }),
            r.name.is_none(),
            r.children@.len() == 0,
    {
        Entity { image: Image::new(), offset: Position::origin(), name: None, children: Vec::new() }
    }

    pub fn image(self, image: Image) -> (r: Self)
        ensures
            r.image == image,
            r.offset == self.offset,
            r.name == self.name,
            r.children == self.children,
    {
        Entity { image, ..self }
    }

    /// The entity showing `pixels`, blended in order.
    pub fn image_pixels(self, pixels: &[Pixel]) -> (r: Self)
        ensures
            r.image.wf(),
            r.image.name.is_none(),
            r.image.children@.len() == 0,
            r.image.own_map() == blend_all(Map::empty(), pixels@),
            r.offset == self.offset,
            r.name == self.name,
            r.children == self.children,
    {
        Entity { image: Image::from_pixels(pixels), ..self }
    }

    pub fn offset(self, offset: Position) -> (r: Self)
        ensures
            r.image == self.image,
            r.offset == offset,
            r.name == self.name,
            r.children == self.children,
    {
        Entity { offset, ..self }
    }

    pub fn name(self, name: &str) -> (r: Self)
        ensures
            r.image == self.image,
            r.offset == self.offset,
            r.name.is_some() && r.name.unwrap()@ == name@,
            r.children == self.children,
    {
        Entity { name: Some(name.to_owned()), ..self }
    }

    /// The entity with `child` placed after its other children.
    pub fn child(self, child: Entity) -> (r: Self)
        ensures
            r.image == self.image,
            r.offset == self.offset,
            r.name == self.name,
            r.children@ == self.children@.push(child),
    {
        let mut e = self;
        e.children.push(child);
        e
    }

    /// The placed pixels, depth first.
    pub fn pixels(&self) -> (r: Vec<Pixel>)
        requires
            entity_fits(*self),
        ensures
            r@ == entity_pixels(*self),
        decreases self,
    {
        let mut local = self.image.iter();
        let mut i: usize = 0;
        while i < self.children.len()
            invariant
                entity_fits(*self),
                0 <= i <= self.children@.len(),
                local@ == self.image.flat() + entity_all(self.children@, i as int),
            decreases self.children@.len() - i,
        {
            assert(entity_fits(self.children@[i as int]));
            let mut more = self.children[i].pixels();
            local.append(&mut more);
            i = i + 1;
            assert(local@ =~= self.image.flat() + entity_all(self.children@, i as int));
        }
        let mut r: Vec<Pixel> = Vec::new();
        let mut j: usize = 0;
        while j < local.len()
            invariant
                entity_fits(*self),
                local@ == entity_local(*self),
                0 <= j <= local@.len(),
                r@ == local@.take(j as int).map_values(|px: Pixel| shifted_pixel(px, self.offset)),
            decreases local@.len() - j,
        {
            let px = local[j];
            assert(px.position.can_add(self.offset));
            r.push(Pixel::new(px.position + self.offset, px.color));
            j = j + 1;
            assert(r@ =~= local@.take(j as int).map_values(|px: Pixel| shifted_pixel(px, self.offset)));
        }
        assert(local@.take(j as int) =~= local@);
        r
    }

    /// The placed pixels blended, in order, into one layer.
    pub fn to_image(&self) -> (r: Image)
        requires
            entity_fits(*self),
        ensures
            r.wf(),
            r.name.is_none(),
            r.children@.len() == 0,
            r.own_map() == blend_all(Map::empty(), entity_pixels(*self)),
    {
        let pixels = self.pixels();
        Image::from_pixels(pixels.as_slice())
    }
}

/// A placed scene shown for `duration` nanoseconds.
#[derive(Debug)]
pub struct Frame {
    pub entity: Entity,
    pub duration: u64,
}

impl Frame {
    /// An empty scene shown for one second.
    pub fn new() -> (r: Self)
        ensures
            r.entity.children@.len() == 0,
            r.entity.image.pixels@.len() == 0,
            r.entity.image.children@.len() == 0,
            r.duration == 1_000_000_000,
    {
        Frame { entity: Entity::new(), duration: 1_000_000_000 }
    }

    pub fn entity(self, entity: Entity) -> (r: Self)
        ensures
            r.entity == entity,
            r.duration == self.duration,
    {
        Frame { entity, ..self }
    }

    /// The frame shown for `duration` nanoseconds.
    pub fn duration(self, duration: u64) -> (r: Self)
        ensures
            r.entity == self.entity,
            r.duration == duration,
    {
        Frame { duration, ..self }
    }
}

impl Default for Frame {
    fn default() -> (r: Self)
        ensures
            r.entity.children@.len() == 0,
            r.entity.image.pixels@.len() == 0,
            r.entity.image.children@.len() == 0,
            r.duration == 1_000_000_000,
    {
        Frame::new()
    }
}

} // verus!
