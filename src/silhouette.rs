//! The filter that paints every visible pixel black.
use vstd::prelude::*;
use crate::color::{Color, spec_black};
use crate::filter::Filter;
use crate::image::{Image, copy_name, unique_positions};
use crate::pixel::Pixel;

verus! {

/// A pixel with its color turned black unless it is fully transparent.
pub open spec fn silhouette_pixel(px: Pixel) -> Pixel {
    Pixel { position: px.position, color: if px.color.a == 0 { px.color } else { spec_black() } }
}

/// `after` is `before` with every visible pixel of every layer black.
pub open spec fn silhouetted(before: Image, after: Image) -> bool
    decreases before,
{
    &&& after.name == before.name
    &&& after.pixels@ == before.pixels@.map_values(|px: Pixel| silhouette_pixel(px))
    &&& after.children@.len() == before.children@.len()
    &&& forall|i: int|
        0 <= i < before.children@.len() ==> silhouetted(
            #[trigger] before.children@[i],
            after.children@[i],
        )
}

/// Turns every pixel that is not fully transparent solid black, in every layer.
#[derive(Debug, Clone, Copy)]
pub struct Silhouette;

impl Filter for Silhouette {
    open spec fn accepts(&self, image: Image) -> bool {
        true
    }

    open spec fn transforms(&self, before: Image, after: Image) -> bool {
        silhouetted(before, after)
    }

    fn filter(&self, image: Image) -> (r: Image) {
        silhouette_image(&image)
    }
}

fn silhouette_image(image: &Image) -> (r: Image)
    requires
        image.wf(),
    ensures
        r.wf(),
        silhouetted(*image, r),
    decreases image,
{
    let mut pixels: Vec<Pixel> = Vec::new();
    let mut i: usize = 0;
    while i < image.pixels.len()
        invariant
            0 <= i <= image.pixels@.len(),
            pixels@ == image.pixels@.take(i as int).map_values(|px: Pixel| silhouette_pixel(px)),
        decreases image.pixels@.len() - i,
    {
        let px = image.pixels[i];
        let color = if px.color.is_transparent() { px.color } else { Color::black() };
        pixels.push(Pixel::new(px.position, color));
        i = i + 1;
        assert(pixels@ =~= image.pixels@.take(i as int).map_values(|px: Pixel| silhouette_pixel(px)));
    }
    assert(image.pixels@.take(i as int) =~= image.pixels@);
    let mut children: Vec<Image> = Vec::new();
    let mut k: usize = 0;
    while k < image.children.len()
        invariant
            image.wf(),
            0 <= k <= image.children@.len(),
            children@.len() == k,
            forall|j: int|
                0 <= j < k ==> (#[trigger] children@[j]).wf() && silhouetted(
                    image.children@[j],
                    children@[j],
                ),
        decreases image.children@.len() - k,
    {
        assert(image.children@[k as int].wf());
        let done = silhouette_image(&image.children[k]);
        children.push(done);
        k = k + 1;
    }
    let r = Image { name: copy_name(&image.name), pixels, children };
    assert(unique_positions(r.pixels@)) by {
        assert forall|a: int, b: int|
            0 <= a < r.pixels@.len() && 0 <= b < r.pixels@.len() && a != b implies #[trigger] r.pixels@[a].position
            != #[trigger] r.pixels@[b].position by {
            assert(image.pixels@[a].position != image.pixels@[b].position);
        }
    }
    r
}

} // verus!
