//! The filter that applies another filter to one named part of the tree.
use vstd::prelude::*;
use crate::filter::Filter;
use crate::image::{Image, lemma_child_decreases};

verus! {

/// The image carries the name `name`.
pub open spec fn named(image: Image, name: Seq<char>) -> bool {
    image.name.is_some() && image.name.unwrap()@ == name
}

/// `f` accepts the first node named `name` on each path down from `image`.
pub open spec fn scoped_accepts<F: Filter>(f: F, name: Seq<char>, image: Image) -> bool
    decreases image,
{
    if named(image, name) {
        f.accepts(image)
    } else {
        forall|i: int|
            0 <= i < image.children@.len() ==> scoped_accepts(f, name, #[trigger] image.children@[i])
    }
}

/// `after` is `before` with `f` applied to each node named `name` that has no such
/// node above it; the rest is unchanged.
pub open spec fn scoped_transforms<F: Filter>(
    f: F,
    name: Seq<char>,
    before: Image,
    after: Image,
) -> bool
    decreases before,
{
    if named(before, name) {
        f.transforms(before, after)
    } else {
        &&& after.name == before.name
        &&& after.pixels == before.pixels
        &&& after.children@.len() == before.children@.len()
        &&& forall|i: int|
            0 <= i < before.children@.len() ==> scoped_transforms(
                f,
                name,
                #[trigger] before.children@[i],
                after.children@[i],
            )
    }
}

/// Applies `filter` to the node named `target_name`, searching depth first. The search
/// stops at a match: a node of the same name below a match is reached only through
/// the inner filter. Where no node matches, the image is left as it is.
#[derive(Debug)]
pub struct Scoped<F> {
    pub target_name: String,
    pub filter: F,
}

impl<F> Scoped<F> {
    pub fn new(target_name: &str, filter: F) -> (r: Self)
        ensures
            r.target_name@ == target_name@,
            r.filter == filter,
    {
        Scoped { target_name: target_name.to_owned(), filter }
    }
}

impl<F: Filter> Filter for Scoped<F> {
    open spec fn accepts(&self, image: Image) -> bool {
        scoped_accepts(self.filter, self.target_name@, image)
    }

    open spec fn transforms(&self, before: Image, after: Image) -> bool {
        scoped_transforms(self.filter, self.target_name@, before, after)
    }

    fn filter(&self, image: Image) -> (r: Image) {
        scope_image(&self.filter, &self.target_name, image)
    }
}

fn scope_image<F: Filter>(f: &F, name: &String, image: Image) -> (r: Image)
    requires
        image.wf(),
        scoped_accepts(*f, name@, image),
    ensures
        r.wf(),
        scoped_transforms(*f, name@, image, r),
    decreases image,
{
    let is_match = match &image.name {
        Some(n) => n.eq(name),
        None => false,
    };
    if is_match {
        return f.filter(image);
    }
    let ghost before = image;
    let Image { name: own_name, pixels, children } = image;
    let n = children.len();
    let mut rest = children;
    let mut out: Vec<Image> = Vec::new();
    while rest.len() > 0
        invariant
            before == image,
            before.wf(),
            !named(before, name@),
            scoped_accepts(*f, name@, before),
            n == before.children@.len(),
            out@.len() + rest@.len() == n,
            rest@ == before.children@.subrange(out@.len() as int, n as int),
            forall|j: int|
                0 <= j < out@.len() ==> (#[trigger] out@[j]).wf() && scoped_transforms(
                    *f,
                    name@,
                    before.children@[j],
                    out@[j],
                ),
        decreases rest@.len(),
    {
        let ghost k = out@.len() as int;
        let child = rest.remove(0);
        proof {
            assert(child == before.children@[k]);
            assert(before.children@[k].wf());
            lemma_child_decreases(before, k);
        }
        let done = scope_image(f, name, child);
        out.push(done);
        assert(rest@ =~= before.children@.subrange(out@.len() as int, n as int));
    }
    Image { name: own_name, pixels, children: out }
}

} // verus!
