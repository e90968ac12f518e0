//! Filters: transforms of a whole image tree.
use vstd::prelude::*;
use crate::image::Image;

verus! {

/// A transform of an image tree.
pub trait Filter {
    /// The images that the filter takes.
    spec fn accepts(&self, image: Image) -> bool;

    /// `after` is what the filter makes of `before`.
    spec fn transforms(&self, before: Image, after: Image) -> bool;

    fn filter(&self, image: Image) -> (r: Image)
        requires
            image.wf(),
            self.accepts(image),
        ensures
            r.wf(),
            self.transforms(image, r),
    ;
}

/// `image` is accepted by the first filter of `fs`, and whatever that filter may make
/// of it by the rest, in turn.
pub open spec fn chain_accepts<F: Filter>(fs: Seq<F>, image: Image) -> bool
    decreases fs.len(),
{
    fs.len() == 0 || (fs[0].accepts(image) && forall|mid: Image|
        mid.wf() && #[trigger] fs[0].transforms(image, mid) ==> chain_accepts(
            fs.subrange(1, fs.len() as int),
            mid,
        ))
}

/// `after` is what the filters of `fs`, applied in order, make of `before`.
pub open spec fn chain_transforms<F: Filter>(fs: Seq<F>, before: Image, after: Image) -> bool
    decreases fs.len(),
{
    if fs.len() == 0 {
        after == before
    } else {
        exists|mid: Image|
            mid.wf() && #[trigger] fs[0].transforms(before, mid) && chain_transforms(
                fs.subrange(1, fs.len() as int),
                mid,
                after,
            )
    }
}

/// The filters applied one after another, in order.
impl<F: Filter> Filter for Vec<F> {
    open spec fn accepts(&self, image: Image) -> bool {
        chain_accepts(self@, image)
    }

    open spec fn transforms(&self, before: Image, after: Image) -> bool {
        chain_transforms(self@, before, after)
    }

    fn filter(&self, image: Image) -> (r: Image) {
        let ghost fs = self@;
        let ghost first = image;
        let n = self.len();
        let mut current = image;
        let mut i: usize = 0;
        assert(fs.subrange(0, n as int) =~= fs);
        while i < n
            invariant
                n == fs.len(),
                fs == self@,
                0 <= i <= n,
                current.wf(),
                chain_accepts(fs.subrange(i as int, n as int), current),
                forall|after: Image|
                    #[trigger] chain_transforms(fs.subrange(i as int, n as int), current, after)
                        ==> chain_transforms(fs, first, after),
            decreases n - i,
        {
            let ghost rest = fs.subrange(i as int, n as int);
            let ghost before = current;
            assert(rest[0] == self@[i as int]);
            assert(rest.subrange(1, rest.len() as int) =~= fs.subrange(i + 1, n as int));
            current = self[i].filter(current);
            proof {
                assert(chain_accepts(fs.subrange(i + 1, n as int), current));
                assert forall|after: Image|
                    #[trigger] chain_transforms(fs.subrange(i + 1, n as int), current, after)
                        implies chain_transforms(fs, first, after) by {
                    assert(current.wf() && rest[0].transforms(before, current));
                    assert(chain_transforms(rest, before, after));
                }
            }
            i = i + 1;
        }
        proof {
            assert(fs.subrange(n as int, n as int).len() == 0);
            assert(chain_transforms(fs.subrange(n as int, n as int), current, current));
        }
        current
    }
}

} // verus!
