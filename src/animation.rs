//! Sequences of frames played at a fixed rate.
use vstd::prelude::*;
use crate::filter::Filter;
use crate::image::{Image, positions_of};
use crate::region::size_of;
use crate::size::Size;

verus! {

/// Nanoseconds in a second.
pub const NANOS_PER_SECOND: u64 = 1_000_000_000;

/// The componentwise maximum of the sizes of the first `k` frames.
pub open spec fn max_frame_size(frames: Seq<Image>, k: int) -> Size
    decreases k,
{
    if k <= 0 || k > frames.len() {
        Size { width: 0, height: 0 }
    } else {
        let a = max_frame_size(frames, k - 1);
        let b = size_of(positions_of(frames[k - 1].flat()));
        Size {
            width: if a.width >= b.width { a.width } else { b.width },
            height: if a.height >= b.height { a.height } else { b.height },
        }
    }
}

/// Frames shown one after another, `fps` per second.
#[derive(Debug)]
pub struct Animation {
    pub frames: Vec<Image>,
    pub fps: u8,
}

impl Animation {
    /// No frames, one per second.
    pub fn new() -> (r: Self)
        ensures
            r.frames@.len() == 0,
            r.fps == 1,
    {
        Animation { frames: Vec::new(), fps: 1 }
    }

    /// A single frame, at the highest rate.
    pub fn still_frame(frame: Image) -> (r: Self)
        ensures
            r.frames@ == seq![frame],
            r.fps == 255,
    {
        let mut frames = Vec::new();
        frames.push(frame);
        assert(frames@ =~= seq![frame]);
        Animation { frames, fps: 255 }
    }

    /// The animation with `frame` added at the end.
    pub fn frame(self, frame: Image) -> (r: Self)
        ensures
            r.frames@ == self.frames@.push(frame),
            r.fps == self.fps,
    {
        let mut a = self;
        a.frames.push(frame);
        a
    }

    /// The animation with `frames` added at the end.
    pub fn frames(self, frames: Vec<Image>) -> (r: Self)
        ensures
            r.frames@ == self.frames@ + frames@,
            r.fps == self.fps,
    {
        let mut a = self;
        let mut more = frames;
        a.frames.append(&mut more);
        a
    }

    /// The animation at `fps` frames per second; the rate is at least one.
    pub fn fps(self, fps: u8) -> (r: Self)
        requires
            fps >= 1,
        ensures
            r.frames == self.frames,
            r.fps == fps,
    {
        Animation { fps, ..self }
    }

    pub fn fps4(self) -> (r: Self)
        ensures
            r.frames == self.frames,
            r.fps == 4,
    {
        self.fps(4)
    }

    pub fn fps5(self) -> (r: Self)
        ensures
            r.frames == self.frames,
            r.fps == 5,
    {
        self.fps(5)
    }

    pub fn fps10(self) -> (r: Self)
        ensures
            r.frames == self.frames,
            r.fps == 10,
    {
        self.fps(10)
    }

    pub fn fps12(self) -> (r: Self)
        ensures
            r.frames == self.frames,
            r.fps == 12,
    {
        self.fps(12)
    }

    pub fn fps15(self) -> (r: Self)
        ensures
            r.frames == self.frames,
            r.fps == 15,
    {
        self.fps(15)
    }

    pub fn fps20(self) -> (r: Self)
        ensures
            r.frames == self.frames,
            r.fps == 20,
    {
        self.fps(20)
    }

    pub fn fps24(self) -> (r: Self)
        ensures
            r.frames == self.frames,
            r.fps == 24,
    {
        self.fps(24)
    }

    pub fn fps30(self) -> (r: Self)
        ensures
            r.frames == self.frames,
            r.fps == 30,
    {
        self.fps(30)
    }

    pub fn fps60(self) -> (r: Self)
        ensures
            r.frames == self.frames,
            r.fps == 60,
    {
        self.fps(60)
    }

    /// How long each frame shows, in nanoseconds, truncated.
    pub fn get_frame_duration(&self) -> (r: u64)
        requires
            self.fps >= 1,
        ensures
            r == (NANOS_PER_SECOND as int) / (self.fps as int),
    {
        NANOS_PER_SECOND / self.fps as u64
    }

    /// How long all the frames show, in nanoseconds, truncated.
    pub fn get_duration(&self) -> (r: u128)
        requires
            self.fps >= 1,
        ensures
            r == self.frames@.len() * (NANOS_PER_SECOND as int) / (self.fps as int),
    {
        self.get_nth_frame_time(self.frames.len())
    }

    /// When frame `n` starts, in nanoseconds from the start, truncated.
    pub fn get_nth_frame_time(&self, n: usize) -> (r: u128)
        requires
            self.fps >= 1,
        ensures
            r == n * (NANOS_PER_SECOND as int) / (self.fps as int),
    {
        proof {
            assert(n * NANOS_PER_SECOND <= u128::MAX) by (nonlinear_arith)
                requires n <= usize::MAX, usize::MAX <= u64::MAX;
        }
        n as u128 * NANOS_PER_SECOND as u128 / self.fps as u128
    }

    /// The componentwise maximum of the sizes of the frames' bounding boxes.
    pub fn get_max_frame_size(&self) -> (r: Size)
        ensures
            r == max_frame_size(self.frames@, self.frames@.len() as int),
    {
        let mut size = Size::empty();
        let mut i: usize = 0;
        while i < self.frames.len()
            invariant
                0 <= i <= self.frames@.len(),
                size == max_frame_size(self.frames@, i as int),
            decreases self.frames@.len() - i,
        {
            size = size.max(self.frames[i].get_size());
            i = i + 1;
        }
        size
    }

    /// The animation with `f` applied to each frame.
    pub fn map_frame<F: Fn(Image) -> Image>(self, f: F) -> (r: Animation)
        requires
            forall|i: int| 0 <= i < self.frames@.len() ==> f.requires((#[trigger] self.frames@[i],)),
        ensures
            r.fps == self.fps,
            r.frames@.len() == self.frames@.len(),
            forall|i: int| 0 <= i < self.frames@.len() ==> f.ensures((#[trigger] self.frames@[i],), r.frames@[i]),
    {
        let ghost before = self.frames@;
        let fps = self.fps;
        let mut rest = self.frames;
        let n = rest.len();
        let mut out: Vec<Image> = Vec::new();
        while rest.len() > 0
            invariant
                n == before.len(),
                forall|i: int| 0 <= i < before.len() ==> f.requires((#[trigger] before[i],)),
                out@.len() + rest@.len() == n,
                rest@ == before.subrange(out@.len() as int, n as int),
                forall|i: int| 0 <= i < out@.len() ==> f.ensures((#[trigger] before[i],), out@[i]),
            decreases rest@.len(),
        {
            let ghost k = out@.len() as int;
            let frame = rest.remove(0);
            assert(frame == before[k]);
            let done = f(frame);
            out.push(done);
            assert(rest@ =~= before.subrange(out@.len() as int, n as int));
        }
        Animation { frames: out, fps }
    }

    /// The animation with `filter` applied to each frame.
    pub fn filter<F: Filter>(self, filter: F) -> (r: Animation)
        requires
            forall|i: int| 0 <= i < self.frames@.len() ==> (#[trigger] self.frames@[i]).wf() && filter.accepts(self.frames@[i]),
        ensures
            r.fps == self.fps,
            r.frames@.len() == self.frames@.len(),
            forall|i: int| 0 <= i < self.frames@.len() ==> (#[trigger] r.frames@[i]).wf() && filter.transforms(self.frames@[i], r.frames@[i]),
    {
        let ghost before = self.frames@;
        let fps = self.fps;
        let mut rest = self.frames;
        let n = rest.len();
        let mut out: Vec<Image> = Vec::new();
        while rest.len() > 0
            invariant
                n == before.len(),
                forall|i: int| 0 <= i < before.len() ==> (#[trigger] before[i]).wf() && filter.accepts(before[i]),
                out@.len() + rest@.len() == n,
                rest@ == before.subrange(out@.len() as int, n as int),
                forall|i: int| 0 <= i < out@.len() ==> (#[trigger] out@[i]).wf() && filter.transforms(before[i], out@[i]),
            decreases rest@.len(),
        {
            let ghost k = out@.len() as int;
            let frame = rest.remove(0);
            assert(frame == before[k]);
            let done = filter.filter(frame);
            out.push(done);
            assert(rest@ =~= before.subrange(out@.len() as int, n as int));
        }
        Animation { frames: out, fps }
    }
}

impl Default for Animation {
    fn default() -> (r: Self)
        ensures
            r.frames@.len() == 0,
            r.fps == 1,
    {
        Animation::new()
    }
}

} // verus!
