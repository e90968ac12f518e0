//! What an indexed-palette animation encoder is handed: one palette for all frames,
//! each frame's RGB bytes, the delay between frames and the repeat flag.
use vstd::prelude::*;
use crate::animation::Animation;
use crate::color::Color;
use crate::image::{Image, fits_extent, positions_of};
use crate::region::size_of;
use crate::size::Size;

verus! {

/// The red, green and blue of a color; alpha is dropped.
pub open spec fn rgb_of(c: Color) -> (u8, u8, u8) {
    (c.r, c.g, c.b)
}

/// The bytes red, green, blue of each of `colors`, in order.
pub open spec fn rgb_bytes(colors: Seq<Color>) -> Seq<u8>
    decreases colors.len(),
{
    if colors.len() == 0 {
        Seq::empty()
    } else {
        rgb_bytes(colors.drop_last()) + seq![colors.last().r, colors.last().g, colors.last().b]
    }
}

/// Some cell of the dense grid of some frame has the color `t`, alpha aside.
pub open spec fn in_some_frame(frames: Seq<Image>, t: (u8, u8, u8)) -> bool {
    in_first_frames(frames, frames.len() as int, t)
}

/// Some cell of the dense grid of one of the first `n` frames has the color `t`.
pub open spec fn in_first_frames(frames: Seq<Image>, n: int, t: (u8, u8, u8)) -> bool {
    exists|f: int| 0 <= f < n && f < frames.len() && #[trigger] in_first_colors(frames[f].dense_colors(), frames[f].dense_colors().len() as int, t)
}

/// One of the first `n` of `colors` is `t`, alpha aside.
pub open spec fn in_first_colors(colors: Seq<Color>, n: int, t: (u8, u8, u8)) -> bool {
    exists|k: int| 0 <= k < n && k < colors.len() && rgb_of(#[trigger] colors[k]) == t
}

/// Every frame's bounding box fits a `Size`.
pub open spec fn frames_fit(frames: Seq<Image>) -> bool {
    forall|f: int| 0 <= f < frames.len() ==> fits_extent(positions_of((#[trigger] frames[f]).flat()))
}

/// An animation to be encoded with one palette for all its frames.
#[derive(Debug)]
pub struct AnimatedGifImage {
    pub anime: Animation,
    pub repeat: bool,
}

fn contains_rgb(ts: &Vec<(u8, u8, u8)>, t: (u8, u8, u8)) -> (r: bool)
    ensures
        r == ts@.contains(t),
{
    let mut i: usize = 0;
    while i < ts.len()
        invariant
            0 <= i <= ts@.len(),
            forall|j: int| 0 <= j < i ==> ts@[j] != t,
        decreases ts@.len() - i,
    {
        let u = ts[i];
        if u.0 == t.0 && u.1 == t.1 && u.2 == t.2 {
            return true;
        }
        i = i + 1;
    }
    false
}

impl AnimatedGifImage {
    /// The animation, played once.
    pub fn new(anime: Animation) -> (r: Self)
        ensures
            r.anime == anime,
            !r.repeat,
    {
        AnimatedGifImage { anime, repeat: false }
    }

    /// Plays the animation forever.
    pub fn repeat(&mut self)
        ensures
            final(self).anime == old(self).anime,
            final(self).repeat,
    {
        self.repeat = true;
    }

    /// The size of the screen: the largest width and height of the frames.
    pub fn screen_size(&self) -> (r: Size)
        ensures
            r == crate::animation::max_frame_size(self.anime.frames@, self.anime.frames@.len() as int),
    {
        self.anime.get_max_frame_size()
    }

    /// The delay between frames in hundredths of a second: the frame duration in whole
    /// milliseconds, divided by ten.
    pub fn frame_delay(&self) -> (r: u16)
        requires
            self.anime.fps >= 1,
        ensures
            r == (1000int / (self.anime.fps as int)) / 10,
    {
        let millis = (self.anime.get_frame_duration() / 1_000_000) as u16;
        proof {
            let f = self.anime.fps as int;
            assert(1_000_000_000int / f / 1_000_000int == 1000int / f) by {
                vstd::arithmetic::div_mod::lemma_div_denominator(1_000_000_000, f, 1_000_000);
                vstd::arithmetic::div_mod::lemma_div_denominator(1_000_000_000, 1_000_000, f);
                assert(f * 1_000_000 == 1_000_000 * f) by (nonlinear_arith);
            }
        }
        millis / 10
    }

    /// Every color of every frame, alpha dropped, each once. They are collected frame by
    /// frame, row by row, each where first met.
    pub fn global_palette(&self) -> (r: Vec<(u8, u8, u8)>)
        requires
            frames_fit(self.anime.frames@),
        ensures
            forall|i: int, j: int| 0 <= i < j < r@.len() ==> r@[i] != r@[j],
            forall|t: (u8, u8, u8)| r@.contains(t) <==> #[trigger] in_some_frame(self.anime.frames@, t),
    {
        let ghost frames = self.anime.frames@;
        let mut palette: Vec<(u8, u8, u8)> = Vec::new();
        let mut f: usize = 0;
        while f < self.anime.frames.len()
            invariant
                frames == self.anime.frames@,
                frames_fit(frames),
                0 <= f <= frames.len(),
                forall|i: int, j: int| 0 <= i < j < palette@.len() ==> palette@[i] != palette@[j],
                forall|t: (u8, u8, u8)| #[trigger] palette@.contains(t) == in_first_frames(frames, f as int, t),
            decreases frames.len() - f,
        {
            assert(fits_extent(positions_of(frames[f as int].flat())));
            let (_, colors) = self.anime.frames[f].to_size_and_colors();
            let ghost before = palette@;
            let mut i: usize = 0;
            while i < colors.len()
                invariant
                    0 <= i <= colors@.len(),
                    colors@ == frames[f as int].dense_colors(),
                    forall|a: int, b: int| 0 <= a < b < palette@.len() ==> palette@[a] != palette@[b],
                    forall|t: (u8, u8, u8)|
                        #[trigger] palette@.contains(t) == (before.contains(t) || in_first_colors(colors@, i as int, t)),
                decreases colors@.len() - i,
            {
                let c = colors[i];
                let t = (c.r, c.g, c.b);
                let ghost prev = palette@;
                let present = contains_rgb(&palette, t);
                if !present {
                    palette.push(t);
                    proof {
                        assert forall|a: int, b: int| 0 <= a < b < palette@.len() implies palette@[a] != palette@[b] by {
                            if b == palette@.len() - 1 {
                                assert(palette@[a] == prev[a]);
                                if palette@[a] == t {
                                    assert(prev.contains(t));
                                }
                            } else {
                                assert(palette@[a] == prev[a] && palette@[b] == prev[b]);
                            }
                        }
                        assert(palette@[palette@.len() - 1] == t);
                    }
                }
                proof {
                    assert(palette@.contains(t));
                    assert(rgb_of(colors@[i as int]) == t);
                    assert forall|u: (u8, u8, u8)|
                        #[trigger] palette@.contains(u) == (before.contains(u) || in_first_colors(colors@, i + 1, u)) by {
                        assert(prev.contains(u) == (before.contains(u) || in_first_colors(colors@, i as int, u)));
                        if palette@.contains(u) && u != t && !present {
                            let ix = choose|ix: int| 0 <= ix < palette@.len() && palette@[ix] == u;
                            assert(prev[ix] == u);
                        }
                        if prev.contains(u) && !present {
                            let ix = choose|ix: int| 0 <= ix < prev.len() && prev[ix] == u;
                            assert(palette@[ix] == u);
                        }
                        if in_first_colors(colors@, i + 1, u) {
                            let k = choose|k: int| 0 <= k < i + 1 && k < colors@.len() && rgb_of(#[trigger] colors@[k]) == u;
                            if k < i {
                                assert(in_first_colors(colors@, i as int, u));
                            }
                        }
                        if in_first_colors(colors@, i as int, u) {
                            let k = choose|k: int| 0 <= k < i && k < colors@.len() && rgb_of(#[trigger] colors@[k]) == u;
                            assert(in_first_colors(colors@, i + 1, u));
                        }
                        if u == t {
                            assert(in_first_colors(colors@, i + 1, u));
                        }
                    }
                }
                i = i + 1;
            }
            proof {
                assert forall|t: (u8, u8, u8)| #[trigger] palette@.contains(t) == in_first_frames(frames, f + 1, t) by {
                    assert(before.contains(t) == in_first_frames(frames, f as int, t));
                    if in_first_frames(frames, f + 1, t) {
                        let g = choose|g: int| 0 <= g < f + 1 && g < frames.len() && #[trigger] in_first_colors(frames[g].dense_colors(), frames[g].dense_colors().len() as int, t);
                        if g < f {
                            assert(in_first_frames(frames, f as int, t));
                        }
                    }
                    if in_first_frames(frames, f as int, t) {
                        let g = choose|g: int| 0 <= g < f && g < frames.len() && #[trigger] in_first_colors(frames[g].dense_colors(), frames[g].dense_colors().len() as int, t);
                        assert(in_first_frames(frames, f + 1, t));
                    }
                    if in_first_colors(colors@, colors@.len() as int, t) {
                        assert(in_first_frames(frames, f + 1, t));
                    }
                }
            }
            f = f + 1;
        }
        palette
    }

    /// The size of the frame's bounding box and the red, green and blue bytes of its
    /// dense grid, row by row.
    pub fn frame_rgb(frame: &Image) -> (r: (Size, Vec<u8>))
        requires
            fits_extent(positions_of(frame.flat())),
        ensures
            r.0 == size_of(positions_of(frame.flat())),
            r.1@ == rgb_bytes(frame.dense_colors()),
    {
        let (size, colors) = frame.to_size_and_colors();
        let mut out: Vec<u8> = Vec::new();
        let mut i: usize = 0;
        while i < colors.len()
            invariant
                0 <= i <= colors@.len(),
                out@ == rgb_bytes(colors@.take(i as int)),
            decreases colors@.len() - i,
        {
            let c = colors[i];
            out.push(c.r);
            out.push(c.g);
            out.push(c.b);
            assert(colors@.take(i as int + 1).drop_last() =~= colors@.take(i as int));
            i = i + 1;
            assert(out@ =~= rgb_bytes(colors@.take(i as int)));
        }
        assert(colors@.take(i as int) =~= colors@);
        (size, out)
    }
}

} // verus!
