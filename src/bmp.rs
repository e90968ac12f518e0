//! The uncompressed 32-bit bitmap file format.
use vstd::prelude::*;
use crate::color::Color;
use crate::image::{Image, fits_extent, positions_of};
use crate::region::size_of;

verus! {

/// `v` as four little-endian bytes.
pub open spec fn le32(v: int) -> Seq<u8> {
    seq![(v % 256) as u8, (v / 256 % 256) as u8, (v / 65536 % 256) as u8, (v / 16777216 % 256) as u8]
}

/// The file header and the information header of a `w` by `h` bitmap of 32 bits per
/// pixel, without compression: 54 bytes.
pub open spec fn bmp_header(w: int, h: int) -> Seq<u8> {
    seq![66u8, 77u8] + le32(54 + w * h * 4) + seq![0u8, 0u8, 0u8, 0u8] + le32(54) + le32(40) + le32(w)
        + le32(h) + seq![1u8, 0u8, 32u8, 0u8] + seq![0u8, 0u8, 0u8, 0u8] + le32(w * h * 4) + Seq::new(
        16,
        |i: int| 0u8,
    )
}

/// A color as it is stored: blue, green, red, alpha.
pub open spec fn bgra(c: Color) -> Seq<u8> {
    seq![c.b, c.g, c.r, c.a]
}

/// The first `n` pixels of row `y` of the row-major grid `colors`, `w` wide.
pub open spec fn row_bytes(colors: Seq<Color>, w: int, y: int, n: int) -> Seq<u8>
    decreases n,
{
    if n <= 0 {
        Seq::empty()
    } else {
        row_bytes(colors, w, y, n - 1) + bgra(colors[y * w + n - 1])
    }
}

/// The `k` bottom rows of an `h` rows high grid, bottom row first.
pub open spec fn rows_bottom_up(colors: Seq<Color>, w: int, h: int, k: int) -> Seq<u8>
    decreases k,
{
    if k <= 0 {
        Seq::empty()
    } else {
        rows_bottom_up(colors, w, h, k - 1) + row_bytes(colors, w, h - k, w)
    }
}

/// The bitmap file of the `w` by `h` row-major grid `colors`.
pub open spec fn bmp_file(w: int, h: int, colors: Seq<Color>) -> Seq<u8> {
    bmp_header(w, h) + rows_bottom_up(colors, w, h, h)
}

/// An image to be written as a bitmap file.
#[derive(Debug)]
pub struct BmpImage {
    pub image: Image,
}

fn push_le32(v: &mut Vec<u8>, x: u32)
    ensures
        final(v)@ == old(v)@ + le32(x as int),
{
    proof {
        assert((x & 0xffu32) == x % 256) by (bit_vector);
        assert(((x >> 8u32) & 0xffu32) == x / 256 % 256) by (bit_vector);
        assert(((x >> 16u32) & 0xffu32) == x / 65536 % 256) by (bit_vector);
        assert(((x >> 24u32) & 0xffu32) == x / 16777216 % 256) by (bit_vector);
    }
    v.push((x & 0xff) as u8);
    v.push(((x >> 8u32) & 0xff) as u8);
    v.push(((x >> 16u32) & 0xff) as u8);
    v.push(((x >> 24u32) & 0xff) as u8);
    assert(final(v)@ =~= old(v)@ + le32(x as int));
}

fn push_bytes(v: &mut Vec<u8>, bytes: &[u8])
    ensures
        final(v)@ == old(v)@ + bytes@,
{
    let mut i: usize = 0;
    while i < bytes.len()
        invariant
            0 <= i <= bytes@.len(),
            v@ == old(v)@ + bytes@.take(i as int),
        decreases bytes@.len() - i,
    {
        v.push(bytes[i]);
        i = i + 1;
        assert(v@ =~= old(v)@ + bytes@.take(i as int));
    }
    assert(bytes@.take(i as int) =~= bytes@);
}

impl BmpImage {
    pub fn new(image: Image) -> (r: Self)
        ensures
            r.image == image,
    {
        BmpImage { image }
    }

    /// The image's bounding box fits a `Size`, and the file size fits 32 bits.
    pub open spec fn encodable(self) -> bool {
        &&& fits_extent(positions_of(self.image.flat()))
        &&& 54 + size_of(positions_of(self.image.flat())).width * size_of(positions_of(self.image.flat())).height * 4 <= u32::MAX
    }

    /// The bitmap file of the image: headers, then the dense grid of its bounding box
    /// from the bottom row up, each pixel as blue, green, red, alpha.
    pub fn to_bytes(&self) -> (r: Vec<u8>)
        requires
            self.encodable(),
        ensures
            r@ == bmp_file(
                size_of(positions_of(self.image.flat())).width as int,
                size_of(positions_of(self.image.flat())).height as int,
                self.image.dense_colors(),
            ),
    {
        let (size, colors) = self.image.to_size_and_colors();
        let w = size.width as u32;
        let h = size.height as u32;
        proof {
            assert(w * h * 4 <= u32::MAX);
            assert(w * h <= w * h * 4);
        }
        let area = w * h;
        let data = area * 4;
        let mut out: Vec<u8> = Vec::new();
        push_bytes(&mut out, &[66u8, 77u8]);
        push_le32(&mut out, 54 + data);
        push_bytes(&mut out, &[0u8, 0u8, 0u8, 0u8]);
        push_le32(&mut out, 54);
        push_le32(&mut out, 40);
        push_le32(&mut out, w);
        push_le32(&mut out, h);
        push_bytes(&mut out, &[1u8, 0u8, 32u8, 0u8]);
        push_bytes(&mut out, &[0u8, 0u8, 0u8, 0u8]);
        push_le32(&mut out, data);
        push_bytes(&mut out, &[0u8, 0u8, 0u8, 0u8, 0u8, 0u8, 0u8, 0u8, 0u8, 0u8, 0u8, 0u8, 0u8, 0u8, 0u8, 0u8]);
        let ghost header = out@;
        proof {
            assert(header =~= bmp_header(w as int, h as int));
        }
        let ghost gw = w as int;
        let ghost gh = h as int;
        let wu = w as usize;
        let nc = colors.len();
        let mut k: u32 = 0;
        while k < h
            invariant
                0 <= k <= h,
                gw == w,
                gh == h,
                wu == w,
                colors@.len() == w * h,
                colors@.len() == nc,
                out@ == header + rows_bottom_up(colors@, gw, gh, k as int),
            decreases h - k,
        {
            let y = (h - 1 - k) as usize;
            let ghost before = out@;
            let mut x: usize = 0;
            while x < wu
                invariant
                    0 <= x <= wu,
                    wu == w,
                    gw == w,
                    y < h,
                    colors@.len() == w * h,
                    colors@.len() == nc,
                    out@ == before + row_bytes(colors@, gw, y as int, x as int),
                decreases wu - x,
            {
                proof {
                    assert((y as int) * (wu as int) + (x as int) < (w as int) * (h as int)) by (nonlinear_arith)
                        requires y < h, x < wu, wu == w;
                    assert((y as int) * (wu as int) <= (y as int) * (wu as int) + (x as int));
                }
                let c = colors[y * wu + x];
                out.push(c.b);
                out.push(c.g);
                out.push(c.r);
                out.push(c.a);
                x = x + 1;
                assert(out@ =~= before + row_bytes(colors@, gw, y as int, x as int));
            }
            k = k + 1;
            assert(out@ =~= header + rows_bottom_up(colors@, gw, gh, k as int));
        }
        out
    }
}

} // verus!
