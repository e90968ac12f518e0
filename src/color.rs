//! 8-bit RGBA colors and the integer "source over destination" blend.
use vstd::prelude::*;

verus! {

/// A color with straight (not premultiplied) alpha.
#[derive(Debug, Default, Clone, Copy, PartialEq, Eq, Hash, Structural)]
pub struct Color {
    pub r: u8,
    pub g: u8,
    pub b: u8,
    pub a: u8,
}

/// One step of the blend: `s + d - d * a / 65025int`, truncating.
pub open spec fn blend_term(s: int, d: int, a: int) -> int {
    s + d - d * a / 65025int
}

/// The blended value of one color channel, before it is scaled back by alpha.
pub open spec fn blend_channel(sc: u8, sa: u8, dc: u8, da: u8) -> int {
    blend_term(sc * sa, dc * da, sa * 255)
}

/// The blended alpha, scaled by 255.
pub open spec fn blend_alpha(sa: u8, da: u8) -> int {
    blend_term(sa * 255, da * 255, sa * 255)
}

/// A blended channel brought back from premultiplied form.
pub open spec fn unpremultiply(c: int, a: int) -> int {
    c * 255 * 255 / a / 255
}

/// The "source over destination" operator on straight-alpha colors.
pub open spec fn spec_alpha_blend(src: Color, dst: Color) -> Color {
    if dst.a == 0 {
        src
    } else if src.a == 0 {
        dst
    } else if src.a == 255 {
        src
    } else {
        let a = blend_alpha(src.a, dst.a);
        Color {
            r: unpremultiply(blend_channel(src.r, src.a, dst.r, dst.a), a) as u8,
            g: unpremultiply(blend_channel(src.g, src.a, dst.g, dst.a), a) as u8,
            b: unpremultiply(blend_channel(src.b, src.a, dst.b, dst.a), a) as u8,
            a: (a / 255) as u8,
        }
    }
}

/// The fully transparent color `rgba(0, 0, 0, 0)`.
pub open spec fn spec_transparent() -> Color {
    Color { r: 0, g: 0, b: 0, a: 0 }
}

/// Opaque black.
pub open spec fn spec_black() -> Color {
    Color { r: 0, g: 0, b: 0, a: 255 }
}

/// Bounds of the blend for a partly transparent source over a visible destination:
/// the alpha is positive and at most `255 * 255`, and each channel stays in `0..=a`.
proof fn lemma_blend_bounds(sc: u8, sa: u8, dc: u8, da: u8)
    requires
        0 < sa < 255,
        0 < da,
    ensures
        255 <= blend_alpha(sa, da) <= 255 * 255,
        blend_alpha(sa, da) == 255 * sa + 255 * da - sa * da,
        0 <= blend_channel(sc, sa, dc, da) <= blend_alpha(sa, da),
        0 <= unpremultiply(blend_channel(sc, sa, dc, da), blend_alpha(sa, da)) <= 255,
{
    let (sc, sa, dc, da) = (sc as int, sa as int, dc as int, da as int);
    let x = da * sa;
    assert(da * 255 * (sa * 255) == x * 65025) by (nonlinear_arith) requires x == da * sa;
    assert(x * 65025 / 65025int == x) by (nonlinear_arith);
    assert(blend_alpha(sa as u8, da as u8) == 255 * sa + 255 * da - x);
    let a = 255 * sa + 255 * da - x;
    assert(a <= 255 * 255) by (nonlinear_arith)
        requires 0 < sa < 255, 0 < da <= 255, x == da * sa, a == 255 * sa + 255 * da - x;
    assert(a >= 255 * sa) by (nonlinear_arith)
        requires 0 < da <= 255, x == da * sa, a == 255 * sa + 255 * da - x, 0 < sa < 255;
    assert(x == sa * da) by (nonlinear_arith) requires x == da * sa;
    let t = dc * da * (sa * 255) / 65025int;
    assert(dc * da * (sa * 255) == (dc * x) * 255) by (nonlinear_arith) requires x == da * sa;
    assert(t == dc * x / 255) by (nonlinear_arith)
        requires t == dc * da * (sa * 255) / 65025int, dc * da * (sa * 255) == (dc * x) * 255;
    // t is at most the exact share and at least the integer below it.
    assert(t <= dc * da) by (nonlinear_arith)
        requires t == dc * x / 255, x == da * sa, 0 < sa < 255, 0 <= dc <= 255, 0 < da;
    assert(t >= x - (255 - dc) * da) by (nonlinear_arith)
        requires t == dc * x / 255, x == da * sa, 0 < sa < 255, 0 <= dc <= 255, 0 < da <= 255;
    let c = sc * sa + dc * da - t;
    assert(c >= 0) by (nonlinear_arith) requires c == sc * sa + dc * da - t, t <= dc * da, sc >= 0, sa >= 0;
    assert(c <= a) by (nonlinear_arith)
        requires
            c == sc * sa + dc * da - t,
            t >= x - (255 - dc) * da,
            a == 255 * sa + 255 * da - x,
            0 <= sc <= 255, 0 < sa,
            0 <= dc <= 255,
            da >= 0,
    ;
    assert(c * 255 * 255 / a <= 255 * 255) by (nonlinear_arith)
        requires 0 <= c <= a, a > 0;
    assert(c * 255 * 255 / a >= 0) by (nonlinear_arith)
        requires 0 <= c, a > 0;
}

/// Blending any color onto a fully transparent destination gives that color back.
pub proof fn lemma_blend_onto_transparent(c: Color, dst: Color)
    requires
        dst.a == 0,
    ensures
        spec_alpha_blend(c, dst) == c,
{
}

/// An opaque source hides whatever lies beneath it.
pub proof fn lemma_blend_opaque_source(c: Color, dst: Color)
    requires
        c.a == 255,
    ensures
        spec_alpha_blend(c, dst) == c,
{
}

impl Color {
    pub fn rgba(r: u8, g: u8, b: u8, a: u8) -> (res: Self)
        ensures
            res == (Color { r, g, b, a }),
    {
        Color { r, g, b, a }
    }

    /// An opaque color.
    pub fn rgb(r: u8, g: u8, b: u8) -> (res: Self)
        ensures
            res == (Color { r, g, b, a: 255 }),
    {
        Self::rgba(r, g, b, 255)
    }

    /// The color packed as `0xRRGGBBAA`.
    pub fn rgba_hex(hex: u32) -> (res: Self)
        ensures
            res.r == hex / 0x1000000,
            res.g == hex / 0x10000 % 0x100,
            res.b == hex / 0x100 % 0x100,
            res.a == hex % 0x100,
    {
        proof {
            assert((hex >> 24u32) & 0xffu32 == hex / 0x1000000u32) by (bit_vector);
            assert((hex >> 16u32) & 0xffu32 == hex / 0x10000u32 % 0x100u32) by (bit_vector);
            assert((hex >> 8u32) & 0xffu32 == hex / 0x100u32 % 0x100u32) by (bit_vector);
            assert(hex & 0xffu32 == hex % 0x100u32) by (bit_vector);
        }
        Self::rgba(
            ((hex >> 24u32) & 0xff) as u8,
            ((hex >> 16u32) & 0xff) as u8,
            ((hex >> 8u32) & 0xff) as u8,
            (hex & 0xff) as u8,
        )
    }

    /// The opaque color packed as `0xRRGGBB`; higher bits are ignored.
    pub fn rgb_hex(hex: u32) -> (res: Self)
        ensures
            res.r == hex / 0x10000 % 0x100,
            res.g == hex / 0x100 % 0x100,
            res.b == hex % 0x100,
            res.a == 255,
    {
        proof {
            assert((hex >> 16u32) & 0xffu32 == hex / 0x10000u32 % 0x100u32) by (bit_vector);
            assert((hex >> 8u32) & 0xffu32 == hex / 0x100u32 % 0x100u32) by (bit_vector);
            assert(hex & 0xffu32 == hex % 0x100u32) by (bit_vector);
        }
        Self::rgb(((hex >> 16u32) & 0xff) as u8, ((hex >> 8u32) & 0xff) as u8, (hex & 0xff) as u8)
    }

    /// The fully transparent color.
    pub fn transparent() -> (res: Self)
        ensures
            res == spec_transparent(),
    {
        Self::rgba(0, 0, 0, 0)
    }

    /// Opaque black.
    pub fn black() -> (res: Self)
        ensures
            res == spec_black(),
    {
        Self::rgba(0, 0, 0, 255)
    }

    /// The same color with alpha `a`.
    pub fn alpha(self, a: u8) -> (res: Self)
        ensures
            res == (Color { a, ..self }),
    {
        Self::rgba(self.r, self.g, self.b, a)
    }

    pub fn to_rgba(self) -> (res: (u8, u8, u8, u8))
        ensures
            res == (self.r, self.g, self.b, self.a),
    {
        (self.r, self.g, self.b, self.a)
    }

    pub fn is_transparent(self) -> (res: bool)
        ensures
            res == (self.a == 0),
    {
        self.a == 0
    }

    /// Blends `self` as the source over `dst`.
    pub fn alpha_blend(self, dst: Self) -> (res: Self)
        ensures
            res == spec_alpha_blend(self, dst),
    {
        if dst.a == 0 {
            return self;
        } else if self.a == 0 {
            return dst;
        } else if self.a == 255 {
            return self;
        }
        proof {
            lemma_blend_bounds(self.r, self.a, dst.r, dst.a);
            lemma_blend_bounds(self.g, self.a, dst.g, dst.a);
            lemma_blend_bounds(self.b, self.a, dst.b, dst.a);
        }
        let sa = mul8(self.a, 255);
        let a = blend(sa, mul8(dst.a, 255), sa);
        let r = blend(mul8(self.r, self.a), mul8(dst.r, dst.a), sa);
        let g = blend(mul8(self.g, self.a), mul8(dst.g, dst.a), sa);
        let b = blend(mul8(self.b, self.a), mul8(dst.b, dst.a), sa);
        Color {
            r: unpremultiplied(r, a),
            g: unpremultiplied(g, a),
            b: unpremultiplied(b, a),
            a: (a / 255) as u8,
        }
    }
}

fn mul8(a: u8, b: u8) -> (r: u32)
    ensures
        r == a * b,
        r <= 255 * 255,
{
    proof {
        assert(a * b <= 255 * 255) by (nonlinear_arith) requires a <= 255, b <= 255;
    }
    a as u32 * b as u32
}

/// `s + d - d * a / 65025int` on the values that the blend feeds it.
fn blend(s: u32, d: u32, a: u32) -> (r: u32)
    requires
        s <= 255 * 255,
        d <= 255 * 255,
        a <= 255 * 255,
        0 <= blend_term(s as int, d as int, a as int) <= 255 * 255,
    ensures
        r == blend_term(s as int, d as int, a as int),
{
    proof {
        assert(d * a <= 255 * 255 * (255 * 255)) by (nonlinear_arith)
            requires d <= 255 * 255, a <= 255 * 255;
        assert(d * a / 65025int <= d) by (nonlinear_arith) requires a <= 255 * 255;
    }
    s + d - (d * a / (255 * 255))
}

fn unpremultiplied(c: u32, a: u32) -> (r: u8)
    requires
        0 <= c <= a <= 255 * 255,
        a > 0,
        unpremultiply(c as int, a as int) <= 255,
    ensures
        r == unpremultiply(c as int, a as int),
{
    proof {
        assert(c * 255 * 255 <= 255 * 255 * (255 * 255)) by (nonlinear_arith) requires c <= 255 * 255;
    }
    (c * 255 * 255 / a / 255) as u8
}

} // verus!
