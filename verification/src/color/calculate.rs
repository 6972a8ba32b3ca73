//! Plain color values and the blending arithmetic on them.

use image::Pixel;
use vstd::prelude::*;

verus! {

/// One RGBA color, 8 bits per channel.
#[derive(Clone, Copy, PartialEq, Eq, Structural, Debug)]
pub struct Rgba {
    pub r: u8,
    pub g: u8,
    pub b: u8,
    pub a: u8,
}

/// One RGB color, 8 bits per channel.
#[derive(Clone, Copy, PartialEq, Eq, Structural, Debug)]
pub struct Rgb {
    pub r: u8,
    pub g: u8,
    pub b: u8,
}

impl Rgba {
    pub fn new(r: u8, g: u8, b: u8, a: u8) -> (c: Self)
        ensures
            c == (Rgba { r, g, b, a }),
    {
        Rgba { r, g, b, a }
    }

    /// The fully transparent black, the absence of any sample.
    pub fn transparent() -> (c: Self)
        ensures
            c == (Rgba { r: 0, g: 0, b: 0, a: 0 }),
    {
        Rgba { r: 0, g: 0, b: 0, a: 0 }
    }

    /// The channels as one tuple of plain bytes.
    pub open spec fn tup(self) -> (u8, u8, u8, u8) {
        (self.r, self.g, self.b, self.a)
    }
}

impl Rgb {
    pub fn new(r: u8, g: u8, b: u8) -> (c: Self)
        ensures
            c == (Rgb { r, g, b }),
    {
        Rgb { r, g, b }
    }
}

/// Integer source-over compositing of `fg` onto `bg`: each channel is the
/// 255-denominator weighted mix, and the result keeps the larger alpha.
pub open spec fn spec_blend(bg: Rgba, fg: Rgba) -> Rgba {
    let ia = 255 - fg.a;
    Rgba {
        r: ((bg.r * ia + fg.r * fg.a) / 255) as u8,
        g: ((bg.g * ia + fg.g * fg.a) / 255) as u8,
        b: ((bg.b * ia + fg.b * fg.a) / 255) as u8,
        a: if bg.a >= fg.a {
            bg.a
        } else {
            fg.a
        },
    }
}

/// Composites `fg` over `bg` in place, exactly as [`spec_blend`] says.
pub fn blend(bg: &mut Rgba, fg: &Rgba)
    ensures
        *final(bg) == spec_blend(*old(bg), *fg),
{
    proof {
        lemma_byte_mul_bound(bg.r as int, 255 - fg.a);
        lemma_byte_mul_bound(bg.g as int, 255 - fg.a);
        lemma_byte_mul_bound(bg.b as int, 255 - fg.a);
        lemma_byte_mul_bound(fg.r as int, fg.a as int);
        lemma_byte_mul_bound(fg.g as int, fg.a as int);
        lemma_byte_mul_bound(fg.b as int, fg.a as int);
    }
    let r0 = bg.r as u32;
    let g0 = bg.g as u32;
    let b0 = bg.b as u32;
    let a0 = bg.a as u32;
    let r1 = fg.r as u32;
    let g1 = fg.g as u32;
    let b1 = fg.b as u32;
    let a1 = fg.a as u32;
    let ia1 = 255 - a1;
    let r = (r0 * ia1 + r1 * a1) / 255;
    let g = (g0 * ia1 + g1 * a1) / 255;
    let b = (b0 * ia1 + b1 * a1) / 255;
    let a = if a0 >= a1 {
        a0
    } else {
        a1
    };
    bg.r = r as u8;
    bg.g = g as u8;
    bg.b = b as u8;
    bg.a = a as u8;
}

/// Scales the RGB channels of `a` by `b`, 255 meaning identity; alpha is
/// kept.
pub open spec fn spec_color_mul(a: Rgba, b: Rgb) -> Rgba {
    Rgba {
        r: ((a.r * b.r) / 255) as u8,
        g: ((a.g * b.g) / 255) as u8,
        b: ((a.b * b.b) / 255) as u8,
        a: a.a,
    }
}

/// Multiplies the color channels of `a` by the tint `b`.
pub fn color_mul(a: Rgba, b: Rgb) -> (c: Rgba)
    ensures
        c == spec_color_mul(a, b),
{
    proof {
        lemma_byte_mul_bound(a.r as int, b.r as int);
        lemma_byte_mul_bound(a.g as int, b.g as int);
        lemma_byte_mul_bound(a.b as int, b.b as int);
    }
    Rgba {
        r: ((a.r as u16 * b.r as u16) / 255) as u8,
        g: ((a.g as u16 * b.g as u16) / 255) as u8,
        b: ((a.b as u16 * b.b as u16) / 255) as u8,
        a: a.a,
    }
}

/// The product of two byte-sized factors stays within a 16-bit word.
pub proof fn lemma_byte_mul_bound(x: int, y: int)
    requires
        0 <= x <= 255,
        0 <= y <= 255,
    ensures
        0 <= x * y <= 65025,
{
    assert(0 <= x * y <= 65025) by (nonlinear_arith)
        requires
            0 <= x <= 255,
            0 <= y <= 255,
    ;
}

/// The color that the raster library's source-over compositing produces; it
/// depends on the two input colors alone.
pub uninterp spec fn blend_of(bg: (u8, u8, u8, u8), fg: (u8, u8, u8, u8)) -> (u8, u8, u8, u8);

/// Relies on `image::Pixel::blend` for `Rgba<u8>`: a fully transparent
/// foreground leaves the background, a fully opaque one replaces it, and any
/// other mix is the library's source-over compositing.
#[verifier::external_body]
pub(crate) fn blend_px(bg: Rgba, fg: Rgba) -> (c: Rgba)
    ensures
        c.tup() == blend_of(bg.tup(), fg.tup()),
        fg.a == 0 ==> c == bg,
        fg.a == 255 ==> c == fg,
{
    let mut p = image::Rgba([bg.r, bg.g, bg.b, bg.a]);
    p.blend(&image::Rgba([fg.r, fg.g, fg.b, fg.a]));
    Rgba { r: p.0[0], g: p.0[1], b: p.0[2], a: p.0[3] }
}

} // verus!
