//! Color-space handling: reading the HSL lightness of an RGB sample, and
//! replacing a sample's lightness while keeping its hue and saturation.
//!
//! Lightness is held throughout the crate as a fixed-point integer in
//! *thousandths of a percent*: 0 is black, 100_000 is white. The HSL
//! lightness of an RGB color is `(max + min) / 2` of its channels, scaled
//! from `[0, 255]` channel units to percent, and rounded to the nearest
//! thousandth of a percent here.

use vstd::prelude::*;

use colors_transform::Color;
use colors_transform::Rgb;

use crate::pixel::Pixel;
use crate::pixel::Rgb8;

verus! {

/// The largest of three channel values.
pub open spec fn max3(a: int, b: int, c: int) -> int {
    if a >= b && a >= c {
        a
    } else if b >= c {
        b
    } else {
        c
    }
}

/// The smallest of three channel values.
pub open spec fn min3(a: int, b: int, c: int) -> int {
    if a <= b && a <= c {
        a
    } else if b <= c {
        b
    } else {
        c
    }
}

/// HSL lightness of an RGB color, in thousandths of a percent, rounded to
/// the nearest unit: `(max + min) / 2` channel units, scaled by
/// `100_000 / 255`. Written over a common denominator, that is
/// `(max + min) * 10_000 / 51`, rounded.
pub open spec fn lightness_milli_spec(r: u8, g: u8, b: u8) -> int {
    ((max3(r as int, g as int, b as int) + min3(r as int, g as int, b as int)) * 10_000 + 25) / 51
}

/// The lightness of every color lies in `[0, 100_000]`.
pub proof fn lemma_lightness_in_range(r: u8, g: u8, b: u8)
    ensures
        0 <= lightness_milli_spec(r, g, b) <= 100_000,
{
    let s = max3(r as int, g as int, b as int) + min3(r as int, g as int, b as int);
    assert(0 <= s <= 510);
    assert(0 <= (s * 10_000 + 25) / 51 <= 100_000) by (nonlinear_arith)
        requires
            0 <= s <= 510,
    ;
}

/// HSL lightness of an RGB sample, in thousandths of a percent.
pub fn lightness_milli(r: u8, g: u8, b: u8) -> (l: u32)
    ensures
        l == lightness_milli_spec(r, g, b),
        l <= 100_000,
{
    let hi: u8 = if r >= g && r >= b {
        r
    } else if g >= b {
        g
    } else {
        b
    };
    let lo: u8 = if r <= g && r <= b {
        r
    } else if g <= b {
        g
    } else {
        b
    };
    let s: u32 = hi as u32 + lo as u32;
    proof {
        lemma_lightness_in_range(r, g, b);
    }
    (s * 10_000 + 25) / 51
}

/// The color that an RGB sample takes when its HSL lightness is replaced by
/// `l_milli` (thousandths of a percent) while hue and saturation are kept,
/// with each resulting channel truncated to 8 bits.
pub uninterp spec fn relit_rgb_of(r: u8, g: u8, b: u8, l_milli: u32) -> (u8, u8, u8);

/// Relies on `colors_transform`: `Rgb::from(..).to_hsl()` computes the HSL
/// form of the color, `Hsl::set_lightness(..)` replaces its lightness
/// (clamping the argument to `[0, 100]` percent) keeping hue and saturation,
/// and `Hsl::to_rgb()` converts back; every step is a function of the four
/// arguments alone. The body only converts at the edges of the call: the
/// fixed-point lightness becomes the crate's percent scale (truncated to an
/// even thousandth, below the crate's own resolution), and the returned
/// channels are truncated to 8 bits. The crate's source shows three plain
/// facts stated below: lightness 0 gives black whatever the hue and
/// saturation; a gray input has saturation 0, so it stays gray; and a gray
/// input raised to full lightness becomes exactly white.
#[verifier::external_body]
fn set_rgb_lightness(r: u8, g: u8, b: u8, l_milli: u32) -> (out: (u8, u8, u8))
    requires
        l_milli <= 100_000,
    ensures
        out == relit_rgb_of(r, g, b, l_milli),
        l_milli == 0 ==> out == (0u8, 0u8, 0u8),
        r == g && g == b ==> out.0 == out.1 && out.1 == out.2,
        r == g && g == b && l_milli == 100_000 ==> out == (255u8, 255u8, 255u8),
{
    let hsl = Rgb::from(r.into(), g.into(), b.into()).to_hsl();
    let half: u16 = (l_milli / 2) as u16;
    let scale: u16 = 500;
    let mut lf = hsl.get_lightness();
    let mut sf = hsl.get_lightness();
    lf = Into::into(half);
    sf = Into::into(scale);
    lf = lf / sf;
    let rgb = hsl.set_lightness(lf).to_rgb();
    (rgb.get_red() as u8, rgb.get_green() as u8, rgb.get_blue() as u8)
}

/// The sample `p` with its lightness replaced by `l_milli`, coordinates
/// kept.
pub fn pixel_with_lightness(p: &Pixel, l_milli: u32) -> (q: Pixel)
    requires
        l_milli <= 100_000,
    ensures
        q.x == p.x && q.y == p.y,
        (q.r, q.g, q.b) == relit_rgb_of(p.r, p.g, p.b, l_milli),
        l_milli == 0 ==> q.rgb() == (Rgb8 { r: 0, g: 0, b: 0 }),
        p.r == p.g && p.g == p.b ==> q.r == q.g && q.g == q.b,
        p.r == p.g && p.g == p.b && l_milli == 100_000 ==> q.rgb() == (Rgb8 {
            r: 255,
            g: 255,
            b: 255,
        }),
{
    let (r, g, b) = set_rgb_lightness(p.r, p.g, p.b, l_milli);
    Pixel { x: p.x, y: p.y, r, g, b }
}

} // verus!
