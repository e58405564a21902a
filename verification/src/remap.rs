//! The contrast remap: a linear stretch of the observed lightness range
//! onto a target range derived from the contrast parameter.
//!
//! For a parameter `p` in `[-100, 100]`, the target range is
//! `[-p/2, 100 + p/2]` percent: `p == 0` stretches the observed range onto
//! the full `[0, 100]` (maximal contrast within the image's own extremes,
//! not a no-op); `p == 100` aims at `[-50, 150]`, so the tails saturate to
//! black and white; `p == -100` collapses the target to the single value
//! 50, flattening every pixel to mid lightness. All arithmetic is done in
//! thousandths of a percent on integers; the one division truncates toward
//! zero.

use vstd::prelude::*;

use crate::analyze::LightnessRange;
use crate::color::lightness_milli;
use crate::color::lightness_milli_spec;
use crate::color::pixel_with_lightness;
use crate::color::relit_rgb_of;
use crate::error::ContrastError;
use crate::pixel::ImageBuffer;
use crate::pixel::Pixel;

verus! {

/// Lower end of the target lightness range: `-p/2` percent, in thousandths.
pub open spec fn target_min_milli(param: int) -> int {
    -500 * param
}

/// Width of the target lightness range: `100 + p` percent, in thousandths.
/// Never negative for a parameter in `[-100, 100]`.
pub open spec fn target_span_milli(param: int) -> int {
    100_000 + 1000 * param
}

/// A value forced into `[0, 100_000]`.
pub open spec fn clamp_milli(v: int) -> int {
    if v < 0 {
        0
    } else if v > 100_000 {
        100_000
    } else {
        v
    }
}

/// The unclamped remap of lightness `l`: the distance of `l` from the
/// observed minimum, rescaled by `target span / observed span`, offset by
/// the target minimum. The quotient is truncated toward zero, so the two
/// sides of the observed minimum are written out separately.
pub open spec fn remap_raw_milli(l: int, lo: int, hi: int, param: int) -> int
    recommends
        lo < hi,
        -100 <= param <= 100,
{
    if l >= lo {
        target_min_milli(param) + ((l - lo) * target_span_milli(param)) / (hi - lo)
    } else {
        target_min_milli(param) - ((lo - l) * target_span_milli(param)) / (hi - lo)
    }
}

/// The remapped lightness of `l`, clamped to `[0, 100_000]`.
pub open spec fn remap_milli(l: int, lo: int, hi: int, param: int) -> int {
    clamp_milli(remap_raw_milli(l, lo, hi, param))
}

/// Clamping keeps every remapped lightness inside `[0, 100_000]`, whatever
/// the inputs were.
pub proof fn lemma_remap_in_bounds(l: int, lo: int, hi: int, param: int)
    ensures
        0 <= remap_milli(l, lo, hi, param) <= 100_000,
{
}

/// Apply the linear stretch to one lightness value.
pub fn remap_lightness(l: u32, lo: u32, hi: u32, param: i16) -> (res: u32)
    requires
        l <= 100_000,
        lo <= 100_000,
        hi <= 100_000,
        lo < hi,
        -100 <= param <= 100,
    ensures
        res == remap_milli(l as int, lo as int, hi as int, param as int),
        res <= 100_000,
{
    let d: u64 = (hi - lo) as u64;
    let span: i64 = 100_000 + 1000 * (param as i64);
    let f: u64 = span as u64;
    let tmin: i64 = -500 * (param as i64);
    let raw: i64 = if l >= lo {
        let diff: u64 = (l - lo) as u64;
        proof {
            assert((diff as int) * (f as int) <= 20_000_000_000) by (nonlinear_arith)
                requires
                    diff as int <= 100_000,
                    f as int <= 200_000,
            ;
            assert(((diff as int) * (f as int)) / (d as int) <= (diff as int) * (f as int))
                by (nonlinear_arith)
                requires
                    d as int >= 1,
                    (diff as int) * (f as int) >= 0,
            ;
        }
        let q: u64 = (diff * f) / d;
        tmin + q as i64
    } else {
        let diff: u64 = (lo - l) as u64;
        proof {
            assert((diff as int) * (f as int) <= 20_000_000_000) by (nonlinear_arith)
                requires
                    diff as int <= 100_000,
                    f as int <= 200_000,
            ;
            assert(((diff as int) * (f as int)) / (d as int) <= (diff as int) * (f as int))
                by (nonlinear_arith)
                requires
                    d as int >= 1,
                    (diff as int) * (f as int) >= 0,
            ;
        }
        let q: u64 = (diff * f) / d;
        tmin - q as i64
    };
    if raw < 0 {
        0
    } else if raw > 100_000 {
        100_000
    } else {
        raw as u32
    }
}

/// A parameter of `-100` collapses the target range to the single value
/// 50 percent: every lightness, wherever it lay in a proper observed
/// range, is remapped to exactly 50_000.
pub proof fn lemma_flat_param_collapses(l: int, lo: int, hi: int)
    requires
        lo < hi,
    ensures
        remap_milli(l, lo, hi, -100) == 50_000,
{
    let d = hi - lo;
    assert(target_span_milli(-100) == 0);
    if l >= lo {
        assert((l - lo) * 0 == 0) by (nonlinear_arith);
        assert(0int / d == 0) by (nonlinear_arith)
            requires
                d >= 1,
        ;
    } else {
        assert((lo - l) * 0 == 0) by (nonlinear_arith);
        assert(0int / d == 0) by (nonlinear_arith)
            requires
                d >= 1,
        ;
    }
}

/// A parameter of `0` stretches the observed range onto the full scale:
/// the observed minimum is remapped to 0 and the observed maximum to
/// 100_000, for any proper observed range.
pub proof fn lemma_full_stretch_hits_ends(lo: int, hi: int)
    requires
        lo < hi,
    ensures
        remap_milli(lo, lo, hi, 0) == 0,
        remap_milli(hi, lo, hi, 0) == 100_000,
    {
    let d = hi - lo;
    assert(target_min_milli(0) == 0);
    assert(target_span_milli(0) == 100_000);
    assert((lo - lo) * 100_000 == 0) by (nonlinear_arith);
    assert(0int / d == 0) by (nonlinear_arith)
        requires
            d >= 1,
    ;
    assert((d * 100_000) / d == 100_000) by (nonlinear_arith)
        requires
            d >= 1,
    ;
}

/// The sample `p` remapped: same coordinates, lightness stretched and the
/// color rebuilt around it.
pub open spec fn remapped_pixel_spec(p: Pixel, lo: int, hi: int, param: int) -> Pixel {
    let t = relit_rgb_of(
        p.r,
        p.g,
        p.b,
        remap_milli(lightness_milli_spec(p.r, p.g, p.b), lo, hi, param) as u32,
    );
    Pixel { x: p.x, y: p.y, r: t.0, g: t.1, b: t.2 }
}

/// Remap every pixel of the image through the observed range.
///
/// The range must have been observed on an image with the same pixel set
/// (so the minimum can exceed the maximum only when there are no pixels at
/// all, in which case the result is empty whatever the range says). A range
/// of width zero makes the stretch factor undefined; the call then reports
/// `ContrastError::DegenerateRange` rather than picking a value.
pub fn remap_image(img: &ImageBuffer, range: &LightnessRange, param: i16) -> (res: Result<
    Vec<Pixel>,
    ContrastError,
>)
    requires
        range.wf(),
        -100 <= param <= 100,
        img.points@.len() > 0 ==> range.min_milli <= range.max_milli,
    ensures
        res is Err <==> img.points@.len() > 0 && range.degenerate(),
        res == Err::<Vec<Pixel>, ContrastError>(ContrastError::DegenerateRange) <==> (
        img.points@.len() > 0 && range.degenerate()),
        res matches Ok(out) ==> {
            &&& out@.len() == img.points@.len()
            &&& forall|i: int|
                0 <= i < out@.len() ==> out@[i] == remapped_pixel_spec(
                    #[trigger] img.points@[i],
                    range.min_milli as int,
                    range.max_milli as int,
                    param as int,
                )
        },
{
    let n = img.points.len();
    if n > 0 && range.min_milli == range.max_milli {
        return Err(ContrastError::DegenerateRange);
    }
    let mut out: Vec<Pixel> = Vec::new();
    let mut i: usize = 0;
    while i < n
        invariant
            n == img.points@.len(),
            0 <= i <= n,
            n > 0 ==> range.min_milli < range.max_milli,
            range.wf(),
            -100 <= param <= 100,
            out@.len() == i,
            forall|j: int|
                0 <= j < i ==> out@[j] == remapped_pixel_spec(
                    #[trigger] img.points@[j],
                    range.min_milli as int,
                    range.max_milli as int,
                    param as int,
                ),
        decreases n - i,
    {
        let p = &img.points[i];
        let l = lightness_milli(p.r, p.g, p.b);
        let new_l = remap_lightness(l, range.min_milli, range.max_milli, param);
        let q = pixel_with_lightness(p, new_l);
        out.push(q);
        i += 1;
    }
    Ok(out)
}

} // verus!
