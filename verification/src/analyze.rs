//! Scanning an image for its observed lightness range.
//!
//! The two accumulators are deliberately seeded *inside* the theoretical
//! range: the minimum starts at 80_000 and the maximum at 20_000
//! (thousandths of a percent). An image whose lightness lies entirely
//! between the seeds therefore reports the seeds themselves at the ends it
//! never reaches, and an empty pixel set leaves both seeds unchanged, with
//! the reported minimum above the reported maximum. This asymmetry is part
//! of the observable behavior and is kept as it is.

use vstd::prelude::*;

use crate::color::lightness_milli;
use crate::color::lightness_milli_spec;
use crate::pixel::ImageBuffer;
use crate::pixel::Pixel;

verus! {

/// The observed lightness range of one image, in thousandths of a percent.
/// Both ends lie in `[0, 100_000]`; the minimum exceeds the maximum only
/// when the scanned pixel set was empty (the seeds untouched).
#[derive(Clone, Copy, PartialEq, Eq, Structural, Debug)]
pub struct LightnessRange {
    pub min_milli: u32,
    pub max_milli: u32,
}

impl LightnessRange {
    /// Both ends are lightness values.
    pub open spec fn wf(self) -> bool {
        self.min_milli <= 100_000 && self.max_milli <= 100_000
    }

    /// The linear stretch is undefined on a range of width zero.
    pub open spec fn degenerate(self) -> bool {
        self.min_milli == self.max_milli
    }
}

/// The smallest lightness among the samples, seeded with 80_000.
pub open spec fn seen_min(s: Seq<Pixel>) -> int
    decreases s.len(),
{
    if s.len() == 0 {
        80_000
    } else {
        let prev = seen_min(s.drop_last());
        let l = lightness_milli_spec(s.last().r, s.last().g, s.last().b);
        if l < prev {
            l
        } else {
            prev
        }
    }
}

/// The largest lightness among the samples, seeded with 20_000.
pub open spec fn seen_max(s: Seq<Pixel>) -> int
    decreases s.len(),
{
    if s.len() == 0 {
        20_000
    } else {
        let prev = seen_max(s.drop_last());
        let l = lightness_milli_spec(s.last().r, s.last().g, s.last().b);
        if l > prev {
            l
        } else {
            prev
        }
    }
}

/// The range covers the lightness of every scanned sample, and both ends
/// stay in `[0, 100_000]`.
pub proof fn lemma_seen_bounds(s: Seq<Pixel>)
    ensures
        0 <= seen_min(s) <= 80_000,
        0 <= seen_max(s) <= 100_000,
        forall|i: int|
            0 <= i < s.len() ==> seen_min(s) <= lightness_milli_spec(
                (#[trigger] s[i]).r,
                s[i].g,
                s[i].b,
            ) <= seen_max(s),
    decreases s.len(),
{
    if s.len() == 0 {
    } else {
        let prefix = s.drop_last();
        lemma_seen_bounds(prefix);
        crate::color::lemma_lightness_in_range(s.last().r, s.last().g, s.last().b);
        assert forall|i: int| 0 <= i < s.len() implies seen_min(s) <= lightness_milli_spec(
            (#[trigger] s[i]).r,
            s[i].g,
            s[i].b,
        ) <= seen_max(s) by {
            if i < s.len() - 1 {
                assert(prefix[i] == s[i]);
            } else {
                assert(s[i] == s.last());
            }
        }
    }
}

/// A scan over at least one sample reports an ordered range: the sample's
/// own lightness separates the two accumulators.
pub proof fn lemma_nonempty_range_ordered(s: Seq<Pixel>)
    requires
        s.len() > 0,
    ensures
        seen_min(s) <= seen_max(s),
{
    let l = lightness_milli_spec(s.last().r, s.last().g, s.last().b);
    assert(seen_min(s) <= l);
    assert(l <= seen_max(s));
}

/// Scan all pixels once and report the observed lightness range: it
/// covers the lightness of every pixel of the image.
pub fn analyze(img: &ImageBuffer) -> (range: LightnessRange)
    ensures
        range.min_milli == seen_min(img.points@),
        range.max_milli == seen_max(img.points@),
        range.wf(),
        forall|i: int|
            0 <= i < img.points@.len() ==> range.min_milli <= lightness_milli_spec(
                (#[trigger] img.points@[i]).r,
                img.points@[i].g,
                img.points@[i].b,
            ) <= range.max_milli,
{
    proof {
        lemma_seen_bounds(img.points@);
    }
    let mut min_found: u32 = 80_000;
    let mut max_found: u32 = 20_000;
    let n = img.points.len();
    let mut i: usize = 0;
    while i < n
        invariant
            n == img.points@.len(),
            0 <= i <= n,
            min_found == seen_min(img.points@.take(i as int)),
            max_found == seen_max(img.points@.take(i as int)),
            min_found <= 100_000,
            max_found <= 100_000,
        decreases n - i,
    {
        let p = &img.points[i];
        let l = lightness_milli(p.r, p.g, p.b);
        proof {
            let taken = img.points@.take(i as int + 1);
            assert(taken.drop_last() =~= img.points@.take(i as int));
            assert(taken.last() == img.points@[i as int]);
        }
        if l < min_found {
            min_found = l;
        }
        if l > max_found {
            max_found = l;
        }
        i += 1;
    }
    proof {
        assert(img.points@.take(n as int) =~= img.points@);
    }
    LightnessRange { min_milli: min_found, max_milli: max_found }
}

} // verus!
