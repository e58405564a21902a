use contrast_compare::analyze::analyze;
use contrast_compare::pixel::{ImageBuffer, Pixel};
use contrast_compare::remap::remap_lightness;

#[test]
fn analyzer_seeds_survive_empty_scan() {
    let img = ImageBuffer { width: 1, height: 1, points: Vec::new() };
    let range = analyze(&img);
    assert_eq!(range.min_milli, 80_000);
    assert_eq!(range.max_milli, 20_000);
}

#[test]
fn analyzer_finds_extremes() {
    let points = vec![
        Pixel { x: 0, y: 1, r: 0, g: 0, b: 0 },
        Pixel { x: 1, y: 1, r: 255, g: 255, b: 255 },
    ];
    let img = ImageBuffer { width: 2, height: 1, points };
    let range = analyze(&img);
    assert_eq!(range.min_milli, 0);
    assert_eq!(range.max_milli, 100_000);
}

#[test]
fn analyzer_collapses_on_single_mid_pixel() {
    // One mid-gray pixel: lightness 50_196 lies between the seeds, so it
    // replaces both of them and the range degenerates.
    let points = vec![Pixel { x: 0, y: 1, r: 128, g: 128, b: 128 }];
    let img = ImageBuffer { width: 1, height: 1, points };
    let range = analyze(&img);
    assert_eq!(range.min_milli, 50_196);
    assert_eq!(range.max_milli, 50_196);
}

#[test]
fn analyzer_keeps_an_unreached_seed() {
    // A bright-only image never pushes the minimum below its 80 percent
    // seed: the reported lower end is the seed, not the true minimum.
    let points = vec![Pixel { x: 0, y: 1, r: 240, g: 240, b: 240 }];
    let img = ImageBuffer { width: 1, height: 1, points };
    let range = analyze(&img);
    assert_eq!(range.min_milli, 80_000);
    assert_eq!(range.max_milli, 94_118);
}

#[test]
fn zero_parameter_stretches_to_full_scale() {
    assert_eq!(remap_lightness(7_843, 7_843, 91_234, 0), 0);
    assert_eq!(remap_lightness(91_234, 7_843, 91_234, 0), 100_000);
    assert_eq!(remap_lightness(50_000, 40_000, 60_000, 0), 50_000);
}

#[test]
fn flat_parameter_collapses_everything_to_mid() {
    assert_eq!(remap_lightness(0, 100, 99_999, -100), 50_000);
    assert_eq!(remap_lightness(12_345, 100, 99_999, -100), 50_000);
    assert_eq!(remap_lightness(99_999, 100, 99_999, -100), 50_000);
}

#[test]
fn full_parameter_saturates_the_tails() {
    // Target range [-50, 150] percent: the ends clamp to pure black/white.
    assert_eq!(remap_lightness(0, 0, 100_000, 100), 0);
    assert_eq!(remap_lightness(100_000, 0, 100_000, 100), 100_000);
    // The midpoint stays in the middle: 50_000 * 2 - 50_000.
    assert_eq!(remap_lightness(50_000, 0, 100_000, 100), 50_000);
    // A quarter of the way maps to 25_000 * 2 - 50_000 = 0.
    assert_eq!(remap_lightness(25_000, 0, 100_000, 100), 0);
}

#[test]
fn output_is_always_clamped() {
    for l in [0u32, 10_000, 50_000, 90_000, 100_000] {
        for p in [-100i16, -50, 0, 50, 100] {
            let out = remap_lightness(l, 30_000, 60_000, p);
            assert!(out <= 100_000);
        }
    }
}
