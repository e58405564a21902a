use contrast_compare::color::{lightness_milli, pixel_with_lightness};
use contrast_compare::pixel::Pixel;

fn px(r: u8, g: u8, b: u8) -> Pixel {
    Pixel { x: 0, y: 1, r, g, b }
}

#[test]
fn lightness_of_extremes() {
    assert_eq!(lightness_milli(0, 0, 0), 0);
    assert_eq!(lightness_milli(255, 255, 255), 100_000);
}

#[test]
fn lightness_exact_values() {
    // (max + min) / 2 scaled: pure red is exactly half lightness.
    assert_eq!(lightness_milli(255, 0, 0), 50_000);
    // mid gray: (128 + 128) * 10_000 / 51 rounded.
    assert_eq!(lightness_milli(128, 128, 128), 50_196);
    // (30 + 10) * 10_000 / 51 rounded.
    assert_eq!(lightness_milli(10, 20, 30), 7_843);
}

#[test]
fn relighting_to_zero_gives_black() {
    let q = pixel_with_lightness(&px(10, 200, 30), 0);
    assert_eq!((q.r, q.g, q.b), (0, 0, 0));
}

#[test]
fn relighting_gray_to_full_gives_white() {
    let q = pixel_with_lightness(&px(40, 40, 40), 100_000);
    assert_eq!((q.r, q.g, q.b), (255, 255, 255));
}

#[test]
fn relighting_keeps_coordinates() {
    let p = Pixel { x: 7, y: 3, r: 90, g: 10, b: 200 };
    let q = pixel_with_lightness(&p, 60_000);
    assert_eq!((q.x, q.y), (7, 3));
}

#[test]
fn round_trip_within_one_level_per_channel() {
    let samples: [(u8, u8, u8); 8] = [
        (0, 0, 0),
        (255, 255, 255),
        (10, 20, 30),
        (200, 100, 50),
        (128, 128, 128),
        (1, 2, 3),
        (250, 250, 5),
        (37, 99, 200),
    ];
    for &(r, g, b) in samples.iter() {
        let l = lightness_milli(r, g, b);
        let q = pixel_with_lightness(&px(r, g, b), l);
        assert!((q.r as i32 - r as i32).abs() <= 1, "r channel: {:?}", (r, g, b));
        assert!((q.g as i32 - g as i32).abs() <= 1, "g channel: {:?}", (r, g, b));
        assert!((q.b as i32 - b as i32).abs() <= 1, "b channel: {:?}", (r, g, b));
    }
}
