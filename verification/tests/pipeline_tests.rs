use contrast_compare::error::ContrastError;
use contrast_compare::pipeline::run_pipeline;
use contrast_compare::pixel::{ImageBuffer, Pixel};

fn black_and_white_two_by_one() -> ImageBuffer {
    let points = vec![
        Pixel { x: 0, y: 1, r: 0, g: 0, b: 0 },
        Pixel { x: 1, y: 1, r: 255, g: 255, b: 255 },
    ];
    ImageBuffer { width: 2, height: 1, points }
}

#[test]
fn zero_parameter_keeps_full_range_image() {
    let img = black_and_white_two_by_one();
    let canvas = run_pipeline(&img, 0).unwrap();
    assert_eq!(canvas.width, 4);
    assert_eq!(canvas.height, 1);
    // Left half: the original pixels.
    assert_eq!((canvas.data[0].r, canvas.data[0].g, canvas.data[0].b), (0, 0, 0));
    assert_eq!((canvas.data[1].r, canvas.data[1].g, canvas.data[1].b), (255, 255, 255));
    // Right half: the observed range is already the full scale, so the
    // stretch leaves black black and white white.
    assert_eq!((canvas.data[2].r, canvas.data[2].g, canvas.data[2].b), (0, 0, 0));
    assert_eq!((canvas.data[3].r, canvas.data[3].g, canvas.data[3].b), (255, 255, 255));
}

#[test]
fn flat_parameter_grays_everything() {
    let img = black_and_white_two_by_one();
    let canvas = run_pipeline(&img, -100).unwrap();
    // Both remapped pixels land at lightness 50 percent: mid gray within
    // one 8-bit level.
    for cell in [&canvas.data[2], &canvas.data[3]] {
        assert!((cell.r as i32 - 128).abs() <= 1);
        assert!((cell.g as i32 - 128).abs() <= 1);
        assert!((cell.b as i32 - 128).abs() <= 1);
        assert!(cell.r == cell.g && cell.g == cell.b);
    }
    // The original half is untouched.
    assert_eq!((canvas.data[0].r, canvas.data[0].g, canvas.data[0].b), (0, 0, 0));
    assert_eq!((canvas.data[1].r, canvas.data[1].g, canvas.data[1].b), (255, 255, 255));
}

#[test]
fn uniform_image_is_refused_as_degenerate() {
    let points = vec![
        Pixel { x: 0, y: 1, r: 77, g: 77, b: 77 },
        Pixel { x: 1, y: 1, r: 77, g: 77, b: 77 },
    ];
    let img = ImageBuffer { width: 2, height: 1, points };
    match run_pipeline(&img, 10) {
        Err(e) => assert_eq!(e, ContrastError::DegenerateRange),
        Ok(_) => panic!("a zero-width lightness range must be refused"),
    }
}

#[test]
fn empty_pixel_set_composes_blank_canvas() {
    let img = ImageBuffer { width: 1, height: 1, points: Vec::new() };
    let canvas = run_pipeline(&img, 0).unwrap();
    assert_eq!(canvas.width, 2);
    assert_eq!(canvas.height, 1);
    assert_eq!((canvas.data[0].r, canvas.data[0].g, canvas.data[0].b), (0, 0, 0));
    assert_eq!((canvas.data[1].r, canvas.data[1].g, canvas.data[1].b), (0, 0, 0));
}

#[test]
fn saturating_parameter_pushes_tails_out() {
    // Parameter 100 aims at the target range [-50, 150] percent: a pixel
    // in the darker fifth of the observed range lands below zero and
    // clamps to black, while the top of the range clamps to white.
    let points = vec![
        Pixel { x: 0, y: 1, r: 0, g: 0, b: 0 },
        Pixel { x: 1, y: 1, r: 50, g: 50, b: 50 },
        Pixel { x: 2, y: 1, r: 255, g: 255, b: 255 },
    ];
    let img = ImageBuffer { width: 3, height: 1, points };
    let canvas = run_pipeline(&img, 100).unwrap();
    assert_eq!((canvas.data[3].r, canvas.data[3].g, canvas.data[3].b), (0, 0, 0));
    assert_eq!((canvas.data[4].r, canvas.data[4].g, canvas.data[4].b), (0, 0, 0));
    assert_eq!((canvas.data[5].r, canvas.data[5].g, canvas.data[5].b), (255, 255, 255));
}
