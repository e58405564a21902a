//! The pixel-level data model: one image sample, a decoded image, and a
//! plain 8-bit color value.

use vstd::prelude::*;

verus! {

/// One sample of an image.
///
/// Coordinates follow a bottom-up convention: `x` counts columns from the
/// left edge starting at 0, while `y` counts rows from the bottom edge
/// starting at 1 (a decoded row `row` of an image of height `h` lands at
/// `y == h - row`, so the top row has `y == h` and the bottom row `y == 1`).
/// The channels are 8-bit RGB, no alpha.
#[derive(Clone, Copy, PartialEq, Eq, Structural, Debug)]
pub struct Pixel {
    pub x: u32,
    pub y: u32,
    pub r: u8,
    pub g: u8,
    pub b: u8,
}

/// A plain 8-bit RGB color, as one cell of a composed canvas holds it.
#[derive(Clone, Copy, PartialEq, Eq, Structural, Debug)]
pub struct Rgb8 {
    pub r: u8,
    pub g: u8,
    pub b: u8,
}

/// One fully decoded image: positive dimensions and one `Pixel` per sample.
pub struct ImageBuffer {
    pub width: u32,
    pub height: u32,
    pub points: Vec<Pixel>,
}

impl Pixel {
    /// The coordinates lie inside an image of the given dimensions, in the
    /// bottom-up convention: `x` in `[0, width)` and `y` in `[1, height]`.
    pub open spec fn valid_for(self, width: int, height: int) -> bool {
        self.x < width && 1 <= self.y && self.y <= height
    }

    /// The color of this sample, without its coordinates.
    pub open spec fn rgb(self) -> Rgb8 {
        Rgb8 { r: self.r, g: self.g, b: self.b }
    }
}

/// The first of the two coordinate flips: a decoded raster row (top-down,
/// counted from 0) becomes the bottom-up `y` of a `Pixel`, so the top row
/// lands at `y == height` and the bottom row at `y == 1`. Composing the
/// canvas flips a second time and restores the top-down order.
pub fn flip_decoded_row(height: u32, row: u32) -> (y: u32)
    requires
        row < height,
    ensures
        y as int == height as int - row as int,
        1 <= y <= height,
{
    height - row
}

impl ImageBuffer {
    /// Dimensions are positive and every sample lies inside them.
    pub open spec fn wf(self) -> bool {
        &&& 1 <= self.width
        &&& 1 <= self.height
        &&& forall|i: int|
            0 <= i < self.points@.len() ==> (#[trigger] self.points@[i]).valid_for(
                self.width as int,
                self.height as int,
            )
    }
}

} // verus!
