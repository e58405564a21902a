//! Contrast adjustment of a raster image by lightness remapping, with a
//! side-by-side comparison canvas.
//!
//! The pipeline scans an image for its observed lightness range, stretches
//! every pixel's lightness linearly onto a target range derived from a
//! contrast parameter in `[-100, 100]`, and lays the original and the
//! adjusted pixels out next to each other in one double-width canvas.
//! Decoding and encoding image files is left to the caller; the library
//! works on plain pixel buffers.

pub mod analyze;
pub mod color;
pub mod compose;
pub mod error;
pub mod parse;
pub mod pipeline;
pub mod pixel;
pub mod remap;

pub use analyze::LightnessRange;
pub use compose::Canvas;
pub use error::ContrastError;
pub use pixel::{ImageBuffer, Pixel, Rgb8};
