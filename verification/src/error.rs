//! The ways the pipeline can refuse its input. Each failure is terminal:
//! the caller reports it in its own words and writes no output.

use vstd::prelude::*;

verus! {

/// Why a run produced no canvas.
#[derive(Clone, Copy, PartialEq, Eq, Structural, Debug)]
pub enum ContrastError {
    /// The contrast value was not a 16-bit signed integer.
    InputParse,
    /// The contrast value was an integer outside `[-100, 100]`.
    OutOfRange,
    /// The observed lightness range had width zero, so the stretch factor
    /// is undefined.
    DegenerateRange,
}

} // verus!
