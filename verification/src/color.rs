//! Branch selection for the pixel-wise RGB-to-HSV hue formula.
//!
//! The hue of an RGB sample is computed from whichever normalized channel is
//! maximal, with a fixed tie-break: a zero delta means gray, otherwise red is
//! tried first, then green, then blue. Which branch applies is decided by
//! comparisons alone, and comparisons on the raw 8-bit channels agree with
//! comparisons on the channels normalized to `[0, 1]`, since normalization
//! divides every channel by the same positive constant. The branch selection
//! is therefore integer logic and is verified here; the floating-point
//! arithmetic inside each branch stays with the caller.

use vstd::prelude::*;

use crate::matrix::Pixel;
use crate::matrix::PixelMatrix;

verus! {

/// Applies a sample transform to every pixel of a matrix: the pixel-wise map
/// behind color conversion. The result has the width and height of the input,
/// no cross-pixel dependency, and its sample `i` is an output the transform
/// allows for input sample `i`.
pub fn map_samples<T: Copy, U, F: Fn(Pixel<T>) -> Pixel<U>>(
    matrix: &PixelMatrix<T>,
    f: F,
) -> (m: PixelMatrix<U>)
    requires
        forall|p: Pixel<T>| call_requires(f, (p,)),
    ensures
        m.spec_width() == matrix.spec_width(),
        m.spec_height() == matrix.spec_height(),
        m.pixels().len() == matrix.pixels().len(),
        forall|i: int|
            0 <= i < m.pixels().len() ==> call_ensures(
                f,
                (matrix.pixels()[i],),
                #[trigger] m.pixels()[i],
            ),
{
    let data = matrix.samples();
    let count = data.len();
    let (width, height) = matrix.dimensions();
    let mut out: Vec<Pixel<U>> = Vec::new();
    let mut i: usize = 0;
    while i < count
        invariant
            forall|p: Pixel<T>| call_requires(f, (p,)),
            data@ == matrix.pixels(),
            count == data@.len(),
            i <= count,
            out@.len() == i,
            forall|k: int| 0 <= k < i ==> call_ensures(f, (data@[k],), #[trigger] out@[k]),
        decreases count - i,
    {
        let p = f(data[i]);
        out.push(p);
        i = i + 1;
    }
    PixelMatrix::from_parts(width, height, out)
}

/// Which arm of the hue formula applies to an RGB sample.
#[derive(Clone, Copy, Debug, PartialEq, Eq)]
pub enum HueBranch {
    /// All three channels are equal: the delta is zero and the hue is zero.
    Gray,
    /// Red is maximal (ties included): hue from `60 * (((g - b) / delta) mod 6)`.
    FromRed,
    /// Green is maximal and red is not: hue from `60 * ((b - r) / delta + 2)`.
    FromGreen,
    /// Blue alone is maximal: hue from `60 * ((r - g) / delta + 4)`.
    FromBlue,
}

/// The deterministic tie-break of the hue formula: gray when all channels are
/// equal; otherwise red, then green, then blue, the first that equals the
/// channel maximum.
pub open spec fn spec_hue_branch(r: u8, g: u8, b: u8) -> HueBranch {
    if r == g && g == b {
        HueBranch::Gray
    } else if r >= g && r >= b {
        HueBranch::FromRed
    } else if g >= r && g >= b {
        HueBranch::FromGreen
    } else {
        HueBranch::FromBlue
    }
}

/// Picks the hue-formula branch for one 8-bit RGB sample.
pub fn hue_branch(r: u8, g: u8, b: u8) -> (hb: HueBranch)
    ensures
        hb == spec_hue_branch(r, g, b),
{
    if r == g && g == b {
        HueBranch::Gray
    } else if r >= g && r >= b {
        HueBranch::FromRed
    } else if g >= r && g >= b {
        HueBranch::FromGreen
    } else {
        HueBranch::FromBlue
    }
}

} // verus!
