//! Color normalization: 8-bit RGB with a separate alpha fraction becomes the
//! normalized color model handed to the canvas. A normalized channel is the
//! exact fraction `num / 255`, held by its numerator, so the conversion is
//! loss-free up to 8-bit precision; alpha passes through unchanged.

use vstd::prelude::*;

verus! {

/// Denominator of the alpha fraction: an alpha of `ALPHA_ONE` is fully opaque.
pub const ALPHA_ONE: u16 = 0xFFFF;

/// An 8-bit RGB color plus an alpha fraction of `ALPHA_ONE`, as the drawing
/// protocol hands it in.
#[derive(Clone, Copy, PartialEq, Eq, Structural, Debug)]
pub struct InputColor {
    pub r: u8,
    pub g: u8,
    pub b: u8,
    pub alpha: u16,
}

/// A normalized color: each channel is the exact fraction `num / 255` in
/// `[0, 1]`, held by its numerator; alpha is a fraction of `ALPHA_ONE`.
#[derive(Clone, Copy, PartialEq, Eq, Structural, Debug)]
pub struct NormColor {
    pub r_num: u8,
    pub g_num: u8,
    pub b_num: u8,
    pub alpha: u16,
}

/// The normalized form of `c`: each channel divided by 255, exactly; alpha
/// unchanged.
pub open spec fn normalize_spec(c: InputColor) -> NormColor {
    NormColor { r_num: c.r, g_num: c.g, b_num: c.b, alpha: c.alpha }
}

/// The 8-bit form of `n`: each channel numerator multiplied back by 255 over
/// 255, exactly; alpha unchanged.
pub open spec fn denormalize_spec(n: NormColor) -> InputColor {
    InputColor { r: n.r_num, g: n.g_num, b: n.b_num, alpha: n.alpha }
}

/// Normalize an 8-bit RGB color with alpha into the canvas color model.
pub fn normalize(c: InputColor) -> (n: NormColor)
    ensures
        n == normalize_spec(c),
{
    NormColor { r_num: c.r, g_num: c.g, b_num: c.b, alpha: c.alpha }
}

/// Recover the 8-bit RGB color a normalized color came from.
pub fn denormalize(n: NormColor) -> (c: InputColor)
    ensures
        c == denormalize_spec(n),
{
    InputColor { r: n.r_num, g: n.g_num, b: n.b_num, alpha: n.alpha }
}

/// Color round trip: normalizing the 8-bit form of a normalized color gives
/// the color back exactly, and denormalizing a freshly normalized color gives
/// the 8-bit input back exactly, for every channel value and alpha.
pub proof fn lemma_color_round_trip(c: InputColor, n: NormColor)
    ensures
        normalize_spec(denormalize_spec(n)) == n,
        denormalize_spec(normalize_spec(c)) == c,
{
}

/// Fully opaque black, the default stroke color.
pub fn black() -> (n: NormColor)
    ensures
        n == (NormColor { r_num: 0, g_num: 0, b_num: 0, alpha: ALPHA_ONE }),
{
    NormColor { r_num: 0, g_num: 0, b_num: 0, alpha: ALPHA_ONE }
}

} // verus!
