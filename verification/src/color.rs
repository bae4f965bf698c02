//! Color mapping: smoothed iteration counts to RGB via the TURBO
//! gradient, with a reserved interior color.

use vstd::prelude::*;

verus! {

/// An RGB color, channels in red-green-blue order.
#[derive(Clone, Copy, PartialEq, Eq, Structural, Debug)]
pub struct Rgb {
    pub r: u8,
    pub g: u8,
    pub b: u8,
}

/// The color that the TURBO gradient takes at rational position
/// `i / (n - 1)` (with `i` clamped to `n - 1` by the gradient itself).
pub uninterp spec fn turbo_of(i: int, n: int) -> (u8, u8, u8);

/// Relies on `colorous::Gradient::eval_rational` for the TURBO scheme:
/// the sampled color depends only on `i` and `n` (the gradient table is
/// a program constant), and only `n == 0` panics.
#[verifier::external_body]
fn turbo_eval(i: usize, n: usize) -> (rgb: (u8, u8, u8))
    requires
        1 <= n,
    ensures
        rgb == turbo_of(i as int, n as int),
{
    let c = colorous::TURBO.eval_rational(i, n);
    (c.r, c.g, c.b)
}

/// The color assigned to a smoothed iteration count `iter` (scaled by
/// 256) under budget `max`: the reserved interior color black exactly on
/// the sentinel `256 * max`, and otherwise the TURBO gradient sampled at
/// the normalized, clamped position `iter / (256 * max)`.
pub open spec fn color_spec(iter: int, max: int) -> (u8, u8, u8) {
    if iter == 256 * max {
        (0u8, 0u8, 0u8)
    } else {
        let pos = if iter > 256 * max {
            256 * max
        } else {
            iter
        };
        turbo_of(pos, 256 * max + 1)
    }
}

/// Maps a smoothed iteration count (scaled by 256) to its color.
/// Exactly the interior sentinel `256 * max_iter` gives black; every
/// other count is normalized to `[0, 1]`, clamped, and fed to the
/// gradient. Pure: the result depends only on the two arguments.
pub fn iters_to_color(iter: u32, max_iter: u32) -> (rgb: Rgb)
    requires
        1 <= max_iter <= 0xFFFF,
    ensures
        (rgb.r, rgb.g, rgb.b) == color_spec(iter as int, max_iter as int),
        iter == 256 * max_iter ==> rgb == (Rgb { r: 0, g: 0, b: 0 }),
{
    let cap: u32 = 256 * max_iter;
    if iter == cap {
        Rgb { r: 0, g: 0, b: 0 }
    } else {
        let pos: u32 = if iter > cap {
            cap
        } else {
            iter
        };
        let c = turbo_eval(pos as usize, (cap + 1) as usize);
        Rgb { r: c.0, g: c.1, b: c.2 }
    }
}

} // verus!
