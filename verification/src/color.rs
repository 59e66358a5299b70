//! Colour handling: averaging accumulated samples, the gamma-2 transform,
//! and quantization to 8-bit channels.  The serializer proper (writing the
//! text image format) lives outside the library; this module pins down the
//! value of every emitted channel.

use crate::fixed::{isqrt_spec, tdiv, Fx, SCALE};
use crate::interval::{clamp_spec, Interval};
use crate::vec3::{in_range, Vec3};
use vstd::prelude::*;

verus! {

/// A colour is a vector of three channel intensities (unbounded while
/// samples accumulate; `[0, 1]` for material albedos).
pub type Color = Vec3;

/// Largest channel value before quantization: just under one, so that a
/// full channel quantizes to 255.
pub const INTENSITY_MAX: i64 = 65470;

/// The linear-to-gamma transform (gamma 2): the square root, with negative
/// accumulators darkened to zero.
pub open spec fn gamma_spec(c: int) -> int {
    if c < 0 {
        0
    } else {
        isqrt_spec(c * SCALE)
    }
}

/// The emitted 8-bit value of one channel: average the accumulated samples,
/// gamma-correct, clamp to `[0, INTENSITY_MAX]` and keep the top 8 bits.
pub open spec fn quant_spec(c: int, samples: int) -> int
    recommends
        samples >= 1,
{
    clamp_spec(0, INTENSITY_MAX as int, gamma_spec(tdiv(c, samples))) / 256
}

/// One quantized pixel: three 8-bit channels.
#[derive(Clone, Copy, Debug, PartialEq, Eq, Structural)]
pub struct Rgb {
    pub r: u8,
    pub g: u8,
    pub b: u8,
}

/// The linear-to-gamma transform for one channel.
pub fn linear_to_gamma(color: Fx) -> (r: Fx)
    requires
        0 <= color@,
    ensures
        r@ == gamma_spec(color@),
{
    color.sqrt()
}

/// Average `samples_per_pixel` accumulated samples, gamma-correct, clamp
/// and quantize each channel to `[0, 255]`.
pub fn quantize_color(pixel_color: Color, samples_per_pixel: u32) -> (rgb: Rgb)
    requires
        1 <= samples_per_pixel,
        in_range(pixel_color@, 0x7ffffffffffffffe),
    ensures
        rgb.r == quant_spec(pixel_color@.x, samples_per_pixel as int),
        rgb.g == quant_spec(pixel_color@.y, samples_per_pixel as int),
        rgb.b == quant_spec(pixel_color@.z, samples_per_pixel as int),
{
    let r: u8 = quantize_channel(pixel_color.x(), samples_per_pixel);
    let g: u8 = quantize_channel(pixel_color.y(), samples_per_pixel);
    let b: u8 = quantize_channel(pixel_color.z(), samples_per_pixel);
    Rgb { r, g, b }
}

/// One channel of `quantize_color`.
fn quantize_channel(c: Fx, samples: u32) -> (r: u8)
    requires
        1 <= samples,
        c@ != i64::MIN,
    ensures
        r == quant_spec(c@, samples as int),
{
    let avg: Fx = c.div_int(samples as i64);
    let g: Fx = if avg.bits < 0 {
        Fx::zero()
    } else {
        avg.sqrt()
    };
    let intensity: Interval = Interval::with_bounds(Fx::zero(), Fx::from_bits(65470));
    let clamped: Fx = intensity.clamp(g);
    ((clamped.bits as u64) / 256) as u8
}

} // verus!
