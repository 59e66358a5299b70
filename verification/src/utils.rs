//! The renderer's source of randomness, and small scalar helpers.
//!
//! Randomness comes from `rand`'s thread-local generator, passed explicitly
//! into every sampling call.  The two wrappers below are the only gateway to
//! it: each states only that the drawn value lies in the requested range,
//! which is all `rand` promises, and every consumer is verified for every
//! value the wrapper may hand back.

use crate::fixed::{fx_div_spec, fx_mul_spec, Fx, SCALE};
use vstd::prelude::*;

verus! {

/// `rand`'s thread-local generator, declared so that verified signatures
/// can carry it.  Its insides stay opaque.
#[verifier::external_type_specification]
#[verifier::external_body]
pub struct ExThreadRng(rand::rngs::ThreadRng);

/// A uniform draw in `[0, 1)`.
///
/// Relies on `rand::Rng::gen_range` over the half-open raw range
/// `0..SCALE`: the result lies in the range, which is never empty.
#[verifier::external_body]
pub fn random_float(rng: &mut rand::rngs::ThreadRng) -> (r: Fx)
    ensures
        0 <= r@ < SCALE,
{
    Fx { bits: rand::Rng::gen_range(rng, 0i64..65536i64) }
}

/// A uniform draw in `[min, max)`.
///
/// Relies on `rand::Rng::gen_range` over the half-open raw range
/// `min..max`: the result lies in the range, which is non-empty because
/// `min < max`.
#[verifier::external_body]
pub fn random_float_range(rng: &mut rand::rngs::ThreadRng, min: Fx, max: Fx) -> (r: Fx)
    requires
        min@ < max@,
    ensures
        min@ <= r@ < max@,
{
    Fx { bits: rand::Rng::gen_range(rng, min.bits..max.bits) }
}

/// The angle of a full half-turn, in raw scalar steps.
pub const PI_BITS: i64 = 205887;

/// Degrees converted to radians: `d * PI / 180`, in fixed point.
pub open spec fn deg2rad_spec(d: int) -> int {
    fx_div_spec(fx_mul_spec(d, PI_BITS as int), 180 * (SCALE as int))
}

/// Convert an angle in degrees to radians.
pub fn degrees_to_radians(degrees: Fx) -> (r: Fx)
    requires
        -0x4000000 <= degrees@ <= 0x4000000,
    ensures
        r@ == deg2rad_spec(degrees@),
{
    proof {
        crate::fixed::lemma_fx_mul_bound(degrees@, PI_BITS as int, 0x4000000, 205887);
        crate::fixed::lemma_fx_div_bound(
            fx_mul_spec(degrees@, PI_BITS as int),
            180 * (SCALE as int),
            0x4000000int * 205887 / (SCALE as int),
            180int * (SCALE as int),
        );
    }
    degrees.mul(Fx { bits: 205887 }).div(Fx { bits: 180 * 65536 })
}

/// Fixed-point sine by its degree-7 Taylor polynomial (accurate within a
/// few steps on `[0, 1.5]` radians).
pub open spec fn sin_poly_spec(x: int) -> int {
    let x2 = fx_mul_spec(x, x);
    let x3 = fx_mul_spec(x2, x);
    let x5 = fx_mul_spec(x3, x2);
    let x7 = fx_mul_spec(x5, x2);
    x - fx_div_spec(x3, 6 * SCALE) + fx_div_spec(x5, 120 * SCALE) - fx_div_spec(
        x7,
        5040 * SCALE,
    )
}

/// Fixed-point cosine by its degree-8 Taylor polynomial.
pub open spec fn cos_poly_spec(x: int) -> int {
    let x2 = fx_mul_spec(x, x);
    let x4 = fx_mul_spec(x2, x2);
    let x6 = fx_mul_spec(x4, x2);
    let x8 = fx_mul_spec(x4, x4);
    SCALE - fx_div_spec(x2, 2 * SCALE) + fx_div_spec(x4, 24 * SCALE) - fx_div_spec(
        x6,
        720 * SCALE,
    ) + fx_div_spec(x8, 40320 * SCALE)
}

/// Fixed-point tangent: sine over cosine, with the cosine floored at a
/// small positive step so that fields of view close to a straight angle
/// saturate instead of dividing by zero.
pub open spec fn tan_spec(x: int) -> int {
    let s = sin_poly_spec(x);
    let c = cos_poly_spec(x);
    let cg = if c < 328 {
        328
    } else {
        c
    };
    fx_div_spec(s, cg)
}

/// The tangent of an angle in `[0, 1.5]` radians.
pub fn tan_fx(x: Fx) -> (r: Fx)
    requires
        0 <= x@ <= 0x18000,
    ensures
        r@ == tan_spec(x@),
        -0x4000000 <= r@ <= 0x4000000,
{
    proof {
        crate::fixed::lemma_fx_mul_bound(x@, x@, 0x18000, 0x18000);
    }
    let x2: Fx = x.mul(x);
    proof {
        crate::fixed::lemma_fx_mul_bound(x2@, x@, 0x24000, 0x18000);
    }
    let x3: Fx = x2.mul(x);
    proof {
        crate::fixed::lemma_fx_mul_bound(x3@, x2@, 0x36000, 0x24000);
        crate::fixed::lemma_fx_mul_bound(x2@, x2@, 0x24000, 0x24000);
    }
    let x5: Fx = x3.mul(x2);
    let x4: Fx = x2.mul(x2);
    proof {
        crate::fixed::lemma_fx_mul_bound(x5@, x2@, 0x7a000, 0x24000);
        crate::fixed::lemma_fx_mul_bound(x4@, x2@, 0x51000, 0x24000);
        crate::fixed::lemma_fx_mul_bound(x4@, x4@, 0x51000, 0x51000);
        crate::fixed::lemma_fx_div_bound(x3@, 6 * (SCALE as int), 0x36000, 6int * 65536);
        crate::fixed::lemma_fx_div_bound(x5@, 120 * (SCALE as int), 0x7a000, 120int * 65536);
    }
    let x7: Fx = x5.mul(x2);
    let x6: Fx = x4.mul(x2);
    let x8: Fx = x4.mul(x4);
    proof {
        crate::fixed::lemma_fx_div_bound(x7@, 5040 * (SCALE as int), 0x113000, 5040int * 65536);
        crate::fixed::lemma_fx_div_bound(x2@, 2 * (SCALE as int), 0x24000, 2int * 65536);
        crate::fixed::lemma_fx_div_bound(x4@, 24 * (SCALE as int), 0x51000, 24int * 65536);
        crate::fixed::lemma_fx_div_bound(x6@, 720 * (SCALE as int), 0xb7000, 720int * 65536);
        crate::fixed::lemma_fx_div_bound(x8@, 40320 * (SCALE as int), 0x19e000, 40320int * 65536);
    }
    let sin: Fx = x.sub(x3.div(Fx::from_int(6))).add(x5.div(Fx::from_int(120))).sub(
        x7.div(Fx::from_int(5040)),
    );
    let cos: Fx = Fx::one().sub(x2.div(Fx::from_int(2))).add(x4.div(Fx::from_int(24))).sub(
        x6.div(Fx::from_int(720)),
    ).add(x8.div(Fx::from_int(40320)));
    let cg: Fx = if cos.bits < 328 {
        Fx::from_bits(328)
    } else {
        cos
    };
    proof {
        crate::fixed::lemma_fx_div_bound(sin@, cg@, 0x40000, 328);
    }
    sin.div(cg)
}

} // verus!
