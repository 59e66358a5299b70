//! Three-component vectors over the fixed-point scalar.
//!
//! A vector doubles as a point (`Point3`) and as an unbounded colour
//! (`Color`).  Every operation's result is pinned to a spec function over
//! `V3`, the mathematical image of a vector: three raw scalar values.

use crate::fixed::{
    fx_div_spec, fx_mul_spec, iabs, isqrt_spec, lemma_fx_mul_bound, lemma_isqrt_spec_brackets, Fx,
    SCALE,
};
use vstd::arithmetic::div_mod::{
    lemma_div_is_ordered, lemma_div_multiples_vanish, lemma_fundamental_div_mod, lemma_mod_bound,
};
use vstd::prelude::*;

verus! {

/// Mathematical image of a vector: the three raw scalar values.
pub struct V3 {
    pub x: int,
    pub y: int,
    pub z: int,
}

/// Every component's magnitude is at most `b`.
pub open spec fn in_range(v: V3, b: int) -> bool {
    &&& -b <= v.x <= b
    &&& -b <= v.y <= b
    &&& -b <= v.z <= b
}

pub open spec fn v3_add(a: V3, b: V3) -> V3 {
    V3 { x: a.x + b.x, y: a.y + b.y, z: a.z + b.z }
}

pub open spec fn v3_sub(a: V3, b: V3) -> V3 {
    V3 { x: a.x - b.x, y: a.y - b.y, z: a.z - b.z }
}

pub open spec fn v3_neg(a: V3) -> V3 {
    V3 { x: -a.x, y: -a.y, z: -a.z }
}

/// Scaling by a scalar, component by component.
pub open spec fn v3_scale(a: V3, t: int) -> V3 {
    V3 { x: fx_mul_spec(a.x, t), y: fx_mul_spec(a.y, t), z: fx_mul_spec(a.z, t) }
}

/// Component-wise product (used for colour attenuation).
pub open spec fn v3_mul(a: V3, b: V3) -> V3 {
    V3 { x: fx_mul_spec(a.x, b.x), y: fx_mul_spec(a.y, b.y), z: fx_mul_spec(a.z, b.z) }
}

/// Division by a scalar, component by component.
pub open spec fn v3_div(a: V3, t: int) -> V3
    recommends
        t != 0,
{
    V3 { x: fx_div_spec(a.x, t), y: fx_div_spec(a.y, t), z: fx_div_spec(a.z, t) }
}

/// The fixed-point dot product.
pub open spec fn dot_spec(a: V3, b: V3) -> int {
    fx_mul_spec(a.x, b.x) + fx_mul_spec(a.y, b.y) + fx_mul_spec(a.z, b.z)
}

/// The fixed-point cross product.
pub open spec fn cross_spec(a: V3, b: V3) -> V3 {
    V3 {
        x: fx_mul_spec(a.y, b.z) - fx_mul_spec(a.z, b.y),
        y: fx_mul_spec(a.z, b.x) - fx_mul_spec(a.x, b.z),
        z: fx_mul_spec(a.x, b.y) - fx_mul_spec(a.y, b.x),
    }
}

/// The fixed-point squared length.
pub open spec fn norm2_spec(a: V3) -> int {
    dot_spec(a, a)
}

/// The fixed-point length: square root of the squared length.
pub open spec fn len_spec(a: V3) -> int {
    isqrt_spec(norm2_spec(a) * SCALE)
}

/// The fixed-point normalization: each component divided by the length.
pub open spec fn unit_spec(a: V3) -> V3 {
    v3_div(a, len_spec(a))
}

/// The fixed-point mirror reflection `v - 2 * dot(v, n) * n`.
pub open spec fn reflect_spec(v: V3, n: V3) -> V3 {
    v3_sub(v, v3_scale(n, 2 * dot_spec(v, n)))
}

/// The resolution floor for `near_zero`: raw steps below which a component
/// counts as vanishing.
pub const NEAR_EPS: i64 = 256;

/// All three components are below the resolution floor in magnitude.
pub open spec fn near_zero_spec(v: V3) -> bool {
    &&& -256 < v.x < 256
    &&& -256 < v.y < 256
    &&& -256 < v.z < 256
}

/// A vector of three fixed-point scalars; also a point or a colour.
#[derive(Clone, Copy, Debug, PartialEq, Eq, Structural)]
pub struct Vec3 {
    pub ex: Fx,
    pub ey: Fx,
    pub ez: Fx,
}

/// Alias for geometric clarity.
pub type Point3 = Vec3;

impl View for Vec3 {
    type V = V3;

    open spec fn view(&self) -> V3 {
        V3 { x: self.ex@, y: self.ey@, z: self.ez@ }
    }
}

impl Vec3 {
    pub fn new(e0: Fx, e1: Fx, e2: Fx) -> (r: Vec3)
        ensures
            r@ == (V3 { x: e0@, y: e1@, z: e2@ }),
    {
        Vec3 { ex: e0, ey: e1, ez: e2 }
    }

    /// The zero vector.
    pub fn zero() -> (r: Vec3)
        ensures
            r@ == (V3 { x: 0, y: 0, z: 0 }),
    {
        Vec3 { ex: Fx::zero(), ey: Fx::zero(), ez: Fx::zero() }
    }

    pub fn x(&self) -> (r: Fx)
        ensures
            r@ == self@.x,
    {
        self.ex
    }

    pub fn y(&self) -> (r: Fx)
        ensures
            r@ == self@.y,
    {
        self.ey
    }

    pub fn z(&self) -> (r: Fx)
        ensures
            r@ == self@.z,
    {
        self.ez
    }

    pub fn add(self, rhs: Vec3) -> (r: Vec3)
        requires
            i64::MIN <= self@.x + rhs@.x <= i64::MAX,
            i64::MIN <= self@.y + rhs@.y <= i64::MAX,
            i64::MIN <= self@.z + rhs@.z <= i64::MAX,
        ensures
            r@ == v3_add(self@, rhs@),
    {
        Vec3 { ex: self.ex.add(rhs.ex), ey: self.ey.add(rhs.ey), ez: self.ez.add(rhs.ez) }
    }

    pub fn sub(self, rhs: Vec3) -> (r: Vec3)
        requires
            i64::MIN <= self@.x - rhs@.x <= i64::MAX,
            i64::MIN <= self@.y - rhs@.y <= i64::MAX,
            i64::MIN <= self@.z - rhs@.z <= i64::MAX,
        ensures
            r@ == v3_sub(self@, rhs@),
    {
        Vec3 { ex: self.ex.sub(rhs.ex), ey: self.ey.sub(rhs.ey), ez: self.ez.sub(rhs.ez) }
    }

    pub fn neg(self) -> (r: Vec3)
        requires
            self@.x != i64::MIN,
            self@.y != i64::MIN,
            self@.z != i64::MIN,
        ensures
            r@ == v3_neg(self@),
    {
        Vec3 { ex: self.ex.neg(), ey: self.ey.neg(), ez: self.ez.neg() }
    }

    /// Scale by a scalar.
    pub fn scale(self, t: Fx) -> (r: Vec3)
        requires
            -0x7fffffffffffffff <= fx_mul_spec(self@.x, t@) <= 0x7fffffffffffffff,
            -0x7fffffffffffffff <= fx_mul_spec(self@.y, t@) <= 0x7fffffffffffffff,
            -0x7fffffffffffffff <= fx_mul_spec(self@.z, t@) <= 0x7fffffffffffffff,
        ensures
            r@ == v3_scale(self@, t@),
    {
        Vec3 { ex: self.ex.mul(t), ey: self.ey.mul(t), ez: self.ez.mul(t) }
    }

    /// Component-wise product.
    pub fn mul(self, rhs: Vec3) -> (r: Vec3)
        requires
            -0x7fffffffffffffff <= fx_mul_spec(self@.x, rhs@.x) <= 0x7fffffffffffffff,
            -0x7fffffffffffffff <= fx_mul_spec(self@.y, rhs@.y) <= 0x7fffffffffffffff,
            -0x7fffffffffffffff <= fx_mul_spec(self@.z, rhs@.z) <= 0x7fffffffffffffff,
        ensures
            r@ == v3_mul(self@, rhs@),
    {
        Vec3 { ex: self.ex.mul(rhs.ex), ey: self.ey.mul(rhs.ey), ez: self.ez.mul(rhs.ez) }
    }

    /// Divide by a scalar.
    pub fn div(self, t: Fx) -> (r: Vec3)
        requires
            t@ != 0,
            -0x7fffffffffffffff <= fx_div_spec(self@.x, t@) <= 0x7fffffffffffffff,
            -0x7fffffffffffffff <= fx_div_spec(self@.y, t@) <= 0x7fffffffffffffff,
            -0x7fffffffffffffff <= fx_div_spec(self@.z, t@) <= 0x7fffffffffffffff,
        ensures
            r@ == v3_div(self@, t@),
    {
        Vec3 { ex: self.ex.div(t), ey: self.ey.div(t), ez: self.ez.div(t) }
    }

    /// The squared Euclidean length; never negative.
    pub fn length_squared(&self) -> (r: Fx)
        requires
            in_range(self@, 0x4000000000),
        ensures
            r@ == norm2_spec(self@),
            0 <= r@ <= 0x3000000000000000,
    {
        proof {
            lemma_norm2_bound(self@, 0x4000000000);
        }
        self.ex.mul(self.ex).add(self.ey.mul(self.ey)).add(self.ez.mul(self.ez))
    }

    /// The Euclidean length, rounded down; never negative.
    pub fn length(&self) -> (r: Fx)
        requires
            in_range(self@, 0x4000000000),
        ensures
            r@ == len_spec(self@),
            0 <= r@,
    {
        self.length_squared().sqrt()
    }

    /// Whether the vector is too close to zero to be normalized: every
    /// component's magnitude is below the resolution floor `NEAR_EPS`.
    pub fn near_zero(&self) -> (r: bool)
        ensures
            r == near_zero_spec(self@),
    {
        -256 < self.ex.bits && self.ex.bits < 256 && -256 < self.ey.bits && self.ey.bits < 256
            && -256 < self.ez.bits && self.ez.bits < 256
    }
}

/// The dot product of `u` and `v`.
pub fn dot(u: Vec3, v: Vec3) -> (r: Fx)
    requires
        in_range(u@, 0x4000000000),
        in_range(v@, 0x4000000000),
    ensures
        r@ == dot_spec(u@, v@),
{
    proof {
        lemma_dot_bound(u@, v@, 0x4000000000, 0x4000000000);
    }
    u.ex.mul(v.ex).add(u.ey.mul(v.ey)).add(u.ez.mul(v.ez))
}

/// The cross product of `u` and `v`.
pub fn cross(u: Vec3, v: Vec3) -> (r: Vec3)
    requires
        in_range(u@, 0x4000000000),
        in_range(v@, 0x4000000000),
    ensures
        r@ == cross_spec(u@, v@),
{
    proof {
        lemma_cross_fits(u@, v@, 0x4000000000, 0x4000000000);
    }
    Vec3 {
        ex: u.ey.mul(v.ez).sub(u.ez.mul(v.ey)),
        ey: u.ez.mul(v.ex).sub(u.ex.mul(v.ez)),
        ez: u.ex.mul(v.ey).sub(u.ey.mul(v.ex)),
    }
}

/// Normalize `v` to (fixed-point) unit length.  The squared length must be
/// at least one raw step, else the quotient would be degenerate.
pub fn unit_vector(v: Vec3) -> (r: Vec3)
    requires
        in_range(v@, 0x4000000000),
        norm2_spec(v@) >= 1,
    ensures
        r@ == unit_spec(v@),
        in_range(r@, 2 * SCALE),
{
    let n2: Fx = v.length_squared();
    let len: Fx = n2.sqrt();
    proof {
        lemma_square_nonneg(v@.x);
        lemma_square_nonneg(v@.y);
        lemma_square_nonneg(v@.z);
        lemma_unit_component(v@.x, n2@, len@);
        lemma_unit_component(v@.y, n2@, len@);
        lemma_unit_component(v@.z, n2@, len@);
    }
    v.div(len)
}

/// Mirror reflection of `v` about the surface normal `n`.  `v` is expected
/// to be (at most) a couple of units long and `n` a unit-length normal, as
/// the scattering formulas use them.
pub fn reflect(v: Vec3, n: Vec3) -> (r: Vec3)
    requires
        in_range(v@, 2 * SCALE),
        in_range(n@, 2 * SCALE),
    ensures
        r@ == reflect_spec(v@, n@),
        in_range(r@, 0x400000),
{
    let d: Fx = dot(v, n);
    proof {
        lemma_dot_bound(v@, n@, 0x20000, 0x20000);
        lemma_fx_mul_bound(n@.x, 2 * d@, 0x20000, 0x180000);
        lemma_fx_mul_bound(n@.y, 2 * d@, 0x20000, 0x180000);
        lemma_fx_mul_bound(n@.z, 2 * d@, 0x20000, 0x180000);
    }
    let two_d: Fx = d.add(d);
    v.sub(n.scale(two_d))
}

/// The refracted direction by Snell's law in vector form: perpendicular
/// and parallel components of the transmitted ray, for a unit incident
/// direction `uv`, unit normal `n`, and ratio of refractive indices.
pub open spec fn refract_spec(uv: V3, n: V3, ratio: int) -> V3 {
    let cos = min2(dot_spec(v3_neg(uv), n), SCALE as int);
    let perp = v3_scale(v3_add(uv, v3_scale(n, cos)), ratio);
    let k = SCALE - norm2_spec(perp);
    v3_add(perp, v3_scale(n, -isqrt_spec(iabs(k) * SCALE)))
}

/// The smaller of two spec values.
pub open spec fn min2(a: int, b: int) -> int {
    if a <= b {
        a
    } else {
        b
    }
}

/// Refract the unit direction `uv` through a surface with unit normal `n`
/// and refraction ratio `ratio`, by Snell's law in vector form.  The
/// incidence cosine is capped at one so that rounding overshoot cannot
/// push the square root out of domain.
pub fn refract(uv: Vec3, n: Vec3, etai_over_etat: Fx) -> (r: Vec3)
    requires
        in_range(uv@, 2 * SCALE),
        in_range(n@, 2 * SCALE),
        -0x40000 <= etai_over_etat@ <= 0x40000,
    ensures
        r@ == refract_spec(uv@, n@, etai_over_etat@),
        in_range(r@, 0x1e80000),
{
    let cos_theta: Fx = dot(uv.neg(), n).min(Fx::one());
    proof {
        lemma_dot_bound(v3_neg(uv@), n@, 0x20000, 0x20000);
        lemma_fx_mul_bound(n@.x, cos_theta@, 0x20000, 0xc0000);
        lemma_fx_mul_bound(n@.y, cos_theta@, 0x20000, 0xc0000);
        lemma_fx_mul_bound(n@.z, cos_theta@, 0x20000, 0xc0000);
    }
    let scaled_n: Vec3 = n.scale(cos_theta);
    let base: Vec3 = uv.add(scaled_n);
    proof {
        lemma_fx_mul_bound(base@.x, etai_over_etat@, 0x1a0000, 0x40000);
        lemma_fx_mul_bound(base@.y, etai_over_etat@, 0x1a0000, 0x40000);
        lemma_fx_mul_bound(base@.z, etai_over_etat@, 0x1a0000, 0x40000);
    }
    let r_out_perp: Vec3 = base.scale(etai_over_etat);
    let n2p: Fx = r_out_perp.length_squared();
    proof {
        lemma_norm2_bound(r_out_perp@, 0x680000);
    }
    let k: Fx = Fx::one().sub(n2p);
    let root: Fx = k.abs().sqrt();
    proof {
        assert(root@ * root@ <= 0xc00000int * 0xc00000) by (nonlinear_arith)
            requires
                root@ * root@ <= iabs(k@) * 65536,
                iabs(k@) <= 0x7ed10000,
        ;
        crate::fixed::lemma_sq_le(root@, 0xc00000);
        lemma_fx_mul_bound(n@.x, -root@, 0x20000, 0xc00000);
        lemma_fx_mul_bound(n@.y, -root@, 0x20000, 0xc00000);
        lemma_fx_mul_bound(n@.z, -root@, 0x20000, 0xc00000);
    }
    let r_out_parallel: Vec3 = n.scale(root.neg());
    r_out_perp.add(r_out_parallel)
}

/// A non-negative square is divided by a positive scale: still non-negative.
pub proof fn lemma_square_nonneg(a: int)
    ensures
        0 <= fx_mul_spec(a, a),
{
    assert(a * a >= 0) by (nonlinear_arith);
}

/// Bound on the dot product from bounds on the operands.
pub proof fn lemma_dot_bound(a: V3, b: V3, ba: int, bb: int)
    requires
        in_range(a, ba),
        in_range(b, bb),
        0 <= ba,
        0 <= bb,
    ensures
        -3 * (ba * bb / (SCALE as int)) <= dot_spec(a, b) <= 3 * (ba * bb / (SCALE as int)),
        -(ba * bb / (SCALE as int)) <= fx_mul_spec(a.x, b.x) <= ba * bb / (SCALE as int),
        -(ba * bb / (SCALE as int)) <= fx_mul_spec(a.y, b.y) <= ba * bb / (SCALE as int),
        -(ba * bb / (SCALE as int)) <= fx_mul_spec(a.z, b.z) <= ba * bb / (SCALE as int),
{
    lemma_fx_mul_bound(a.x, b.x, ba, bb);
    lemma_fx_mul_bound(a.y, b.y, ba, bb);
    lemma_fx_mul_bound(a.z, b.z, ba, bb);
}

/// The squared length is non-negative and bounded.
pub proof fn lemma_norm2_bound(a: V3, ba: int)
    requires
        in_range(a, ba),
        0 <= ba,
    ensures
        0 <= norm2_spec(a) <= 3 * (ba * ba / (SCALE as int)),
        fx_mul_spec(a.x, a.x) <= norm2_spec(a),
        fx_mul_spec(a.y, a.y) <= norm2_spec(a),
        fx_mul_spec(a.z, a.z) <= norm2_spec(a),
{
    lemma_square_nonneg(a.x);
    lemma_square_nonneg(a.y);
    lemma_square_nonneg(a.z);
    lemma_fx_mul_bound(a.x, a.x, ba, ba);
    lemma_fx_mul_bound(a.y, a.y, ba, ba);
    lemma_fx_mul_bound(a.z, a.z, ba, ba);
}

/// Bound on every component of the cross product.
pub proof fn lemma_cross_fits(a: V3, b: V3, ba: int, bb: int)
    requires
        in_range(a, ba),
        in_range(b, bb),
        0 <= ba,
        0 <= bb,
    ensures
        in_range(cross_spec(a, b), 2 * (ba * bb / (SCALE as int))),
        -(ba * bb / (SCALE as int)) <= fx_mul_spec(a.y, b.z) <= ba * bb / (SCALE as int),
        -(ba * bb / (SCALE as int)) <= fx_mul_spec(a.z, b.y) <= ba * bb / (SCALE as int),
        -(ba * bb / (SCALE as int)) <= fx_mul_spec(a.z, b.x) <= ba * bb / (SCALE as int),
        -(ba * bb / (SCALE as int)) <= fx_mul_spec(a.x, b.z) <= ba * bb / (SCALE as int),
        -(ba * bb / (SCALE as int)) <= fx_mul_spec(a.x, b.y) <= ba * bb / (SCALE as int),
        -(ba * bb / (SCALE as int)) <= fx_mul_spec(a.y, b.x) <= ba * bb / (SCALE as int),
{
    lemma_fx_mul_bound(a.y, b.z, ba, bb);
    lemma_fx_mul_bound(a.z, b.y, ba, bb);
    lemma_fx_mul_bound(a.z, b.x, ba, bb);
    lemma_fx_mul_bound(a.x, b.z, ba, bb);
    lemma_fx_mul_bound(a.x, b.y, ba, bb);
    lemma_fx_mul_bound(a.y, b.x, ba, bb);
}

/// One component of a normalized vector has magnitude at most two units.
proof fn lemma_unit_component(x: int, n2: int, len: int)
    requires
        fx_mul_spec(x, x) <= n2,
        fx_mul_spec(x, x) >= 0,
        1 <= n2,
        0 <= len,
        len * len <= n2 * SCALE,
        n2 * SCALE < (len + 1) * (len + 1),
    ensures
        256 <= len,
        -(2 * SCALE) <= fx_div_spec(x, len) <= 2 * SCALE,
{
    assert(len >= 256) by (nonlinear_arith)
        requires
            0 <= len,
            (len + 1) * (len + 1) > 65536,
    ;
    let xa = iabs(x);
    assert(xa == x || xa == -x);
    assert(xa * xa == x * x) by (nonlinear_arith)
        requires
            xa == x || xa == -x,
    ;
    // x * x is within one scale step of SCALE * fx_mul_spec(x, x)
    lemma_fundamental_div_mod(x * x, SCALE as int);
    lemma_mod_bound(x * x, SCALE as int);
    assert(x * x < (len + 1) * (len + 1) + 65536);
    // the quotient's magnitude is iabs(x) * SCALE / len
    assert(iabs(fx_div_spec(x, len)) == xa * 65536 / len);
    if xa <= 511 {
        lemma_div_is_ordered(xa * 65536, 511int * 65536, len);
        lemma_div_is_ordered_by_denominator_wrap(511int * 65536, 256int, len);
        assert(xa * 65536 / len <= 511 * 65536 / 256);
    } else {
        assert(xa <= 2 * len) by (nonlinear_arith)
            requires
                xa >= 512,
                len >= 0,
                xa * xa < (len + 1) * (len + 1) + 65536,
        ;
        assert(xa * 65536 <= len * (2 * 65536)) by (nonlinear_arith)
            requires
                xa <= 2 * len,
                0 <= xa,
        ;
        lemma_div_is_ordered(xa * 65536, len * (2 * 65536), len);
        lemma_div_multiples_vanish(2int * 65536, len);
    }
}

proof fn lemma_div_is_ordered_by_denominator_wrap(x: int, y: int, z: int)
    requires
        0 <= x,
        1 <= y <= z,
    ensures
        x / y >= x / z,
{
    vstd::arithmetic::div_mod::lemma_div_is_ordered_by_denominator(x, y, z);
}

// ---------------------------------------------------------------------------
// Random sampling of directions and offsets.
// ---------------------------------------------------------------------------

/// A vector with three independent uniform draws in `[0, 1)`.
pub fn random(rng: &mut rand::rngs::ThreadRng) -> (r: Vec3)
    ensures
        0 <= r@.x < SCALE,
        0 <= r@.y < SCALE,
        0 <= r@.z < SCALE,
{
    let e0: Fx = crate::utils::random_float(rng);
    let e1: Fx = crate::utils::random_float(rng);
    let e2: Fx = crate::utils::random_float(rng);
    Vec3::new(e0, e1, e2)
}

/// A vector with three independent uniform draws in `[min, max)`.
pub fn random_range(rng: &mut rand::rngs::ThreadRng, min: Fx, max: Fx) -> (r: Vec3)
    requires
        min@ < max@,
    ensures
        min@ <= r@.x < max@,
        min@ <= r@.y < max@,
        min@ <= r@.z < max@,
{
    let e0: Fx = crate::utils::random_float_range(rng, min, max);
    let e1: Fx = crate::utils::random_float_range(rng, min, max);
    let e2: Fx = crate::utils::random_float_range(rng, min, max);
    Vec3::new(e0, e1, e2)
}

/// A point sampled inside the unit sphere: draw in the cube `[-1, 1)^3` and
/// reject what falls outside the sphere, or inside the half-unit core
/// (the radial truncation keeps the direction distribution intact while
/// guaranteeing an accurate normalization).  After a bounded number of
/// failed draws a fixed interior point is used, so the result always has
/// a usable length between half a unit and one unit.
pub fn random_in_unit_sphere(rng: &mut rand::rngs::ThreadRng) -> (r: Vec3)
    ensures
        in_range(r@, SCALE as int),
        0x4000 <= norm2_spec(r@) < SCALE,
{
    let mut tries: u32 = 0;
    while tries < 64
        invariant
            tries <= 64,
        decreases 64 - tries,
    {
        let p: Vec3 = random_range(rng, Fx::from_bits(-65536), Fx::from_bits(65536));
        let n2: Fx = p.length_squared();
        if 16384 <= n2.bits && n2.bits < 65536 {
            return p;
        }
        tries = tries + 1;
    }
    let fallback: Vec3 = Vec3::new(Fx::from_bits(32768), Fx::zero(), Fx::zero());
    proof {
        lemma_square_nonneg(0);
    }
    fallback
}

/// What every drawn unit direction satisfies: bounded components and a
/// squared length within a few raw steps of one.
pub open spec fn unit_draw_spec(u: V3) -> bool {
    &&& in_range(u, 2 * SCALE)
    &&& SCALE - 15 <= norm2_spec(u) <= SCALE + 17
}

/// A random direction of (fixed-point) unit length, within the accuracy
/// of the normalization.
pub fn random_unit_vector(rng: &mut rand::rngs::ThreadRng) -> (r: Vec3)
    ensures
        unit_draw_spec(r@),
{
    let p: Vec3 = random_in_unit_sphere(rng);
    proof {
        lemma_unit_norm2_near_one(p@);
    }
    unit_vector(p)
}

/// A random unit direction lying in the hemisphere of `normal`.
pub fn random_in_hemisphere(rng: &mut rand::rngs::ThreadRng, normal: Vec3) -> (r: Vec3)
    requires
        in_range(normal@, 0x4000000000),
    ensures
        unit_draw_spec(r@),
        dot_spec(r@, normal@) >= 0,
{
    let u: Vec3 = random_unit_vector(rng);
    let d: Fx = dot(u, normal);
    if d.bits > 0 {
        u
    } else {
        proof {
            crate::fixed::lemma_fx_mul_neg(u@.x, normal@.x);
            crate::fixed::lemma_fx_mul_neg(u@.y, normal@.y);
            crate::fixed::lemma_fx_mul_neg(u@.z, normal@.z);
            lemma_norm2_neg(u@);
        }
        u.neg()
    }
}

/// A point sampled inside the unit disk in the `z == 0` plane.
pub fn random_in_unit_disk(rng: &mut rand::rngs::ThreadRng) -> (r: Vec3)
    ensures
        in_range(r@, SCALE as int),
        r@.z == 0,
        norm2_spec(r@) < SCALE,
{
    let mut tries: u32 = 0;
    while tries < 64
        invariant
            tries <= 64,
        decreases 64 - tries,
    {
        let e0: Fx = crate::utils::random_float_range(rng, Fx::from_bits(-65536), Fx::from_bits(65536));
        let e1: Fx = crate::utils::random_float_range(rng, Fx::from_bits(-65536), Fx::from_bits(65536));
        let p: Vec3 = Vec3::new(e0, e1, Fx::zero());
        let n2: Fx = p.length_squared();
        if n2.bits < 65536 {
            return p;
        }
        tries = tries + 1;
    }
    proof {
        lemma_square_nonneg(0);
    }
    Vec3::zero()
}

/// Normalization is accurate: for every vector of at least half unit
/// length (a unit vector included), the normalized vector's squared
/// length lies within a few raw steps of one.
pub proof fn lemma_unit_norm2_near_one(v: V3)
    requires
        in_range(v, 0x4000000000),
        norm2_spec(v) >= 0x4000,
    ensures
        SCALE - 15 <= norm2_spec(unit_spec(v)) <= SCALE + 17,
{
    let n2 = norm2_spec(v);
    let l = len_spec(v);
    lemma_square_nonneg(v.x);
    lemma_square_nonneg(v.y);
    lemma_square_nonneg(v.z);
    lemma_isqrt_spec_brackets(n2 * SCALE);
    assert(l >= 32768) by (nonlinear_arith)
        requires
            (l + 1) * (l + 1) > n2 * 65536,
            n2 >= 16384,
            l >= 0,
    ;
    lemma_unit_component(v.x, n2, l);
    lemma_unit_component(v.y, n2, l);
    lemma_unit_component(v.z, n2, l);

    // Magnitudes of the components and of the normalized components.
    let ax = iabs(v.x);
    let ay = iabs(v.y);
    let az = iabs(v.z);
    assert(ax * ax == v.x * v.x && ay * ay == v.y * v.y && az * az == v.z * v.z)
        by (nonlinear_arith)
        requires
            (ax == v.x || ax == -v.x) && (ay == v.y || ay == -v.y) && (az == v.z || az
                == -v.z),
    ;
    let ux = fx_div_spec(v.x, l);
    let uy = fx_div_spec(v.y, l);
    let uz = fx_div_spec(v.z, l);
    let qx = iabs(ux);
    let qy = iabs(uy);
    let qz = iabs(uz);
    assert(qx == (ax * 65536) / l && qy == (ay * 65536) / l && qz == (az * 65536) / l);
    assert(qx * qx == ux * ux && qy * qy == uy * uy && qz * qz == uz * uz)
        by (nonlinear_arith)
        requires
            (qx == ux || qx == -ux) && (qy == uy || qy == -uy) && (qz == uz || qz == -uz),
    ;

    // Each squared component splits into its rescaled square and a
    // remainder below one step.
    let mx = fx_mul_spec(v.x, v.x);
    let my = fx_mul_spec(v.y, v.y);
    let mz = fx_mul_spec(v.z, v.z);
    lemma_fundamental_div_mod(ax * ax, 65536);
    lemma_mod_bound(ax * ax, 65536);
    lemma_fundamental_div_mod(ay * ay, 65536);
    lemma_mod_bound(ay * ay, 65536);
    lemma_fundamental_div_mod(az * az, 65536);
    lemma_mod_bound(az * az, 65536);
    let rx = (ax * ax) % 65536;
    let ry = (ay * ay) % 65536;
    let rz = (az * az) % 65536;
    let aa = ax * ax + ay * ay + az * az;
    assert(aa == 65536 * n2 + (rx + ry + rz));

    // Each scaled component splits along the length.
    lemma_fundamental_div_mod(ax * 65536, l);
    lemma_mod_bound(ax * 65536, l);
    lemma_fundamental_div_mod(ay * 65536, l);
    lemma_mod_bound(ay * 65536, l);
    lemma_fundamental_div_mod(az * 65536, l);
    lemma_mod_bound(az * 65536, l);
    let sx = (ax * 65536) % l;
    let sy = (ay * 65536) % l;
    let sz = (az * 65536) % l;
    assert(ax * 65536 == l * qx + sx);
    assert(ay * 65536 == l * qy + sy);
    assert(az * 65536 == l * qz + sz);

    // Square the split, component by component, and sum.
    let l2 = l * l;
    assert((ax * 65536) * (ax * 65536) == l2 * (qx * qx) + 2 * l * (qx * sx) + sx * sx)
        by (nonlinear_arith)
        requires
            ax * 65536 == l * qx + sx,
            l2 == l * l,
    ;
    assert((ay * 65536) * (ay * 65536) == l2 * (qy * qy) + 2 * l * (qy * sy) + sy * sy)
        by (nonlinear_arith)
        requires
            ay * 65536 == l * qy + sy,
            l2 == l * l,
    ;
    assert((az * 65536) * (az * 65536) == l2 * (qz * qz) + 2 * l * (qz * sz) + sz * sz)
        by (nonlinear_arith)
        requires
            az * 65536 == l * qz + sz,
            l2 == l * l,
    ;
    assert((ax * 65536) * (ax * 65536) == (ax * ax) * 4294967296) by (nonlinear_arith);
    assert((ay * 65536) * (ay * 65536) == (ay * ay) * 4294967296) by (nonlinear_arith);
    assert((az * 65536) * (az * 65536) == (az * az) * 4294967296) by (nonlinear_arith);
    let uu = qx * qx + qy * qy + qz * qz;
    let cross_term = qx * sx + qy * sy + qz * sz;
    let ss = sx * sx + sy * sy + sz * sz;
    assert(l2 * uu == l2 * (qx * qx) + l2 * (qy * qy) + l2 * (qz * qz)) by (nonlinear_arith)
        requires
            uu == qx * qx + qy * qy + qz * qz,
    ;
    assert(2 * l * cross_term == 2 * l * (qx * sx) + 2 * l * (qy * sy) + 2 * l * (qz * sz))
        by (nonlinear_arith)
        requires
            cross_term == qx * sx + qy * sy + qz * sz,
    ;
    assert(aa * 4294967296 == l2 * uu + 2 * l * cross_term + ss);

    // The length bracket leaves a defect of at most two lengths.
    let d = n2 * 65536 - l2;
    assert((l + 1) * (l + 1) == l2 + 2 * l + 1) by (nonlinear_arith)
        requires
            l2 == l * l,
    ;
    assert(0 <= d <= 2 * l);
    assert(aa * 4294967296 == l2 * 4294967296 + d * 4294967296 + (rx + ry + rz) * 4294967296);

    // Bound the error terms.
    assert(qx * sx <= 131072 * l && qy * sy <= 131072 * l && qz * sz <= 131072 * l)
        by (nonlinear_arith)
        requires
            0 <= qx <= 131072 && 0 <= qy <= 131072 && 0 <= qz <= 131072,
            0 <= sx <= l && 0 <= sy <= l && 0 <= sz <= l,
    ;
    assert(0 <= cross_term) by (nonlinear_arith)
        requires
            cross_term == qx * sx + qy * sy + qz * sz,
            0 <= qx && 0 <= qy && 0 <= qz && 0 <= sx && 0 <= sy && 0 <= sz,
    ;
    assert(ss <= 3 * l2 && 0 <= ss) by (nonlinear_arith)
        requires
            ss == sx * sx + sy * sy + sz * sz,
            0 <= sx <= l && 0 <= sy <= l && 0 <= sz <= l,
            l2 == l * l,
    ;
    assert(2 * l * cross_term <= 786432 * l2 && 0 <= 2 * l * cross_term) by (nonlinear_arith)
        requires
            0 <= cross_term <= 393216 * l,
            0 <= l,
            l2 == l * l,
    ;

    // Upper bound: the normalized squared magnitude exceeds one full
    // square by at most six steps' worth.
    assert(l2 * uu - l2 * 4294967296 <= d * 4294967296 + (rx + ry + rz) * 4294967296);
    assert(l2 * (uu - 4294967296) == l2 * uu - l2 * 4294967296) by (nonlinear_arith);
    assert(uu <= 4294967296 + 17 * 65536) by (nonlinear_arith)
        requires
            l2 * (uu - 4294967296) <= 2 * l * 4294967296 + 196605 * 4294967296,
            l >= 32768,
            l2 == l * l,
    ;

    // Lower bound: it falls short by at most twelve steps' worth.
    assert(l2 * 4294967296 - l2 * uu <= 2 * l * cross_term + ss);
    assert(l2 * (4294967296 - uu) == l2 * 4294967296 - l2 * uu) by (nonlinear_arith);
    assert(l2 >= 1073741824) by (nonlinear_arith)
        requires
            l >= 32768,
            l2 == l * l,
    ;
    assert(4294967296 - uu <= 786435) by (nonlinear_arith)
        requires
            l2 * (4294967296 - uu) <= 786435 * l2,
            l2 >= 1,
    ;

    // Fold the normalized squares back through their own remainders.
    let gx = fx_mul_spec(ux, ux);
    let gy = fx_mul_spec(uy, uy);
    let gz = fx_mul_spec(uz, uz);
    lemma_fundamental_div_mod(qx * qx, 65536);
    lemma_mod_bound(qx * qx, 65536);
    lemma_fundamental_div_mod(qy * qy, 65536);
    lemma_mod_bound(qy * qy, 65536);
    lemma_fundamental_div_mod(qz * qz, 65536);
    lemma_mod_bound(qz * qz, 65536);
    assert(qx * qx >= 0 && qy * qy >= 0 && qz * qz >= 0) by (nonlinear_arith)
        requires
            0 <= qx && 0 <= qy && 0 <= qz,
    ;
    let g = gx + gy + gz;
    assert(uu == 65536 * g + ((qx * qx) % 65536 + (qy * qy) % 65536 + (qz * qz) % 65536));
    assert(g == norm2_spec(unit_spec(v)));
    assert(65536 * g <= uu);
    assert(65536 * g >= uu - 196605);
}

/// Negating a vector keeps its squared length.
pub proof fn lemma_norm2_neg(v: V3)
    ensures
        norm2_spec(v3_neg(v)) == norm2_spec(v),
{
    assert((-v.x) * (-v.x) == v.x * v.x) by (nonlinear_arith);
    assert((-v.y) * (-v.y) == v.y * v.y) by (nonlinear_arith);
    assert((-v.z) * (-v.z) == v.z * v.z) by (nonlinear_arith);
}

/// A vector that is not near zero has squared length of at least one step.
pub proof fn lemma_not_near_zero_norm2(v: V3)
    requires
        !near_zero_spec(v),
    ensures
        norm2_spec(v) >= 1,
{
    lemma_square_nonneg(v.x);
    lemma_square_nonneg(v.y);
    lemma_square_nonneg(v.z);
    if iabs(v.x) >= 256 {
        lemma_step_square(v.x);
    } else if iabs(v.y) >= 256 {
        lemma_step_square(v.y);
    } else {
        lemma_step_square(v.z);
    }
}

/// The rescaled square of anything at least 256 raw steps is at least 1.
proof fn lemma_step_square(c: int)
    requires
        iabs(c) >= 256,
    ensures
        fx_mul_spec(c, c) >= 1,
{
    assert(c * c == iabs(c) * iabs(c)) by (nonlinear_arith)
        requires
            iabs(c) == c || iabs(c) == -c,
    ;
    crate::fixed::lemma_fx_sq_monotone(256, iabs(c));
    assert(fx_mul_spec(256, 256) == 1);
}

// ---------------------------------------------------------------------------
// Exact algebra: the ideal-arithmetic image of the operations above, used to
// state laws that rounding-free vector algebra obeys.
// ---------------------------------------------------------------------------

/// Exact (unscaled, rounding-free) dot product.
pub open spec fn dot_exact(a: V3, b: V3) -> int {
    a.x * b.x + a.y * b.y + a.z * b.z
}

/// Exact mirror reflection `v - 2 * dot(v, n) * n`.
pub open spec fn reflect_exact(v: V3, n: V3) -> V3 {
    V3 {
        x: v.x - 2 * dot_exact(v, n) * n.x,
        y: v.y - 2 * dot_exact(v, n) * n.y,
        z: v.z - 2 * dot_exact(v, n) * n.z,
    }
}

/// Reflection about a unit normal preserves squared length: for every vector
/// `v` and every `n` with `dot(n, n) == 1`, the exact reflection of `v` about
/// `n` has the same exact squared length as `v`.
pub proof fn lemma_reflect_preserves_length(v: V3, n: V3)
    requires
        dot_exact(n, n) == 1,
    ensures
        dot_exact(reflect_exact(v, n), reflect_exact(v, n)) == dot_exact(v, v),
{
    let d = dot_exact(v, n);
    let r = reflect_exact(v, n);
    assert(r.x * r.x == v.x * v.x - 4 * (d * (v.x * n.x)) + 4 * ((d * d) * (n.x * n.x)))
        by (nonlinear_arith)
        requires
            r.x == v.x - 2 * d * n.x,
    ;
    assert(r.y * r.y == v.y * v.y - 4 * (d * (v.y * n.y)) + 4 * ((d * d) * (n.y * n.y)))
        by (nonlinear_arith)
        requires
            r.y == v.y - 2 * d * n.y,
    ;
    assert(r.z * r.z == v.z * v.z - 4 * (d * (v.z * n.z)) + 4 * ((d * d) * (n.z * n.z)))
        by (nonlinear_arith)
        requires
            r.z == v.z - 2 * d * n.z,
    ;
    assert(d * (v.x * n.x) + d * (v.y * n.y) + d * (v.z * n.z) == d * d) by (nonlinear_arith)
        requires
            d == v.x * n.x + v.y * n.y + v.z * n.z,
    ;
    assert((d * d) * (n.x * n.x) + (d * d) * (n.y * n.y) + (d * d) * (n.z * n.z) == d * d)
        by (nonlinear_arith)
        requires
            n.x * n.x + n.y * n.y + n.z * n.z == 1,
    ;
}

/// Reflection about a unit normal is an involution: reflecting the exact
/// reflection restores the original vector.
pub proof fn lemma_reflect_involution(v: V3, n: V3)
    requires
        dot_exact(n, n) == 1,
    ensures
        reflect_exact(reflect_exact(v, n), n) == v,
{
    let d = dot_exact(v, n);
    let r = reflect_exact(v, n);
    assert(r.x * n.x == v.x * n.x - 2 * (d * (n.x * n.x))) by (nonlinear_arith)
        requires
            r.x == v.x - 2 * d * n.x,
    ;
    assert(r.y * n.y == v.y * n.y - 2 * (d * (n.y * n.y))) by (nonlinear_arith)
        requires
            r.y == v.y - 2 * d * n.y,
    ;
    assert(r.z * n.z == v.z * n.z - 2 * (d * (n.z * n.z))) by (nonlinear_arith)
        requires
            r.z == v.z - 2 * d * n.z,
    ;
    assert(d * (n.x * n.x) + d * (n.y * n.y) + d * (n.z * n.z) == d) by (nonlinear_arith)
        requires
            n.x * n.x + n.y * n.y + n.z * n.z == 1,
    ;
    assert(dot_exact(r, n) == -d);
    let rr = reflect_exact(r, n);
    assert(rr.x == r.x + 2 * d * n.x && rr.y == r.y + 2 * d * n.y && rr.z == r.z + 2 * d
        * n.z) by (nonlinear_arith)
        requires
            rr.x == r.x - 2 * (-d) * n.x,
            rr.y == r.y - 2 * (-d) * n.y,
            rr.z == r.z - 2 * (-d) * n.z,
    ;
}

/// At an axis-aligned unit normal the fixed-point reflection is exact:
/// it flips the component along the normal and keeps the others, so the
/// squared length is preserved with no rounding at all.
pub proof fn lemma_reflect_axis_exact(v: V3)
    requires
        -0x7fffffffffffffff <= v.x <= 0x7fffffffffffffff,
        -0x7fffffffffffffff <= v.y <= 0x7fffffffffffffff,
        -0x7fffffffffffffff <= v.z <= 0x7fffffffffffffff,
    ensures
        reflect_spec(v, V3 { x: 0, y: 0, z: SCALE as int }) == (V3 { x: v.x, y: v.y, z: -v.z }),
        norm2_spec(reflect_spec(v, V3 { x: 0, y: 0, z: SCALE as int })) == norm2_spec(v),
{
    let n = V3 { x: 0, y: 0, z: SCALE as int };
    // The dot product against the axis is the component itself.
    assert(v.z * 65536 == 65536 * v.z) by (nonlinear_arith);
    crate::fixed::lemma_div_exact_multiple(v.z);
    let d = dot_spec(v, n);
    assert(d == v.z);
    // Scaling the axis by twice that component is again exact.
    assert(65536 * (2 * d) == (2 * d) * 65536) by (nonlinear_arith);
    crate::fixed::lemma_div_exact_multiple(2 * d);
    assert(reflect_spec(v, n) == (V3 { x: v.x, y: v.y, z: -v.z }));
    lemma_norm2_neg(V3 { x: -v.x, y: -v.y, z: v.z });
    assert(norm2_spec(V3 { x: v.x, y: v.y, z: -v.z }) == norm2_spec(v)) by {
        assert((-v.z) * (-v.z) == v.z * v.z) by (nonlinear_arith);
    }
}

} // verus!
