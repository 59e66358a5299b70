//! The sphere primitive: quadratic ray intersection, with an optional
//! linearly moving centre for motion blur.

use crate::fixed::{
    fx_div_spec, fx_mul_spec, iabs, isqrt_spec, lemma_fx_div_bound, lemma_fx_div_half_lower,
    lemma_fx_div_le_multiple, lemma_fx_mul_bound, lemma_fx_sq_monotone, Fx, SCALE,
};
use crate::hittable::{
    front_face_spec, hit_wf, oriented_normal_spec, ray_wf, HitRecord, HitV, OMAX, TMAX,
};
use crate::interval::Interval;
use crate::ray::{ray_at_spec, Ray, RayV};
use crate::vec3::{
    dot, dot_spec, in_range, lemma_dot_bound, lemma_norm2_bound, lemma_norm2_neg,
    lemma_square_nonneg, norm2_spec, v3_add, v3_div, v3_scale, v3_sub, Point3, Vec3, V3,
};
use vstd::arithmetic::div_mod::{lemma_fundamental_div_mod, lemma_mod_bound};
use vstd::prelude::*;

verus! {

/// Mathematical image of a sphere.
pub struct SphereV {
    pub center: V3,
    pub radius: int,
    pub material: int,
    pub is_moving: bool,
    pub center_vec: V3,
}

/// A representable sphere: coordinates in scene range and a radius of at
/// least one raw step in magnitude.  A negative radius is permitted and
/// yields inward-facing normals (a hollow shell).
pub open spec fn sphere_wf(s: SphereV) -> bool {
    &&& in_range(s.center, crate::hittable::CMAX as int)
    &&& in_range(s.center_vec, 2 * (crate::hittable::CMAX as int))
    &&& 1 <= iabs(s.radius) <= crate::hittable::CMAX
    &&& 0 <= s.material
}

/// The effective centre at ray time `t`.
pub open spec fn sphere_center_spec(s: SphereV, time: int) -> V3 {
    if s.is_moving {
        v3_add(s.center, v3_scale(s.center_vec, time))
    } else {
        s.center
    }
}

/// The guard under which the quotient `diff / radius` is a usable unit
/// normal: no component further than twice the radius, and at least one
/// component at least half of it.  True of every geometric hit point.
pub open spec fn normal_guard(diff: V3, radius: int) -> bool {
    &&& iabs(diff.x) <= 2 * iabs(radius)
    &&& iabs(diff.y) <= 2 * iabs(radius)
    &&& iabs(diff.z) <= 2 * iabs(radius)
    &&& (2 * iabs(diff.x) >= iabs(radius) || 2 * iabs(diff.y) >= iabs(radius) || 2 * iabs(
        diff.z,
    ) >= iabs(radius))
}

/// The guard under which the hit point lies radially close to the
/// surface: its squared distance from the centre is within half of the
/// squared radius.  True of every geometric hit; it lets the stored
/// normal's length be pinned near one.
pub open spec fn radial_guard(diff: V3, radius: int) -> bool {
    2 * iabs(norm2_spec(diff) - fx_mul_spec(radius, radius)) <= fx_mul_spec(radius, radius)
}

/// What `Sphere::hit` returns: the whole quadratic root search, step by
/// step, in exact fixed-point arithmetic.  `None` where there is no real
/// root in `(tmin, tmax)`, or where the hit falls outside representable
/// range.
pub open spec fn sphere_hit_spec(s: SphereV, r: RayV, tmin: int, tmax: int) -> Option<HitV> {
    let center = sphere_center_spec(s, r.time);
    let oc = v3_sub(r.orig, center);
    let a = norm2_spec(r.dir);
    let half_b = dot_spec(oc, r.dir);
    let c = norm2_spec(oc) - fx_mul_spec(s.radius, s.radius);
    let disc = fx_mul_spec(half_b, half_b) - fx_mul_spec(a, c);
    if a <= 0 || disc < 0 {
        None
    } else {
        let sqrtd = isqrt_spec(disc * SCALE);
        let root1 = fx_div_spec(-half_b - sqrtd, a);
        let root2 = fx_div_spec(-half_b + sqrtd, a);
        let root = if tmin < root1 < tmax {
            root1
        } else {
            root2
        };
        if !(tmin < root < tmax) {
            None
        } else {
            let point = ray_at_spec(r, root);
            if !in_range(point, OMAX as int) {
                None
            } else {
                let diff = v3_sub(point, center);
                if !normal_guard(diff, s.radius) || !radial_guard(diff, s.radius) {
                    None
                } else {
                    let outward = v3_div(diff, s.radius);
                    Some(
                        HitV {
                            point,
                            normal: oriented_normal_spec(r.dir, outward),
                            t: root,
                            front_face: front_face_spec(r.dir, outward),
                            material: s.material,
                        },
                    )
                }
            }
        }
    }
}

/// A sphere: centre(s), radius, and the index of its material.
#[derive(Clone, Copy, Debug, PartialEq, Eq, Structural)]
pub struct Sphere {
    pub center: Point3,
    pub radius: Fx,
    pub material: usize,
    pub is_moving: bool,
    pub center_vec: Vec3,
}

impl View for Sphere {
    type V = SphereV;

    open spec fn view(&self) -> SphereV {
        SphereV {
            center: self.center@,
            radius: self.radius@,
            material: self.material as int,
            is_moving: self.is_moving,
            center_vec: self.center_vec@,
        }
    }
}

impl Sphere {
    /// A sphere at `center`, moving towards `center_1` over the shutter
    /// interval when `is_moving` is set.
    pub fn new(center: Point3, radius: Fx, material: usize, center_1: Point3, is_moving: bool) -> (r:
        Sphere)
        requires
            in_range(center@, crate::hittable::CMAX as int),
            in_range(center_1@, crate::hittable::CMAX as int),
            1 <= iabs(radius@) <= crate::hittable::CMAX,
        ensures
            r@ == (SphereV {
                center: center@,
                radius: radius@,
                material: material as int,
                is_moving,
                center_vec: v3_sub(center_1@, center@),
            }),
            sphere_wf(r@),
    {
        Sphere { center, radius, material, is_moving, center_vec: center_1.sub(center) }
    }

    /// The effective centre at time `time`.
    pub fn center(&self, time: Fx) -> (c: Point3)
        requires
            sphere_wf(self@),
            0 <= time@ <= SCALE,
        ensures
            c@ == sphere_center_spec(self@, time@),
            in_range(c@, 0xc000000),
    {
        if self.is_moving {
            proof {
                lemma_fx_mul_bound(self@.center_vec.x, time@, 0x8000000, 65536);
                lemma_fx_mul_bound(self@.center_vec.y, time@, 0x8000000, 65536);
                lemma_fx_mul_bound(self@.center_vec.z, time@, 0x8000000, 65536);
            }
            self.center.add(self.center_vec.scale(time))
        } else {
            self.center
        }
    }

    /// Intersect `ray` with the sphere over the parameter window `ray_t`,
    /// exclusive at both ends.  Returns the record of the nearest qualifying
    /// root, exactly as `sphere_hit_spec` lays it out.
    #[verifier::rlimit(50)]
    pub fn hit(&self, ray: &Ray, ray_t: Interval) -> (res: Option<HitRecord>)
        requires
            sphere_wf(self@),
            ray_wf(ray@),
            0 <= ray_t.min@,
            ray_t.max@ <= TMAX,
        ensures
            ({
                let sh = sphere_hit_spec(self@, ray@, ray_t.min@, ray_t.max@);
                match res {
                    Some(h) => Some(h@) == sh && hit_wf(h@) && ray_t.min@ < h@.t < ray_t.max@
                        && h@.material == self@.material && (iabs(self@.radius) >= 4096
                        ==> 32000 <= norm2_spec(h@.normal) <= 99500),
                    None => sh is None,
                }
            }),
    {
        let center: Point3 = self.center(ray.time());
        let oc: Vec3 = ray.origin().sub(center);
        let a: Fx = ray.direction().length_squared();
        proof {
            lemma_norm2_bound(ray@.dir, 0x2000000);
            lemma_norm2_bound(oc@, 0x14000000);
            lemma_dot_bound(oc@, ray@.dir, 0x14000000, 0x2000000);
            lemma_fx_mul_bound(self@.radius, self@.radius, 0x4000000, 0x4000000);
            lemma_square_nonneg(self@.radius);
        }
        let half_b: Fx = dot(oc, ray.direction());
        let c: Fx = oc.length_squared().sub(self.radius.mul(self.radius));
        proof {
            lemma_fx_mul_bound(half_b@, half_b@, 0x7800000000, 0x7800000000);
            lemma_square_nonneg(half_b@);
            lemma_fx_mul_bound(a@, c@, 0xc00000000, 0x4c000000000);
        }
        let disc: Fx = half_b.mul(half_b).sub(a.mul(c));
        if a.bits == 0 || disc.bits < 0 {
            return None;
        }
        let sqrtd: Fx = disc.sqrt();
        let neg_hb: Fx = half_b.neg();
        proof {
            lemma_fx_div_bound(neg_hb@ - sqrtd@, a@, 0x87800000000, 1);
            lemma_fx_div_bound(neg_hb@ + sqrtd@, a@, 0x87800000000, 1);
        }
        let root1: Fx = neg_hb.sub(sqrtd).div(a);
        let root: Fx;
        if ray_t.surrounds(root1) {
            root = root1;
        } else {
            let root2: Fx = neg_hb.add(sqrtd).div(a);
            if !ray_t.surrounds(root2) {
                return None;
            }
            root = root2;
        }
        proof {
            lemma_fx_mul_bound(ray@.dir.x, root@, 0x2000000, TMAX as int);
            lemma_fx_mul_bound(ray@.dir.y, root@, 0x2000000, TMAX as int);
            lemma_fx_mul_bound(ray@.dir.z, root@, 0x2000000, TMAX as int);
        }
        let point: Point3 = ray.at(root);
        if point.ex.bits < -0x8000000 || point.ex.bits > 0x8000000 || point.ey.bits < -0x8000000
            || point.ey.bits > 0x8000000 || point.ez.bits < -0x8000000 || point.ez.bits
            > 0x8000000 {
            return None;
        }
        let diff: Vec3 = point.sub(center);
        let ra: Fx = self.radius.abs();
        let dx: Fx = diff.x().abs();
        let dy: Fx = diff.y().abs();
        let dz: Fx = diff.z().abs();
        if dx.bits > 2 * ra.bits || dy.bits > 2 * ra.bits || dz.bits > 2 * ra.bits {
            return None;
        }
        if !(2 * dx.bits >= ra.bits || 2 * dy.bits >= ra.bits || 2 * dz.bits >= ra.bits) {
            return None;
        }
        let n2d: Fx = diff.length_squared();
        let r2: Fx = self.radius.mul(self.radius);
        if 2 * (n2d.bits - r2.bits) > r2.bits || 2 * (r2.bits - n2d.bits) > r2.bits {
            return None;
        }
        proof {
            lemma_outward_normal(diff@, self@.radius);
            if iabs(self@.radius) >= 4096 {
                lemma_radial_normal(diff@, self@.radius);
            }
        }
        let outward: Vec3 = diff.div(self.radius);
        let mut rec: HitRecord = HitRecord::new(point, outward, root, true);
        rec.material = self.material;
        rec.set_face_normal(ray, outward);
        proof {
            lemma_norm2_neg(outward@);
        }
        Some(rec)
    }
}

/// A hit's fields follow its sphere: the material index is the sphere's,
/// and the parameter lies strictly inside the window.
pub proof fn lemma_sphere_hit_fields(s: SphereV, r: RayV, tmin: int, tmax: int)
    ensures
        sphere_hit_spec(s, r, tmin, tmax) matches Some(h) ==> h.material == s.material && tmin
            < h.t < tmax,
{
}

/// Moving the far end of the search window is harmless: a hit found in a
/// narrower window is exactly what the wider window finds, and a hit of
/// the wider window that lies inside the narrower one is found there too.
pub proof fn lemma_sphere_hit_window(s: SphereV, r: RayV, tmin: int, m1: int, m2: int)
    requires
        m1 <= m2,
    ensures
        sphere_hit_spec(s, r, tmin, m1) matches Some(h) ==> sphere_hit_spec(s, r, tmin, m2)
            == Some(h),
        sphere_hit_spec(s, r, tmin, m2) matches Some(h) ==> h.t < m1 ==> sphere_hit_spec(
            s,
            r,
            tmin,
            m1,
        ) == Some(h),
{
    let center = sphere_center_spec(s, r.time);
    let oc = v3_sub(r.orig, center);
    let a = norm2_spec(r.dir);
    let half_b = dot_spec(oc, r.dir);
    let c = norm2_spec(oc) - fx_mul_spec(s.radius, s.radius);
    let disc = fx_mul_spec(half_b, half_b) - fx_mul_spec(a, c);
    if a > 0 && disc >= 0 {
        crate::fixed::lemma_isqrt_spec_brackets(disc * SCALE);
        let sqrtd = isqrt_spec(disc * SCALE);
        crate::fixed::lemma_fx_div_monotone(-half_b - sqrtd, -half_b + sqrtd, a);
    }
}

/// Under `normal_guard`, the quotient `diff / radius` is a usable normal:
/// bounded by two units, and of squared length at least a quarter unit.
proof fn lemma_outward_normal(diff: V3, radius: int)
    requires
        radius != 0,
        normal_guard(diff, radius),
    ensures
        -0x7fffffffffffffff <= fx_div_spec(diff.x, radius) <= 0x7fffffffffffffff,
        -0x7fffffffffffffff <= fx_div_spec(diff.y, radius) <= 0x7fffffffffffffff,
        -0x7fffffffffffffff <= fx_div_spec(diff.z, radius) <= 0x7fffffffffffffff,
        in_range(v3_div(diff, radius), 2 * SCALE),
        norm2_spec(v3_div(diff, radius)) >= 0x4000,
{
    lemma_fx_div_le_multiple(diff.x, radius, 2);
    lemma_fx_div_le_multiple(diff.y, radius, 2);
    lemma_fx_div_le_multiple(diff.z, radius, 2);
    let n = v3_div(diff, radius);
    lemma_square_nonneg(n.x);
    lemma_square_nonneg(n.y);
    lemma_square_nonneg(n.z);
    if 2 * iabs(diff.x) >= iabs(radius) {
        lemma_fx_div_half_lower(diff.x, radius);
        lemma_component_square(n.x);
    } else if 2 * iabs(diff.y) >= iabs(radius) {
        lemma_fx_div_half_lower(diff.y, radius);
        lemma_component_square(n.y);
    } else {
        lemma_fx_div_half_lower(diff.z, radius);
        lemma_component_square(n.z);
    }
}

/// When the radius dominates the rounding (at least a sixteenth of a
/// unit), the two guards pin the stored normal's squared length close to
/// one unit.
proof fn lemma_radial_normal(diff: V3, radius: int)
    requires
        iabs(radius) >= 4096,
        normal_guard(diff, radius),
        radial_guard(diff, radius),
    ensures
        32000 <= norm2_spec(v3_div(diff, radius)) <= 99500,
{
    let rr = iabs(radius);
    let r2k = rr * rr;
    let n2d = norm2_spec(diff);
    let r2 = fx_mul_spec(radius, radius);
    lemma_square_nonneg(radius);
    assert(radius * radius == rr * rr) by (nonlinear_arith)
        requires
            rr == radius || rr == -radius,
    ;
    lemma_fundamental_div_mod(rr * rr, 65536);
    lemma_mod_bound(rr * rr, 65536);
    let rho2 = (rr * rr) % 65536;
    assert(r2 == (rr * rr) / 65536);
    assert(r2k == 65536 * r2 + rho2);
    assert(r2k >= 16777216) by (nonlinear_arith)
        requires
            rr >= 4096,
            r2k == rr * rr,
    ;

    // Component squares and their remainders below one step.
    let ax = iabs(diff.x);
    let ay = iabs(diff.y);
    let az = iabs(diff.z);
    assert(ax * ax == diff.x * diff.x && ay * ay == diff.y * diff.y && az * az == diff.z
        * diff.z) by (nonlinear_arith)
        requires
            (ax == diff.x || ax == -diff.x) && (ay == diff.y || ay == -diff.y) && (az == diff.z
                || az == -diff.z),
    ;
    lemma_square_nonneg(diff.x);
    lemma_square_nonneg(diff.y);
    lemma_square_nonneg(diff.z);
    lemma_fundamental_div_mod(ax * ax, 65536);
    lemma_mod_bound(ax * ax, 65536);
    lemma_fundamental_div_mod(ay * ay, 65536);
    lemma_mod_bound(ay * ay, 65536);
    lemma_fundamental_div_mod(az * az, 65536);
    lemma_mod_bound(az * az, 65536);
    let aa = ax * ax + ay * ay + az * az;
    assert(aa == 65536 * n2d + ((ax * ax) % 65536 + (ay * ay) % 65536 + (az * az) % 65536));

    // Quotient components along the radius.
    lemma_fx_div_le_multiple(diff.x, radius, 2);
    lemma_fx_div_le_multiple(diff.y, radius, 2);
    lemma_fx_div_le_multiple(diff.z, radius, 2);
    let qx = iabs(fx_div_spec(diff.x, radius));
    let qy = iabs(fx_div_spec(diff.y, radius));
    let qz = iabs(fx_div_spec(diff.z, radius));
    assert(qx == (ax * 65536) / rr && qy == (ay * 65536) / rr && qz == (az * 65536) / rr);
    assert(qx <= 131072 && qy <= 131072 && qz <= 131072);
    lemma_fundamental_div_mod(ax * 65536, rr);
    lemma_mod_bound(ax * 65536, rr);
    lemma_fundamental_div_mod(ay * 65536, rr);
    lemma_mod_bound(ay * 65536, rr);
    lemma_fundamental_div_mod(az * 65536, rr);
    lemma_mod_bound(az * 65536, rr);
    let sx = (ax * 65536) % rr;
    let sy = (ay * 65536) % rr;
    let sz = (az * 65536) % rr;

    // Square the split and sum.
    assert((ax * 65536) * (ax * 65536) == r2k * (qx * qx) + 2 * rr * (qx * sx) + sx * sx)
        by (nonlinear_arith)
        requires
            ax * 65536 == rr * qx + sx,
            r2k == rr * rr,
    ;
    assert((ay * 65536) * (ay * 65536) == r2k * (qy * qy) + 2 * rr * (qy * sy) + sy * sy)
        by (nonlinear_arith)
        requires
            ay * 65536 == rr * qy + sy,
            r2k == rr * rr,
    ;
    assert((az * 65536) * (az * 65536) == r2k * (qz * qz) + 2 * rr * (qz * sz) + sz * sz)
        by (nonlinear_arith)
        requires
            az * 65536 == rr * qz + sz,
            r2k == rr * rr,
    ;
    assert((ax * 65536) * (ax * 65536) == (ax * ax) * 4294967296) by (nonlinear_arith);
    assert((ay * 65536) * (ay * 65536) == (ay * ay) * 4294967296) by (nonlinear_arith);
    assert((az * 65536) * (az * 65536) == (az * az) * 4294967296) by (nonlinear_arith);
    let uu = qx * qx + qy * qy + qz * qz;
    let cross_term = qx * sx + qy * sy + qz * sz;
    let ss = sx * sx + sy * sy + sz * sz;
    assert(r2k * uu == r2k * (qx * qx) + r2k * (qy * qy) + r2k * (qz * qz)) by (nonlinear_arith)
        requires
            uu == qx * qx + qy * qy + qz * qz,
    ;
    assert(2 * rr * cross_term == 2 * rr * (qx * sx) + 2 * rr * (qy * sy) + 2 * rr * (qz * sz))
        by (nonlinear_arith)
        requires
            cross_term == qx * sx + qy * sy + qz * sz,
    ;
    assert(aa * 4294967296 == r2k * uu + 2 * rr * cross_term + ss);

    // Error-term bounds.
    assert(0 <= cross_term && cross_term <= 393216 * rr) by (nonlinear_arith)
        requires
            cross_term == qx * sx + qy * sy + qz * sz,
            0 <= qx <= 131072 && 0 <= qy <= 131072 && 0 <= qz <= 131072,
            0 <= sx <= rr && 0 <= sy <= rr && 0 <= sz <= rr,
    ;
    assert(0 <= 2 * rr * cross_term && 2 * rr * cross_term <= 786432 * r2k) by (nonlinear_arith)
        requires
            0 <= cross_term <= 393216 * rr,
            0 <= rr,
            r2k == rr * rr,
    ;
    assert(0 <= ss && ss <= 3 * r2k) by (nonlinear_arith)
        requires
            ss == sx * sx + sy * sy + sz * sz,
            0 <= sx <= rr && 0 <= sy <= rr && 0 <= sz <= rr,
            r2k == rr * rr,
    ;

    // The radial guard brackets n2d between half and three halves of r2.
    assert(2 * n2d >= r2 && 2 * n2d <= 3 * r2);

    // Upper bound on the quotient's squared length.
    assert(aa * 4294967296 == n2d * 281474976710656 + (aa - 65536 * n2d) * 4294967296);
    assert(2 * (r2k * uu) <= 2 * (n2d * 281474976710656) + 2 * 196605 * 4294967296);
    assert(2 * (n2d * 281474976710656) == (2 * n2d) * 281474976710656) by (nonlinear_arith);
    assert((2 * n2d) * 281474976710656 <= (3 * r2) * 281474976710656) by (nonlinear_arith)
        requires
            2 * n2d <= 3 * r2,
    ;
    assert((3 * r2) * 281474976710656 == (65536 * r2) * (3 * 4294967296)) by (nonlinear_arith);
    assert((65536 * r2) * (3 * 4294967296) <= r2k * 12884901888) by (nonlinear_arith)
        requires
            65536 * r2 <= r2k,
    ;
    assert(2 * 196605int * 4294967296 <= 100661760 * r2k) by (nonlinear_arith)
        requires
            r2k >= 16777216,
    ;
    assert(2 * (r2k * uu) <= r2k * 12985563648) by (nonlinear_arith)
        requires
            2 * (r2k * uu) <= r2k * 12884901888 + 100661760 * r2k,
    ;
    assert(uu <= 6492781824) by (nonlinear_arith)
        requires
            2 * (r2k * uu) <= r2k * 12985563648,
            r2k >= 1,
    ;

    // Lower bound on the quotient's squared length.
    assert(2 * (r2k * uu) >= 2 * (n2d * 281474976710656) - 2 * (2 * rr * cross_term) - 2 * ss);
    assert((2 * n2d) * 281474976710656 >= r2 * 281474976710656) by (nonlinear_arith)
        requires
            2 * n2d >= r2,
    ;
    assert(r2 * 281474976710656 == (65536 * r2) * 4294967296) by (nonlinear_arith);
    assert((65536 * r2) * 4294967296 >= r2k * 4294967296 - 65535 * 4294967296)
        by (nonlinear_arith)
        requires
            65536 * r2 >= r2k - 65535,
    ;
    assert(65535int * 4294967296 <= 16776960 * r2k) by (nonlinear_arith)
        requires
            r2k >= 16777216,
    ;
    assert(2 * (r2k * uu) >= r2k * 4294967296 - 16776960 * r2k - 1572864 * r2k - 6 * r2k)
        by (nonlinear_arith)
        requires
            2 * (r2k * uu) >= (2 * n2d) * 281474976710656 - 2 * (2 * rr * cross_term) - 2 * ss,
            (2 * n2d) * 281474976710656 >= r2k * 4294967296 - 16776960 * r2k,
            2 * rr * cross_term <= 786432 * r2k,
            ss <= 3 * r2k,
    ;
    assert(uu >= 2138308733) by (nonlinear_arith)
        requires
            2 * (r2k * uu) >= r2k * 4276617466,
            r2k >= 1,
    ;

    // Fold through the normalized components' own remainders.
    let n = v3_div(diff, radius);
    assert(n.x * n.x == qx * qx && n.y * n.y == qy * qy && n.z * n.z == qz * qz)
        by (nonlinear_arith)
        requires
            (qx == n.x || qx == -n.x) && (qy == n.y || qy == -n.y) && (qz == n.z || qz == -n.z),
    ;
    lemma_fundamental_div_mod(qx * qx, 65536);
    lemma_mod_bound(qx * qx, 65536);
    lemma_fundamental_div_mod(qy * qy, 65536);
    lemma_mod_bound(qy * qy, 65536);
    lemma_fundamental_div_mod(qz * qz, 65536);
    lemma_mod_bound(qz * qz, 65536);
    assert(qx * qx >= 0 && qy * qy >= 0 && qz * qz >= 0) by (nonlinear_arith)
        requires
            0 <= qx && 0 <= qy && 0 <= qz,
    ;
    let g = norm2_spec(n);
    assert(uu == 65536 * g + ((qx * qx) % 65536 + (qy * qy) % 65536 + (qz * qz) % 65536));
    assert(65536 * g <= uu);
    assert(65536 * g >= uu - 196605);
}

/// The rescaled square of anything at least half a unit is at least a
/// quarter unit.
proof fn lemma_component_square(c: int)
    requires
        iabs(c) >= 32768,
    ensures
        fx_mul_spec(c, c) >= 0x4000,
{
    assert(c * c == iabs(c) * iabs(c)) by (nonlinear_arith)
        requires
            iabs(c) == c || iabs(c) == -c,
    ;
    lemma_fx_sq_monotone(32768, iabs(c));
    assert(32768int * 32768 == 0x40000000) by (nonlinear_arith);
    assert(iabs(0x40000000) == 0x40000000);
    assert(0x40000000int / 65536 == 0x4000);
    assert(crate::fixed::tdiv(0x40000000, 65536) == 0x4000);
    assert(fx_mul_spec(32768, 32768) == 0x4000);
}

} // verus!
