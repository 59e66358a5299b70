//! The intersection record, and the representable-range bounds that rays,
//! hit points and normals obey throughout the renderer.

use crate::fixed::{Fx, SCALE};
use crate::ray::{Ray, RayV};
use crate::vec3::{dot, dot_spec, in_range, norm2_spec, v3_neg, Point3, Vec3, V3};
use vstd::prelude::*;

verus! {

/// Largest raw magnitude of a scene coordinate (sphere centres, radii).
pub const CMAX: i64 = 0x4000000;

/// Largest raw magnitude of a ray origin or hit point coordinate.
pub const OMAX: i64 = 0x8000000;

/// Largest raw magnitude of a ray direction coordinate.
pub const DMAX: i64 = 0x2000000;

/// Far limit of the hit parameter: stands in for an unbounded search.
pub const TMAX: i64 = 0x10000000000;

/// A usable ray: origin and direction in representable range, direction
/// long enough to normalize, time within the shutter interval `[0, 1]`.
pub open spec fn ray_wf(r: RayV) -> bool {
    &&& in_range(r.orig, OMAX as int)
    &&& in_range(r.dir, DMAX as int)
    &&& norm2_spec(r.dir) >= 1
    &&& 0 <= r.time <= SCALE
}

/// Whether the geometric normal already opposes the incoming direction.
pub open spec fn front_face_spec(dir: V3, outward: V3) -> bool {
    dot_spec(dir, outward) < 0
}

/// The stored normal: the outward normal, flipped if needed so that it
/// always points against the incoming direction.
pub open spec fn oriented_normal_spec(dir: V3, outward: V3) -> V3 {
    if front_face_spec(dir, outward) {
        outward
    } else {
        v3_neg(outward)
    }
}

/// Mathematical image of a hit record.
pub struct HitV {
    pub point: V3,
    pub normal: V3,
    pub t: int,
    pub front_face: bool,
    pub material: int,
}

/// A well-formed hit: point in range, normal close to unit length (bounded
/// above, and long enough to scatter from).
pub open spec fn hit_wf(h: HitV) -> bool {
    &&& in_range(h.point, OMAX as int)
    &&& in_range(h.normal, 2 * SCALE)
    &&& norm2_spec(h.normal) >= 0x4000
    &&& 0 <= h.material
}

/// The output of a successful intersection: hit point, oriented surface
/// normal, parameter, orientation flag, and the owning material's index.
#[derive(Clone, Copy, Debug, PartialEq, Eq, Structural)]
pub struct HitRecord {
    pub point: Point3,
    pub normal: Vec3,
    pub t: Fx,
    pub front_face: bool,
    pub material: usize,
}

impl View for HitRecord {
    type V = HitV;

    open spec fn view(&self) -> HitV {
        HitV {
            point: self.point@,
            normal: self.normal@,
            t: self.t@,
            front_face: self.front_face,
            material: self.material as int,
        }
    }
}

impl HitRecord {
    pub fn new(point: Point3, normal: Vec3, t: Fx, front_face: bool) -> (r: HitRecord)
        ensures
            r@ == (HitV {
                point: point@,
                normal: normal@,
                t: t@,
                front_face,
                material: 0,
            }),
    {
        HitRecord { point, normal, t, front_face, material: 0 }
    }

    /// Store `outward_normal` oriented against the incoming ray, and record
    /// in `front_face` whether it already pointed that way.
    pub fn set_face_normal(&mut self, ray: &Ray, outward_normal: Vec3)
        requires
            in_range(ray@.dir, 0x4000000000),
            in_range(outward_normal@, 0x4000000000),
        ensures
            final(self).front_face == front_face_spec(ray@.dir, outward_normal@),
            final(self).normal@ == oriented_normal_spec(ray@.dir, outward_normal@),
            final(self).point == old(self).point,
            final(self).t == old(self).t,
            final(self).material == old(self).material,
    {
        let d: Fx = dot(ray.direction(), outward_normal);
        self.front_face = d.bits < 0;
        self.normal = if self.front_face {
            outward_normal
        } else {
            outward_normal.neg()
        };
    }
}

} // verus!
