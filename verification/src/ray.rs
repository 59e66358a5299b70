//! A ray: origin, direction, and the time at which it samples a moving
//! scene (used for motion blur).

use crate::fixed::{fx_mul_spec, Fx};
use crate::vec3::{v3_add, v3_scale, Vec3, V3};
use vstd::prelude::*;

verus! {

/// Mathematical image of a ray.
pub struct RayV {
    pub orig: V3,
    pub dir: V3,
    pub time: int,
}

/// The point reached after travelling `t` along the ray.
pub open spec fn ray_at_spec(r: RayV, t: int) -> V3 {
    v3_add(r.orig, v3_scale(r.dir, t))
}

#[derive(Clone, Copy, Debug, PartialEq, Eq, Structural)]
pub struct Ray {
    pub origin: Vec3,
    pub direction: Vec3,
    pub time: Fx,
}

impl View for Ray {
    type V = RayV;

    open spec fn view(&self) -> RayV {
        RayV { orig: self.origin@, dir: self.direction@, time: self.time@ }
    }
}

impl Ray {
    pub fn new(origin: Vec3, direction: Vec3, time: Fx) -> (r: Ray)
        ensures
            r@ == (RayV { orig: origin@, dir: direction@, time: time@ }),
    {
        Ray { origin, direction, time }
    }

    pub fn origin(&self) -> (r: Vec3)
        ensures
            r@ == self@.orig,
    {
        self.origin
    }

    pub fn direction(&self) -> (r: Vec3)
        ensures
            r@ == self@.dir,
    {
        self.direction
    }

    pub fn time(&self) -> (r: Fx)
        ensures
            r@ == self@.time,
    {
        self.time
    }

    /// The point at parameter `t`: `origin + t * direction`.
    pub fn at(&self, t: Fx) -> (r: Vec3)
        requires
            -0x7fffffffffffffff <= fx_mul_spec(self@.dir.x, t@) <= 0x7fffffffffffffff,
            -0x7fffffffffffffff <= fx_mul_spec(self@.dir.y, t@) <= 0x7fffffffffffffff,
            -0x7fffffffffffffff <= fx_mul_spec(self@.dir.z, t@) <= 0x7fffffffffffffff,
            i64::MIN <= self@.orig.x + fx_mul_spec(self@.dir.x, t@) <= i64::MAX,
            i64::MIN <= self@.orig.y + fx_mul_spec(self@.dir.y, t@) <= i64::MAX,
            i64::MIN <= self@.orig.z + fx_mul_spec(self@.dir.z, t@) <= i64::MAX,
        ensures
            r@ == ray_at_spec(self@, t@),
    {
        self.origin.add(self.direction.scale(t))
    }
}

} // verus!
