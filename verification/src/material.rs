//! Material scattering: diffuse (Lambertian), metallic, and dielectric.
//!
//! Every variant always scatters, and every scattered ray originates
//! exactly at the hit point, carries the incoming ray's time, and is
//! well formed — those facts are part of each `scatter` contract.  A
//! direction that collapses below the resolution floor falls back to the
//! surface normal, so a scattered ray is always usable.

use crate::color::Color;
use crate::fixed::{fx_div_spec, lemma_fx_div_bound, lemma_fx_mul_bound, Fx, SCALE};
use crate::hittable::{hit_wf, ray_wf, HitRecord};
use crate::ray::{Ray, RayV};
use crate::utils::random_float;
use crate::vec3::{
    dot, dot_spec, lemma_dot_bound, lemma_not_near_zero_norm2, lemma_square_nonneg, min2,
    near_zero_spec, random_unit_vector, reflect, reflect_spec, refract, refract_spec,
    unit_draw_spec, unit_spec, unit_vector, v3_add, v3_neg, v3_scale, Vec3, V3,
};
use vstd::prelude::*;

verus! {

/// A colour with every channel in `[0, 1]`.
pub open spec fn color_wf(c: V3) -> bool {
    &&& 0 <= c.x <= SCALE
    &&& 0 <= c.y <= SCALE
    &&& 0 <= c.z <= SCALE
}

/// A diffuse surface that tints by its albedo.
#[derive(Clone, Copy, Debug, PartialEq, Eq, Structural)]
pub struct Lambertian {
    pub albedo: Color,
}

/// A reflective surface: albedo tint and a fuzz radius in `[0, 1]`.
#[derive(Clone, Copy, Debug, PartialEq, Eq, Structural)]
pub struct Metal {
    pub albedo: Color,
    pub fuzz: Fx,
}

/// A clear surface with the given index of refraction.
#[derive(Clone, Copy, Debug, PartialEq, Eq, Structural)]
pub struct Dielectric {
    pub refraction_index: Fx,
}

/// The refraction ratio a dielectric uses: the reciprocal of its index
/// when the ray enters the surface, the index itself when it exits.
pub open spec fn dielectric_ratio_spec(d: Dielectric, front_face: bool) -> int {
    if front_face {
        fx_div_spec(SCALE as int, d.refraction_index@)
    } else {
        d.refraction_index@
    }
}

/// The near-zero fallback every material applies: a scatter direction
/// that collapses below the resolution floor is replaced by the surface
/// normal, so the scattered ray is always usable.
pub open spec fn guarded_dir_spec(chosen: V3, normal: V3) -> V3 {
    if near_zero_spec(chosen) {
        normal
    } else {
        chosen
    }
}

/// The diffuse scatter direction for the drawn unit vector `u`:
/// `normal + u`, guarded.
pub open spec fn lambertian_dir_spec(normal: V3, u: V3) -> V3 {
    guarded_dir_spec(v3_add(normal, u), normal)
}

/// The metallic scatter direction for the drawn unit vector `u`: the
/// mirror reflection of the incoming unit direction, perturbed by
/// `fuzz * u`, guarded.
pub open spec fn metal_dir_spec(in_dir: V3, normal: V3, fuzz: int, u: V3) -> V3 {
    guarded_dir_spec(v3_add(reflect_spec(unit_spec(in_dir), normal), v3_scale(u, fuzz)), normal)
}

/// Total internal reflection: the refraction ratio times the incidence
/// sine exceeds one, so Snell's law has no transmitted solution and the
/// surface must reflect.
pub open spec fn dielectric_must_reflect(u: V3, n: V3, ratio: int) -> bool {
    let cos = min2(dot_spec(v3_neg(u), n), SCALE as int);
    let s2 = SCALE - crate::fixed::fx_mul_spec(cos, cos);
    let s2c = if s2 < 0 {
        0
    } else {
        s2
    };
    crate::fixed::fx_mul_spec(ratio, crate::fixed::isqrt_spec(s2c * SCALE)) > SCALE
}

/// The dielectric scatter direction for the uniform draw `q`: reflect
/// under total internal reflection or when the Schlick reflectance
/// exceeds the draw, else refract; guarded.
pub open spec fn dielectric_dir_spec(d: Dielectric, u: V3, n: V3, front_face: bool, q: int) -> V3 {
    let ratio = dielectric_ratio_spec(d, front_face);
    let cos = min2(dot_spec(v3_neg(u), n), SCALE as int);
    let chosen = if dielectric_must_reflect(u, n, ratio) || reflectance_spec(cos, ratio) > q {
        reflect_spec(u, n)
    } else {
        refract_spec(u, n, ratio)
    };
    guarded_dir_spec(chosen, n)
}

/// The closed set of surface behaviours.
#[derive(Clone, Copy, Debug, PartialEq, Eq, Structural)]
pub enum Material {
    Lambertian(Lambertian),
    Metal(Metal),
    Dielectric(Dielectric),
}

/// A representable material: albedos are colours, fuzz lies in `[0, 1]`,
/// and the refraction index lies in `[1/4, 4]`.
pub open spec fn material_wf(m: Material) -> bool {
    match m {
        Material::Lambertian(l) => color_wf(l.albedo@),
        Material::Metal(me) => color_wf(me.albedo@) && 0 <= me.fuzz@ <= SCALE,
        Material::Dielectric(d) => 0x4000 <= d.refraction_index@ <= 0x40000,
    }
}

/// What every scatter call promises: a scattered ray out of the hit point,
/// at the incoming ray's time, well formed, with a colour attenuation.
pub open spec fn scatter_ok(res: Option<(Color, Ray)>, ray_in: RayV, point: V3) -> bool {
    match res {
        Some((attenuation, scattered)) => {
            &&& color_wf(attenuation@)
            &&& scattered@.orig == point
            &&& scattered@.time == ray_in.time
            &&& ray_wf(scattered@)
        },
        None => false,
    }
}

impl Material {
    /// Dispatch to the variant's scatter rule.
    pub fn scatter(&self, ray_in: &Ray, hit_record: &HitRecord, rng: &mut rand::rngs::ThreadRng)
        -> (res: Option<(Color, Ray)>)
        requires
            material_wf(*self),
            ray_wf(ray_in@),
            hit_wf(hit_record@),
        ensures
            scatter_ok(res, ray_in@, hit_record@.point),
            res is Some,
            (self matches Material::Lambertian(l) ==> res->Some_0.0 == l.albedo && (exists|u: V3|
                unit_draw_spec(u) && res->Some_0.1@.dir == #[trigger] lambertian_dir_spec(
                    hit_record@.normal,
                    u,
                ))),
            (self matches Material::Metal(m) ==> res->Some_0.0 == m.albedo && (exists|u: V3|
                unit_draw_spec(u) && res->Some_0.1@.dir == #[trigger] metal_dir_spec(
                    ray_in@.dir,
                    hit_record@.normal,
                    m.fuzz@,
                    u,
                ))),
            (self matches Material::Dielectric(d) ==> res->Some_0.0@ == (V3 {
                x: SCALE as int,
                y: SCALE as int,
                z: SCALE as int,
            }) && (exists|q: int|
                0 <= q < SCALE && res->Some_0.1@.dir == #[trigger] dielectric_dir_spec(
                    *d,
                    unit_spec(ray_in@.dir),
                    hit_record@.normal,
                    hit_record@.front_face,
                    q,
                ))),
    {
        match self {
            Material::Lambertian(material) => material.scatter(ray_in, hit_record, rng),
            Material::Metal(material) => material.scatter(ray_in, hit_record, rng),
            Material::Dielectric(material) => material.scatter(ray_in, hit_record, rng),
        }
    }
}

impl Lambertian {
    /// Scatter towards `normal + random unit vector`; if that collapses,
    /// scatter straight along the normal.  Never absorbs.
    pub fn scatter(&self, ray_in: &Ray, rec: &HitRecord, rng: &mut rand::rngs::ThreadRng) -> (res:
        Option<(Color, Ray)>)
        requires
            color_wf(self.albedo@),
            ray_wf(ray_in@),
            hit_wf(rec@),
        ensures
            scatter_ok(res, ray_in@, rec@.point),
            res is Some,
            res->Some_0.0 == self.albedo,
            exists|u: V3|
                unit_draw_spec(u) && res->Some_0.1@.dir == #[trigger] lambertian_dir_spec(
                    rec@.normal,
                    u,
                ),
    {
        let rand_dir: Vec3 = random_unit_vector(rng);
        let mut scatter_direction: Vec3 = rec.normal.add(rand_dir);
        if scatter_direction.near_zero() {
            scatter_direction = rec.normal;
        } else {
            proof {
                lemma_not_near_zero_norm2(scatter_direction@);
            }
        }
        proof {
            assert(scatter_direction@ == lambertian_dir_spec(rec@.normal, rand_dir@));
        }
        let scattered: Ray = Ray::new(rec.point, scatter_direction, ray_in.time());
        Some((self.albedo, scattered))
    }
}

impl Metal {
    /// Scatter along the mirror reflection of the incoming direction,
    /// perturbed by `fuzz` times a random unit vector.  Never absorbs.
    pub fn scatter(&self, ray_in: &Ray, hit_record: &HitRecord, rng: &mut rand::rngs::ThreadRng)
        -> (res: Option<(Color, Ray)>)
        requires
            color_wf(self.albedo@),
            0 <= self.fuzz@ <= SCALE,
            ray_wf(ray_in@),
            hit_wf(hit_record@),
        ensures
            scatter_ok(res, ray_in@, hit_record@.point),
            res is Some,
            res->Some_0.0 == self.albedo,
            exists|u: V3|
                unit_draw_spec(u) && res->Some_0.1@.dir == #[trigger] metal_dir_spec(
                    ray_in@.dir,
                    hit_record@.normal,
                    self.fuzz@,
                    u,
                ),
    {
        let reflected: Vec3 = reflect(unit_vector(ray_in.direction()), hit_record.normal);
        let perturbation: Vec3 = random_unit_vector(rng);
        proof {
            lemma_fx_mul_bound(perturbation@.x, self.fuzz@, 0x20000, 65536);
            lemma_fx_mul_bound(perturbation@.y, self.fuzz@, 0x20000, 65536);
            lemma_fx_mul_bound(perturbation@.z, self.fuzz@, 0x20000, 65536);
        }
        let mut direction: Vec3 = reflected.add(perturbation.scale(self.fuzz));
        if direction.near_zero() {
            direction = hit_record.normal;
        } else {
            proof {
                lemma_not_near_zero_norm2(direction@);
            }
        }
        proof {
            assert(direction@ == metal_dir_spec(
                ray_in@.dir,
                hit_record@.normal,
                self.fuzz@,
                perturbation@,
            ));
        }
        let scattered: Ray = Ray::new(hit_record.point, direction, ray_in.time());
        Some((self.albedo, scattered))
    }
}

impl Dielectric {
    /// Refract by Snell's law where possible; reflect under total internal
    /// reflection, or stochastically by Schlick's approximation of the
    /// Fresnel reflectance.  Attenuation is always white.  Never absorbs.
    pub fn scatter(&self, ray_in: &Ray, hit_record: &HitRecord, rng: &mut rand::rngs::ThreadRng)
        -> (res: Option<(Color, Ray)>)
        requires
            0x4000 <= self.refraction_index@ <= 0x40000,
            ray_wf(ray_in@),
            hit_wf(hit_record@),
        ensures
            scatter_ok(res, ray_in@, hit_record@.point),
            res is Some,
            res->Some_0.0@ == (V3 { x: SCALE as int, y: SCALE as int, z: SCALE as int }),
            ({
                let dir = res->Some_0.1@.dir;
                let u = unit_spec(ray_in@.dir);
                let n = hit_record@.normal;
                let ratio = dielectric_ratio_spec(*self, hit_record@.front_face);
                &&& (dir == reflect_spec(u, n) || dir == refract_spec(u, n, ratio) || dir == n)
                &&& (dielectric_must_reflect(u, n, ratio) && !near_zero_spec(reflect_spec(u, n))
                    ==> dir == reflect_spec(u, n))
            }),
            exists|q: int|
                0 <= q < SCALE && res->Some_0.1@.dir == #[trigger] dielectric_dir_spec(
                    *self,
                    unit_spec(ray_in@.dir),
                    hit_record@.normal,
                    hit_record@.front_face,
                    q,
                ),
    {
        let refraction_ratio: Fx = if hit_record.front_face {
            proof {
                lemma_fx_div_bound(65536, self.refraction_index@, 65536, 0x4000);
                vstd::arithmetic::div_mod::lemma_div_pos_is_pos(
                    65536 * (SCALE as int),
                    crate::fixed::iabs(self.refraction_index@),
                );
            }
            Fx::one().div(self.refraction_index)
        } else {
            self.refraction_index
        };
        let unit_direction: Vec3 = unit_vector(ray_in.direction());
        let cos_theta: Fx = dot(unit_direction.neg(), hit_record.normal).min(Fx::one());
        proof {
            lemma_dot_bound(v3_neg(unit_direction@), hit_record@.normal, 0x20000, 0x20000);
            lemma_fx_mul_bound(cos_theta@, cos_theta@, 0xc0000, 0xc0000);
            lemma_square_nonneg(cos_theta@);
        }
        let cos2: Fx = cos_theta.mul(cos_theta);
        let s2: Fx = Fx::one().sub(cos2);
        let s2c: Fx = if s2.bits < 0 {
            Fx::zero()
        } else {
            s2
        };
        let sin_theta: Fx = s2c.sqrt();
        proof {
            lemma_fx_mul_bound(refraction_ratio@, sin_theta@, 0x40000, 0x80000000000);
        }
        let cannot_refract: bool = refraction_ratio.mul(sin_theta).bits > 65536;
        let ghost mut draw: int = 0;
        let must_reflect: bool;
        if cannot_refract {
            must_reflect = true;
        } else {
            let q: Fx = random_float(rng);
            proof {
                draw = q@;
            }
            must_reflect = reflectance(cos_theta, refraction_ratio).bits > q.bits;
        }
        let direction: Vec3 = if must_reflect {
            reflect(unit_direction, hit_record.normal)
        } else {
            refract(unit_direction, hit_record.normal, refraction_ratio)
        };
        let mut final_direction: Vec3 = direction;
        if final_direction.near_zero() {
            final_direction = hit_record.normal;
        } else {
            proof {
                lemma_not_near_zero_norm2(final_direction@);
            }
        }
        proof {
            assert(final_direction@ == dielectric_dir_spec(
                *self,
                unit_spec(ray_in@.dir),
                hit_record@.normal,
                hit_record@.front_face,
                draw,
            ));
        }
        let scattered: Ray = Ray::new(hit_record.point, final_direction, ray_in.time());
        Some((Vec3::new(Fx::one(), Fx::one(), Fx::one()), scattered))
    }
}

/// Schlick's approximation of the Fresnel reflectance:
/// `r0 + (1 - r0) * (1 - cos)^5` with `r0 = ((1 - n) / (1 + n))^2`.
pub fn reflectance(cosine: Fx, refraction_index: Fx) -> (r: Fx)
    requires
        -0xc0000 <= cosine@ <= 0x10000,
        0 <= refraction_index@ <= 0x40000,
    ensures
        r@ == reflectance_spec(cosine@, refraction_index@),
{
    proof {
        lemma_fx_div_bound(SCALE as int - refraction_index@, SCALE as int + refraction_index@,
            0x30000, 0x10000);
    }
    let r0_base: Fx = Fx::one().sub(refraction_index).div(Fx::one().add(refraction_index));
    proof {
        lemma_fx_mul_bound(r0_base@, r0_base@, 0x30000, 0x30000);
        lemma_square_nonneg(r0_base@);
    }
    let r0: Fx = r0_base.mul(r0_base);
    let m: Fx = Fx::one().sub(cosine);
    proof {
        lemma_fx_mul_bound(m@, m@, 0xd0000, 0xd0000);
        lemma_square_nonneg(m@);
    }
    let m2: Fx = m.mul(m);
    proof {
        lemma_fx_mul_bound(m2@, m2@, 0xa90000, 0xa90000);
        lemma_square_nonneg(m2@);
    }
    let m4: Fx = m2.mul(m2);
    proof {
        lemma_fx_mul_bound(m4@, m@, 0x70000000, 0xd0000);
    }
    let m5: Fx = m4.mul(m);
    proof {
        lemma_fx_mul_bound(SCALE as int - r0@, m5@, 0xa0000, 0x5b0000000);
    }
    let term: Fx = Fx::one().sub(r0).mul(m5);
    r0.add(term)
}

/// The exact value `reflectance` computes.
pub open spec fn reflectance_spec(cosine: int, refraction_index: int) -> int {
    let r0b = fx_div_spec(SCALE - refraction_index, SCALE + refraction_index);
    let r0 = crate::fixed::fx_mul_spec(r0b, r0b);
    let m = SCALE - cosine;
    let m2 = crate::fixed::fx_mul_spec(m, m);
    let m4 = crate::fixed::fx_mul_spec(m2, m2);
    let m5 = crate::fixed::fx_mul_spec(m4, m);
    r0 + crate::fixed::fx_mul_spec(SCALE - r0, m5)
}

} // verus!
