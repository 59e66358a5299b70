//! The camera: viewport and basis construction, defocus-disk ray sampling,
//! the recursive transport kernel `ray_color`, and the render loop.

use crate::color::{quant_spec, quantize_color, Color, Rgb};
use crate::fixed::{
    fx_div_spec, fx_mul_spec, iabs, lemma_fx_div_bound, lemma_fx_div_nonneg, lemma_fx_mul_bound,
    lemma_fx_mul_nonneg, lemma_tdiv_bound, tdiv, Fx, SCALE,
};
use crate::hittable::{ray_wf, HitRecord, TMAX};
use crate::hittables::HittableList;
use crate::interval::Interval;
use crate::material::{material_wf, Material};
use crate::ray::{Ray, RayV};
use crate::sphere::{lemma_sphere_hit_fields, sphere_hit_spec};
use crate::utils::{deg2rad_spec, degrees_to_radians, random_float, tan_fx, tan_spec};
use crate::vec3::{
    cross, cross_spec, in_range, lemma_cross_fits, norm2_spec, random_in_unit_disk, unit_spec,
    unit_vector, v3_add, v3_div, v3_neg, v3_scale, v3_sub, Point3, Vec3, V3,
};
use vstd::arithmetic::div_mod::{
    lemma_div_is_ordered, lemma_div_multiples_vanish, lemma_div_multiples_vanish_quotient,
    lemma_div_pos_is_pos, lemma_fundamental_div_mod, lemma_mod_bound,
};
use vstd::prelude::*;

verus! {

/// Pure black: what an exhausted or absorbed path contributes.
pub open spec fn black_spec() -> V3 {
    V3 { x: 0, y: 0, z: 0 }
}

/// The sky gradient: blend white into blue by the upward tilt of the ray.
pub open spec fn background_spec(r: RayV) -> V3 {
    let u = unit_spec(r.dir);
    let delta = fx_mul_spec(32768, u.y + SCALE);
    v3_add(
        v3_scale(V3 { x: SCALE as int, y: SCALE as int, z: SCALE as int }, SCALE - delta),
        v3_scale(V3 { x: 32768, y: 45875, z: SCALE as int }, delta),
    )
}

/// No member of the scene blocks the ray within the transport window.
pub open spec fn misses_scene(world: HittableList, r: RayV) -> bool {
    forall|i: int|
        0 <= i < world.objs().len() ==> sphere_hit_spec(
            #[trigger] world.objs()[i],
            r,
            64,
            TMAX as int,
        ) is None
}

/// A scene with no objects blocks no ray: with any bounce budget left,
/// the transport kernel returns exactly the background gradient for every
/// ray (the pure-background round trip of an empty render).
pub proof fn lemma_empty_scene_misses(world: HittableList, r: RayV)
    requires
        world.objs().len() == 0,
    ensures
        misses_scene(world, r),
{
}

/// What one transported sample is guaranteed to be: a bounded,
/// non-negative colour; exact black on an exhausted budget; the exact
/// background on a miss; and exact black when a single remaining bounce
/// meets any surface (the attenuated, exhausted recursion).
pub open spec fn sample_color_spec(world: HittableList, r: RayV, depth: int, c: V3) -> bool {
    &&& in_range(c, 4 * SCALE)
    &&& 0 <= c.x && 0 <= c.y && 0 <= c.z
    &&& depth <= 0 ==> c == black_spec()
    &&& (depth > 0 && misses_scene(world, r)) ==> c == background_spec(r)
    &&& (depth == 1 && !misses_scene(world, r)) ==> c == black_spec()
}

/// The background gradient is a colour: every channel non-negative and
/// bounded (the blue channel is exactly one).
proof fn lemma_background_nonneg(r: RayV)
    requires
        in_range(unit_spec(r.dir), 2 * SCALE),
    ensures
        ({
            let c = background_spec(r);
            0 <= c.x <= 4 * SCALE && 0 <= c.y <= 4 * SCALE && c.z == SCALE
        }),
{
    let u = unit_spec(r.dir);
    let delta = fx_mul_spec(32768, u.y + SCALE);
    crate::fixed::lemma_div_exact_multiple((SCALE as int) - delta);
    crate::fixed::lemma_div_exact_multiple(delta);
    lemma_fx_mul_bound(32768, u.y + (SCALE as int), 32768, 0x30000);
    crate::fixed::lemma_tdiv_monotone(32768 * (-65536), 32768 * (u.y + (SCALE as int)), 65536);
    assert(iabs(-2147483648) == 2147483648);
    assert(2147483648int / 65536 == 32768);
    assert(crate::fixed::tdiv(-2147483648, 65536) == -32768);
    assert(-32768 <= delta <= 98304);
    lemma_channel_nonneg(delta, 32768);
    lemma_channel_nonneg(delta, 45875);
}

/// One blended channel of the background is non-negative and bounded:
/// `(1 - delta) + w * delta` for a weight `w` in `[1/2, 1]`.
proof fn lemma_channel_nonneg(delta: int, w: int)
    requires
        -32768 <= delta <= 98304,
        32768 <= w <= 65536,
    ensures
        0 <= (SCALE as int) - delta + fx_mul_spec(w, delta) <= 4 * SCALE,
{
    let c = (SCALE as int) - delta + fx_mul_spec(w, delta);
    crate::fixed::lemma_fx_mul_bound(w, delta, 65536, 98304);
    if delta >= 0 {
        assert(w * delta >= 0) by (nonlinear_arith)
            requires
                w >= 0,
                delta >= 0,
        ;
        let t = (w * delta) / 65536;
        assert(fx_mul_spec(w, delta) == t);
        lemma_fundamental_div_mod(w * delta, 65536);
        lemma_mod_bound(w * delta, 65536);
        assert(65536 * t > w * delta - 65536);
        assert(65536 * delta - w * delta == (65536 - w) * delta) by (nonlinear_arith);
        assert((65536 - w) * delta <= 32768 * 98304) by (nonlinear_arith)
            requires
                0 <= delta <= 98304,
                32768 <= w <= 65536,
        ;
        assert(65536 * c > 4294967296 - 32768 * 98304 - 65536);
    } else {
        assert(w * delta == -(w * (-delta))) by (nonlinear_arith);
        assert(0 <= w * (-delta) <= 65536 * 32768) by (nonlinear_arith)
            requires
                0 < -delta <= 32768,
                0 <= w <= 65536,
        ;
        lemma_div_pos_is_pos(w * (-delta), 65536);
        lemma_div_is_ordered(w * (-delta), 65536int * 32768, 65536);
        assert((65536int * 32768) / 65536 == 32768);
        assert(fx_mul_spec(w, delta) >= -32768);
    }
}

#[derive(Clone, Copy)]
pub struct Camera {
    // Configuration.
    pub aspect_ratio: Fx,
    pub image_width: u32,
    pub samples_per_pixel: u32,
    pub max_depth: u32,
    pub vfov: Fx,
    pub look_from: Point3,
    pub look_at: Point3,
    pub vup: Vec3,
    pub defocus_angle: Fx,
    pub focus_distance: Fx,
    // Derived state, filled in by `initialize`.
    pub image_height: u32,
    pub center: Point3,
    pub pixel00_loc: Point3,
    pub pixel_delta_u: Vec3,
    pub pixel_delta_v: Vec3,
    pub u: Vec3,
    pub v: Vec3,
    pub w: Vec3,
    pub defocus_disk_u: Vec3,
    pub defocus_disk_v: Vec3,
}

// --------------------------------------------------------------------------
// The derived state, at spec level: exactly what `initialize` computes.
// --------------------------------------------------------------------------

/// Rendered image height: width over aspect ratio, floored, at least one.
pub open spec fn cam_ih_spec(c: Camera) -> int {
    let h = tdiv(fx_div_spec(c.image_width * SCALE, c.aspect_ratio@), SCALE as int);
    if h < 1 {
        1
    } else {
        h
    }
}

/// The vertical field of view, in radians.
pub open spec fn cam_theta_spec(c: Camera) -> int {
    deg2rad_spec(c.vfov@)
}

/// `tan(vfov / 2)`: half the viewport height per unit of focus distance.
pub open spec fn cam_hh_spec(c: Camera) -> int {
    tan_spec(fx_div_spec(cam_theta_spec(c), 2 * SCALE))
}

/// Viewport height: `2 * tan(vfov / 2) * focus_distance`.
pub open spec fn cam_vh_spec(c: Camera) -> int {
    fx_mul_spec(fx_mul_spec(2 * SCALE, cam_hh_spec(c)), c.focus_distance@)
}

/// Viewport width: the height times the realized aspect ratio.
pub open spec fn cam_vw_spec(c: Camera) -> int {
    fx_mul_spec(cam_vh_spec(c), fx_div_spec(c.image_width * SCALE, cam_ih_spec(c) * SCALE))
}

/// Basis vector pointing from the target back to the camera.
pub open spec fn cam_w_spec(c: Camera) -> V3 {
    unit_spec(v3_sub(c.look_from@, c.look_at@))
}

/// Basis vector pointing to the camera's right.
pub open spec fn cam_u_spec(c: Camera) -> V3 {
    unit_spec(cross_spec(c.vup@, cam_w_spec(c)))
}

/// Basis vector pointing up in the camera frame.
pub open spec fn cam_v_spec(c: Camera) -> V3 {
    cross_spec(cam_w_spec(c), cam_u_spec(c))
}

/// Vector across the viewport's horizontal edge.
pub open spec fn cam_vu_spec(c: Camera) -> V3 {
    v3_scale(cam_u_spec(c), cam_vw_spec(c))
}

/// Vector down the viewport's vertical edge.
pub open spec fn cam_vv_spec(c: Camera) -> V3 {
    v3_scale(v3_neg(cam_v_spec(c)), cam_vh_spec(c))
}

/// Step from one pixel to the next, horizontally.
pub open spec fn cam_pdu_spec(c: Camera) -> V3 {
    v3_div(cam_vu_spec(c), c.image_width * SCALE)
}

/// Step from one pixel to the next, vertically.
pub open spec fn cam_pdv_spec(c: Camera) -> V3 {
    v3_div(cam_vv_spec(c), cam_ih_spec(c) * SCALE)
}

/// World position of the viewport's upper-left corner.
pub open spec fn cam_upper_left_spec(c: Camera) -> V3 {
    v3_sub(
        v3_sub(
            v3_sub(c.look_from@, v3_scale(cam_w_spec(c), c.focus_distance@)),
            v3_div(cam_vu_spec(c), 2 * SCALE),
        ),
        v3_div(cam_vv_spec(c), 2 * SCALE),
    )
}

/// World position of pixel (0, 0)'s centre.
pub open spec fn cam_pixel00_spec(c: Camera) -> V3 {
    v3_add(cam_upper_left_spec(c), v3_scale(v3_add(cam_pdu_spec(c), cam_pdv_spec(c)), 32768))
}

/// Radius of the defocus disk: `focus_distance * tan(defocus_angle / 2)`.
pub open spec fn cam_dr_spec(c: Camera) -> int {
    fx_mul_spec(c.focus_distance@, tan_spec(fx_div_spec(deg2rad_spec(c.defocus_angle@), 2 * SCALE)))
}

/// Horizontal radius vector of the defocus disk.
pub open spec fn cam_disk_u_spec(c: Camera) -> V3 {
    v3_scale(cam_u_spec(c), cam_dr_spec(c))
}

/// Vertical radius vector of the defocus disk.
pub open spec fn cam_disk_v_spec(c: Camera) -> V3 {
    v3_scale(cam_v_spec(c), cam_dr_spec(c))
}

/// A representable configuration: the scene geometry, resolution, angles
/// and focus all lie in the camera's working range, the view direction and
/// up vector are usable, and the derived viewport and defocus disk stay
/// within the direction budget of a ray.
pub open spec fn cam_cfg_wf(c: Camera) -> bool {
    &&& in_range(c.look_from@, 0x1000000)
    &&& in_range(c.look_at@, 0x1000000)
    &&& in_range(c.vup@, 0x20000)
    &&& norm2_spec(v3_sub(c.look_from@, c.look_at@)) >= 1
    &&& norm2_spec(cross_spec(c.vup@, cam_w_spec(c))) >= 1
    &&& 0x4000 <= c.aspect_ratio@ <= 0x80000
    &&& 1 <= c.image_width <= 4096
    &&& 1 <= c.samples_per_pixel <= 4096
    &&& c.max_depth <= 64
    &&& 0 <= c.vfov@ <= 0xa00000
    &&& 0 <= c.defocus_angle@ <= 0xa00000
    &&& SCALE <= c.focus_distance@ <= 0x400000
    &&& in_range(cam_v_spec(c), 0x20000)
    &&& in_range(cam_vu_spec(c), 0x300000)
    &&& in_range(cam_vv_spec(c), 0x300000)
    &&& -0x100000 <= cam_dr_spec(c) <= 0x100000
}

/// What holds of the derived state after `initialize`, and what ray
/// generation relies on.
pub open spec fn cam_derived_wf(c: Camera) -> bool {
    &&& in_range(c.center@, 0x1000000)
    &&& in_range(v3_sub(c.pixel00_loc@, c.center@), 0xe00000)
    &&& in_range(c.pixel_delta_u@, tdiv(0x300000, c.image_width as int))
    &&& in_range(c.pixel_delta_v@, tdiv(0x300000, c.image_height as int))
    &&& in_range(c.defocus_disk_u@, 0x200000)
    &&& in_range(c.defocus_disk_v@, 0x200000)
    &&& 1 <= c.image_width <= 4096
    &&& 1 <= c.image_height <= 16384
    &&& 1 <= c.samples_per_pixel <= 4096
}

/// The jittered sample position for the pixel at column `u`, row `v`:
/// the pixel's centre plus `px`, `py` (in `[-1/2, 1/2)`) steps of jitter.
pub open spec fn pixel_sample_pos_spec(c: Camera, u: int, v: int, px: int, py: int) -> V3 {
    v3_add(
        v3_add(
            v3_add(c.pixel00_loc@, v3_scale(c.pixel_delta_u@, u * SCALE)),
            v3_scale(c.pixel_delta_v@, v * SCALE),
        ),
        v3_add(v3_scale(c.pixel_delta_u@, px), v3_scale(c.pixel_delta_v@, py)),
    )
}

/// A ray origin on the defocus disk: the centre offset by the drawn disk
/// point `(a, b)` along the disk's basis vectors.
pub open spec fn disk_origin_spec(c: Camera, a: int, b: int) -> V3 {
    v3_add(c.center@, v3_add(v3_scale(c.defocus_disk_u@, a), v3_scale(c.defocus_disk_v@, b)))
}

/// The ray built from the jitter pair `(px, py)` and the unit-disk point
/// `(a, b)`: the origin is the camera centre (always, when the defocus
/// angle is zero) or the drawn disk point; the direction runs from that
/// origin to the jittered sample position, except that a direction below
/// the resolution floor falls back to the fixed unit direction; the time
/// is a draw in `[0, 1)`.
pub open spec fn cell_ray_witness(
    c: Camera,
    u: int,
    v: int,
    r: RayV,
    px: int,
    py: int,
    a: int,
    b: int,
) -> bool {
    let sample = pixel_sample_pos_spec(c, u, v, px, py);
    let diff = v3_sub(sample, r.orig);
    &&& -32768 <= px < 32768
    &&& -32768 <= py < 32768
    &&& in_range(V3 { x: a, y: b, z: 0 }, SCALE as int)
    &&& norm2_spec(V3 { x: a, y: b, z: 0 }) < SCALE
    &&& r.orig == (if c.defocus_angle@ <= 0 {
        c.center@
    } else {
        disk_origin_spec(c, a, b)
    })
    &&& r.dir == (if norm2_spec(diff) < 1 {
        V3 { x: 0, y: 0, z: -(SCALE as int) }
    } else {
        diff
    })
    &&& 0 <= r.time < SCALE
}

/// What a camera ray for the cell at column `u`, row `v` is: built as
/// `cell_ray_witness` lays out, for some jitter pair and disk point.
pub open spec fn cell_ray_spec(c: Camera, u: int, v: int, r: RayV) -> bool {
    exists|px: int, py: int, a: int, b: int| #[trigger] cell_ray_witness(c, u, v, r, px, py, a, b)
}

/// One radiance sample for the cell at column `u`, row `v`: the colour
/// that `ray_color` guarantees for some camera ray of that cell.
pub open spec fn cell_sample_spec(c: Camera, world: HittableList, u: int, v: int, col: V3) -> bool {
    exists|r: RayV|
        #[trigger] cell_ray_spec(c, u, v, r) && sample_color_spec(
            world,
            r,
            c.max_depth as int,
            col,
        )
}

/// `acc` is the sum of `n` radiance samples for the cell at column `u`,
/// row `v`, starting from black.
pub open spec fn cell_accum_spec(
    c: Camera,
    world: HittableList,
    u: int,
    v: int,
    n: int,
    acc: V3,
) -> bool
    decreases n,
{
    if n <= 0 {
        acc == black_spec()
    } else {
        exists|prev: V3, s: V3|
            #![trigger v3_add(prev, s)]
            cell_accum_spec(c, world, u, v, n - 1, prev) && cell_sample_spec(c, world, u, v, s)
                && acc == v3_add(prev, s)
    }
}

/// The emitted pixel of the cell at column `u`, row `v`: each channel is
/// the quantized average of an accumulator of `samples_per_pixel` radiance
/// samples of that cell.
pub open spec fn cell_pixel_spec(c: Camera, world: HittableList, u: int, v: int, p: Rgb) -> bool {
    exists|acc: V3|
        #[trigger] cell_accum_spec(c, world, u, v, c.samples_per_pixel as int, acc) && p.r
            == quant_spec(acc.x, c.samples_per_pixel as int) && p.g == quant_spec(
            acc.y,
            c.samples_per_pixel as int,
        ) && p.b == quant_spec(acc.z, c.samples_per_pixel as int)
}

impl Camera {
    /// A camera with the given configuration; the derived state is zeroed
    /// until `initialize` fills it in.
    pub fn new(
        aspect_ratio: Fx,
        image_width: u32,
        samples_per_pixel: u32,
        max_depth: u32,
        vfov: Fx,
        look_from: Point3,
        look_at: Point3,
        vup: Vec3,
        defocus_angle: Fx,
        focus_distance: Fx,
    ) -> (r: Camera)
        ensures
            r.aspect_ratio == aspect_ratio,
            r.image_width == image_width,
            r.samples_per_pixel == samples_per_pixel,
            r.max_depth == max_depth,
            r.vfov == vfov,
            r.look_from == look_from,
            r.look_at == look_at,
            r.vup == vup,
            r.defocus_angle == defocus_angle,
            r.focus_distance == focus_distance,
    {
        Camera {
            aspect_ratio,
            image_width,
            samples_per_pixel,
            max_depth,
            vfov,
            look_from,
            look_at,
            vup,
            defocus_angle,
            focus_distance,
            image_height: 0,
            center: Vec3::zero(),
            pixel00_loc: Vec3::zero(),
            pixel_delta_u: Vec3::zero(),
            pixel_delta_v: Vec3::zero(),
            u: Vec3::zero(),
            v: Vec3::zero(),
            w: Vec3::zero(),
            defocus_disk_u: Vec3::zero(),
            defocus_disk_v: Vec3::zero(),
        }
    }

    /// Decide, executably, whether this configuration is representable:
    /// returns exactly `cam_cfg_wf`.  Callers outside the proofs can test
    /// the precondition of `initialize` and `render` with this.
    #[verifier::rlimit(100)]
    pub fn config_in_range(&self) -> (ok: bool)
        ensures
            ok == cam_cfg_wf(*self),
    {
        // Flat ranges first; everything after relies on them.
        if !(self.look_from.ex.bits >= -0x1000000 && self.look_from.ex.bits <= 0x1000000
            && self.look_from.ey.bits >= -0x1000000 && self.look_from.ey.bits <= 0x1000000
            && self.look_from.ez.bits >= -0x1000000 && self.look_from.ez.bits <= 0x1000000) {
            return false;
        }
        if !(self.look_at.ex.bits >= -0x1000000 && self.look_at.ex.bits <= 0x1000000
            && self.look_at.ey.bits >= -0x1000000 && self.look_at.ey.bits <= 0x1000000
            && self.look_at.ez.bits >= -0x1000000 && self.look_at.ez.bits <= 0x1000000) {
            return false;
        }
        if !(self.vup.ex.bits >= -0x20000 && self.vup.ex.bits <= 0x20000 && self.vup.ey.bits
            >= -0x20000 && self.vup.ey.bits <= 0x20000 && self.vup.ez.bits >= -0x20000
            && self.vup.ez.bits <= 0x20000) {
            return false;
        }
        if !(self.aspect_ratio.bits >= 0x4000 && self.aspect_ratio.bits <= 0x80000) {
            return false;
        }
        if !(1 <= self.image_width && self.image_width <= 4096) {
            return false;
        }
        if !(1 <= self.samples_per_pixel && self.samples_per_pixel <= 4096) {
            return false;
        }
        if !(self.max_depth <= 64) {
            return false;
        }
        if !(0 <= self.vfov.bits && self.vfov.bits <= 0xa00000) {
            return false;
        }
        if !(0 <= self.defocus_angle.bits && self.defocus_angle.bits <= 0xa00000) {
            return false;
        }
        if !(65536 <= self.focus_distance.bits && self.focus_distance.bits <= 0x400000) {
            return false;
        }
        // The derived quantities, computed exactly as `initialize` does.
        let diff: Vec3 = self.look_from.sub(self.look_at);
        let n2_view: Fx = diff.length_squared();
        if n2_view.bits < 1 {
            return false;
        }
        let w: Vec3 = unit_vector(diff);
        proof {
            lemma_cross_fits(self.vup@, w@, 0x20000, 0x20000);
        }
        let crossed: Vec3 = cross(self.vup, w);
        let n2_cross: Fx = crossed.length_squared();
        if n2_cross.bits < 1 {
            return false;
        }
        let u: Vec3 = unit_vector(crossed);
        proof {
            lemma_cross_fits(w@, u@, 0x20000, 0x20000);
        }
        let v: Vec3 = cross(w, u);
        if !(v.ex.bits >= -0x20000 && v.ex.bits <= 0x20000 && v.ey.bits >= -0x20000 && v.ey.bits
            <= 0x20000 && v.ez.bits >= -0x20000 && v.ez.bits <= 0x20000) {
            return false;
        }
        let wfx: Fx = Fx::from_int(self.image_width as i64);
        proof {
            lemma_fx_div_bound(wfx@, self.aspect_ratio@, 0x10000000, 0x4000);
            lemma_fx_div_nonneg(wfx@, self.aspect_ratio@);
        }
        let hfx: Fx = wfx.div(self.aspect_ratio);
        proof {
            lemma_tdiv_bound(hfx@, 65536, 0x40000000);
        }
        let ihf: Fx = hfx.div_int(65536);
        let mut ih: u32 = ihf.bits as u32;
        if ih < 1 {
            ih = 1;
        }
        let theta: Fx = degrees_to_radians(self.vfov);
        proof {
            lemma_fx_mul_nonneg(self.vfov@, 205887);
            lemma_fx_mul_bound(self.vfov@, 205887, 0xa00000, 205887);
            lemma_fx_div_nonneg(fx_mul_spec(self.vfov@, 205887), 180 * (SCALE as int));
            lemma_fx_div_bound(
                fx_mul_spec(self.vfov@, 205887),
                180 * (SCALE as int),
                0x1f6b000,
                180int * 65536,
            );
            lemma_fx_div_nonneg(theta@, 2 * (SCALE as int));
            lemma_fx_div_bound(theta@, 2 * (SCALE as int), 0x2cb00, 2int * 65536);
        }
        let hh: Fx = tan_fx(theta.div(Fx::from_int(2)));
        proof {
            lemma_fx_mul_bound(2 * (SCALE as int), hh@, 0x20000, 0x4000000);
            lemma_fx_mul_bound(
                fx_mul_spec(2 * (SCALE as int), hh@),
                self.focus_distance@,
                0x8000000,
                0x400000,
            );
        }
        let viewport_height: Fx = Fx::from_int(2).mul(hh).mul(self.focus_distance);
        let ihfx: Fx = Fx::from_int(ih as i64);
        proof {
            lemma_fx_div_bound(wfx@, ihfx@, 0x10000000, 65536);
            lemma_fx_mul_bound(
                viewport_height@,
                fx_div_spec(wfx@, ihfx@),
                0x200000000000,
                0x10000000,
            );
        }
        let viewport_width: Fx = viewport_height.mul(wfx.div(ihfx));
        proof {
            lemma_fx_mul_bound(u@.x, viewport_width@, 0x20000, 0x200000000000000);
            lemma_fx_mul_bound(u@.y, viewport_width@, 0x20000, 0x200000000000000);
            lemma_fx_mul_bound(u@.z, viewport_width@, 0x20000, 0x200000000000000);
        }
        let viewport_u: Vec3 = u.scale(viewport_width);
        if !(viewport_u.ex.bits >= -0x300000 && viewport_u.ex.bits <= 0x300000
            && viewport_u.ey.bits >= -0x300000 && viewport_u.ey.bits <= 0x300000
            && viewport_u.ez.bits >= -0x300000 && viewport_u.ez.bits <= 0x300000) {
            return false;
        }
        proof {
            lemma_fx_mul_bound(-v@.x, viewport_height@, 0x20000, 0x200000000000);
            lemma_fx_mul_bound(-v@.y, viewport_height@, 0x20000, 0x200000000000);
            lemma_fx_mul_bound(-v@.z, viewport_height@, 0x20000, 0x200000000000);
        }
        let viewport_v: Vec3 = v.neg().scale(viewport_height);
        if !(viewport_v.ex.bits >= -0x300000 && viewport_v.ex.bits <= 0x300000
            && viewport_v.ey.bits >= -0x300000 && viewport_v.ey.bits <= 0x300000
            && viewport_v.ez.bits >= -0x300000 && viewport_v.ez.bits <= 0x300000) {
            return false;
        }
        let def_theta: Fx = degrees_to_radians(self.defocus_angle);
        proof {
            lemma_fx_mul_nonneg(self.defocus_angle@, 205887);
            lemma_fx_mul_bound(self.defocus_angle@, 205887, 0xa00000, 205887);
            lemma_fx_div_nonneg(fx_mul_spec(self.defocus_angle@, 205887), 180 * (SCALE as int));
            lemma_fx_div_bound(
                fx_mul_spec(self.defocus_angle@, 205887),
                180 * (SCALE as int),
                0x1f6b000,
                180int * 65536,
            );
            lemma_fx_div_nonneg(def_theta@, 2 * (SCALE as int));
            lemma_fx_div_bound(def_theta@, 2 * (SCALE as int), 0x2cb00, 2int * 65536);
        }
        let def_tan: Fx = tan_fx(def_theta.div(Fx::from_int(2)));
        proof {
            lemma_fx_mul_bound(self.focus_distance@, def_tan@, 0x400000, 0x4000000);
        }
        let defocus_radius: Fx = self.focus_distance.mul(def_tan);
        if !(defocus_radius.bits >= -0x100000 && defocus_radius.bits <= 0x100000) {
            return false;
        }
        true
    }

    /// Derive image height, camera basis, viewport grid and defocus disk
    /// from the configuration.
    #[verifier::rlimit(100)]
    pub fn initialize(&mut self)
        requires
            cam_cfg_wf(*old(self)),
        ensures
            final(self).aspect_ratio == old(self).aspect_ratio,
            final(self).image_width == old(self).image_width,
            final(self).samples_per_pixel == old(self).samples_per_pixel,
            final(self).max_depth == old(self).max_depth,
            final(self).vfov == old(self).vfov,
            final(self).look_from == old(self).look_from,
            final(self).look_at == old(self).look_at,
            final(self).vup == old(self).vup,
            final(self).defocus_angle == old(self).defocus_angle,
            final(self).focus_distance == old(self).focus_distance,
            final(self).image_height as int == cam_ih_spec(*old(self)),
            final(self).center == old(self).look_from,
            final(self).w@ == cam_w_spec(*old(self)),
            final(self).u@ == cam_u_spec(*old(self)),
            final(self).v@ == cam_v_spec(*old(self)),
            final(self).pixel_delta_u@ == cam_pdu_spec(*old(self)),
            final(self).pixel_delta_v@ == cam_pdv_spec(*old(self)),
            final(self).pixel00_loc@ == cam_pixel00_spec(*old(self)),
            final(self).defocus_disk_u@ == cam_disk_u_spec(*old(self)),
            final(self).defocus_disk_v@ == cam_disk_v_spec(*old(self)),
            cam_derived_wf(*final(self)),
            cam_cfg_wf(*final(self)),
    {
        let ghost c0 = *self;
        // Image height from width and aspect ratio.
        let wfx: Fx = Fx::from_int(self.image_width as i64);
        proof {
            lemma_fx_div_bound(wfx@, self.aspect_ratio@, 0x10000000, 0x4000);
            lemma_fx_div_nonneg(wfx@, self.aspect_ratio@);
        }
        let hfx: Fx = wfx.div(self.aspect_ratio);
        proof {
            lemma_tdiv_bound(hfx@, 65536, 0x40000000);
        }
        let ihf: Fx = hfx.div_int(65536);
        let mut ih: u32 = ihf.bits as u32;
        if ih < 1 {
            ih = 1;
        }
        self.image_height = ih;
        self.center = self.look_from;

        // Viewport dimensions.
        let theta: Fx = degrees_to_radians(self.vfov);
        proof {
            lemma_fx_mul_nonneg(self.vfov@, 205887);
            lemma_fx_mul_bound(self.vfov@, 205887, 0xa00000, 205887);
            lemma_fx_div_nonneg(fx_mul_spec(self.vfov@, 205887), 180 * (SCALE as int));
            lemma_fx_div_bound(
                fx_mul_spec(self.vfov@, 205887),
                180 * (SCALE as int),
                0x1f6b000,
                180int * 65536,
            );
            lemma_fx_div_nonneg(theta@, 2 * (SCALE as int));
            lemma_fx_div_bound(theta@, 2 * (SCALE as int), 0x2cb00, 2int * 65536);
        }
        let half_theta: Fx = theta.div(Fx::from_int(2));
        let hh: Fx = tan_fx(half_theta);
        proof {
            lemma_fx_mul_bound(2 * (SCALE as int), hh@, 0x20000, 0x4000000);
            lemma_fx_mul_bound(
                fx_mul_spec(2 * (SCALE as int), hh@),
                self.focus_distance@,
                0x8000000,
                0x400000,
            );
        }
        let viewport_height: Fx = Fx::from_int(2).mul(hh).mul(self.focus_distance);
        let ihfx: Fx = Fx::from_int(ih as i64);
        proof {
            lemma_fx_div_bound(wfx@, ihfx@, 0x10000000, 65536);
            lemma_fx_mul_bound(
                viewport_height@,
                fx_div_spec(wfx@, ihfx@),
                0x200000000000,
                0x10000000,
            );
        }
        let viewport_width: Fx = viewport_height.mul(wfx.div(ihfx));

        // Orthonormal camera basis.
        self.w = unit_vector(self.look_from.sub(self.look_at));
        proof {
            lemma_cross_fits(self.vup@, self.w@, 0x20000, 0x20000);
        }
        self.u = unit_vector(cross(self.vup, self.w));
        proof {
            lemma_cross_fits(self.w@, self.u@, 0x20000, 0x20000);
        }
        self.v = cross(self.w, self.u);

        // Viewport edge vectors and per-pixel deltas.
        proof {
            lemma_fx_mul_bound(self.u@.x, viewport_width@, 0x20000, 0x200000000000000);
            lemma_fx_mul_bound(self.u@.y, viewport_width@, 0x20000, 0x200000000000000);
            lemma_fx_mul_bound(self.u@.z, viewport_width@, 0x20000, 0x200000000000000);
        }
        let viewport_u: Vec3 = self.u.scale(viewport_width);
        proof {
            lemma_fx_mul_bound(-self.v@.x, viewport_height@, 0x20000, 0x200000000000);
            lemma_fx_mul_bound(-self.v@.y, viewport_height@, 0x20000, 0x200000000000);
            lemma_fx_mul_bound(-self.v@.z, viewport_height@, 0x20000, 0x200000000000);
        }
        let viewport_v: Vec3 = self.v.neg().scale(viewport_height);
        proof {
            assert(viewport_u@ == cam_vu_spec(c0));
            assert(viewport_v@ == cam_vv_spec(c0));
            lemma_pixel_delta(viewport_u@.x, self.image_width as int);
            lemma_pixel_delta(viewport_u@.y, self.image_width as int);
            lemma_pixel_delta(viewport_u@.z, self.image_width as int);
            lemma_pixel_delta(viewport_v@.x, ih as int);
            lemma_pixel_delta(viewport_v@.y, ih as int);
            lemma_pixel_delta(viewport_v@.z, ih as int);
        }
        self.pixel_delta_u = viewport_u.div(wfx);
        self.pixel_delta_v = viewport_v.div(ihfx);

        // The upper-left pixel's centre.
        proof {
            lemma_fx_mul_bound(self.w@.x, self.focus_distance@, 0x20000, 0x400000);
            lemma_fx_mul_bound(self.w@.y, self.focus_distance@, 0x20000, 0x400000);
            lemma_fx_mul_bound(self.w@.z, self.focus_distance@, 0x20000, 0x400000);
            lemma_fx_div_bound(viewport_u@.x, 2 * (SCALE as int), 0x300000, 2int * 65536);
            lemma_fx_div_bound(viewport_u@.y, 2 * (SCALE as int), 0x300000, 2int * 65536);
            lemma_fx_div_bound(viewport_u@.z, 2 * (SCALE as int), 0x300000, 2int * 65536);
            lemma_fx_div_bound(viewport_v@.x, 2 * (SCALE as int), 0x300000, 2int * 65536);
            lemma_fx_div_bound(viewport_v@.y, 2 * (SCALE as int), 0x300000, 2int * 65536);
            lemma_fx_div_bound(viewport_v@.z, 2 * (SCALE as int), 0x300000, 2int * 65536);
        }
        let two: Fx = Fx::from_int(2);
        let viewport_upper_left: Vec3 = self.center.sub(self.w.scale(self.focus_distance)).sub(
            viewport_u.div(two),
        ).sub(viewport_v.div(two));
        proof {
            lemma_fx_mul_bound(
                self.pixel_delta_u@.x + self.pixel_delta_v@.x,
                32768,
                0x600000,
                32768,
            );
            lemma_fx_mul_bound(
                self.pixel_delta_u@.y + self.pixel_delta_v@.y,
                32768,
                0x600000,
                32768,
            );
            lemma_fx_mul_bound(
                self.pixel_delta_u@.z + self.pixel_delta_v@.z,
                32768,
                0x600000,
                32768,
            );
            lemma_tdiv_bound(0x300000, self.image_width as int, 0x300000);
            lemma_tdiv_bound(0x300000, ih as int, 0x300000);
        }
        self.pixel00_loc = viewport_upper_left.add(
            self.pixel_delta_u.add(self.pixel_delta_v).scale(Fx::from_bits(32768)),
        );

        // Defocus disk.
        let def_theta: Fx = degrees_to_radians(self.defocus_angle);
        proof {
            lemma_fx_mul_nonneg(self.defocus_angle@, 205887);
            lemma_fx_mul_bound(self.defocus_angle@, 205887, 0xa00000, 205887);
            lemma_fx_div_nonneg(fx_mul_spec(self.defocus_angle@, 205887), 180 * (SCALE as int));
            lemma_fx_div_bound(
                fx_mul_spec(self.defocus_angle@, 205887),
                180 * (SCALE as int),
                0x1f6b000,
                180int * 65536,
            );
            lemma_fx_div_nonneg(def_theta@, 2 * (SCALE as int));
            lemma_fx_div_bound(def_theta@, 2 * (SCALE as int), 0x2cb00, 2int * 65536);
        }
        let half_def: Fx = def_theta.div(Fx::from_int(2));
        let def_tan: Fx = tan_fx(half_def);
        proof {
            lemma_fx_mul_bound(self.focus_distance@, def_tan@, 0x400000, 0x4000000);
        }
        let defocus_radius: Fx = self.focus_distance.mul(def_tan);
        proof {
            assert(defocus_radius@ == cam_dr_spec(c0));
            lemma_fx_mul_bound(self.u@.x, defocus_radius@, 0x20000, 0x100000);
            lemma_fx_mul_bound(self.u@.y, defocus_radius@, 0x20000, 0x100000);
            lemma_fx_mul_bound(self.u@.z, defocus_radius@, 0x20000, 0x100000);
            lemma_fx_mul_bound(self.v@.x, defocus_radius@, 0x20000, 0x100000);
            lemma_fx_mul_bound(self.v@.y, defocus_radius@, 0x20000, 0x100000);
            lemma_fx_mul_bound(self.v@.z, defocus_radius@, 0x20000, 0x100000);
        }
        self.defocus_disk_u = self.u.scale(defocus_radius);
        self.defocus_disk_v = self.v.scale(defocus_radius);
    }
}

impl Camera {
    /// A random offset within the square footprint of one pixel.
    fn pixel_sample_square(&self, rng: &mut rand::rngs::ThreadRng) -> (r: Vec3)
        requires
            cam_derived_wf(*self),
        ensures
            in_range(r@, 0x300000),
            exists|px: int, py: int|
                #![trigger v3_scale(self.pixel_delta_u@, px), v3_scale(self.pixel_delta_v@, py)]
                -32768 <= px < 32768 && -32768 <= py < 32768 && r@ == v3_add(
                    v3_scale(self.pixel_delta_u@, px),
                    v3_scale(self.pixel_delta_v@, py),
                ),
    {
        proof {
            lemma_tdiv_bound(0x300000, self.image_width as int, 0x300000);
            lemma_tdiv_bound(0x300000, self.image_height as int, 0x300000);
        }
        let px: Fx = Fx::from_bits(-32768).add(random_float(rng));
        let py: Fx = Fx::from_bits(-32768).add(random_float(rng));
        proof {
            lemma_fx_mul_bound(self.pixel_delta_u@.x, px@, 0x300000, 32768);
            lemma_fx_mul_bound(self.pixel_delta_u@.y, px@, 0x300000, 32768);
            lemma_fx_mul_bound(self.pixel_delta_u@.z, px@, 0x300000, 32768);
            lemma_fx_mul_bound(self.pixel_delta_v@.x, py@, 0x300000, 32768);
            lemma_fx_mul_bound(self.pixel_delta_v@.y, py@, 0x300000, 32768);
            lemma_fx_mul_bound(self.pixel_delta_v@.z, py@, 0x300000, 32768);
        }
        self.pixel_delta_u.scale(px).add(self.pixel_delta_v.scale(py))
    }

    /// A random origin on the defocus disk around the camera centre.
    fn defocus_disk_sample(&self, rng: &mut rand::rngs::ThreadRng) -> (r: Point3)
        requires
            cam_derived_wf(*self),
        ensures
            in_range(v3_sub(r@, self.center@), 0x400000),
            in_range(r@, 0x1400000),
            exists|a: int, b: int|
                #![trigger disk_origin_spec(*self, a, b)]
                in_range(V3 { x: a, y: b, z: 0 }, SCALE as int) && norm2_spec(
                    V3 { x: a, y: b, z: 0 },
                ) < SCALE && r@ == disk_origin_spec(*self, a, b),
    {
        let p: Vec3 = random_in_unit_disk(rng);
        proof {
            lemma_fx_mul_bound(self.defocus_disk_u@.x, p@.x, 0x200000, 65536);
            lemma_fx_mul_bound(self.defocus_disk_u@.y, p@.x, 0x200000, 65536);
            lemma_fx_mul_bound(self.defocus_disk_u@.z, p@.x, 0x200000, 65536);
            lemma_fx_mul_bound(self.defocus_disk_v@.x, p@.y, 0x200000, 65536);
            lemma_fx_mul_bound(self.defocus_disk_v@.y, p@.y, 0x200000, 65536);
            lemma_fx_mul_bound(self.defocus_disk_v@.z, p@.y, 0x200000, 65536);
        }
        let origin: Point3 = self.center.add(
            self.defocus_disk_u.scale(p.x()).add(self.defocus_disk_v.scale(p.y())),
        );
        proof {
            assert(p@ == (V3 { x: p@.x, y: p@.y, z: 0 }));
            assert(origin@ == disk_origin_spec(*self, p@.x, p@.y));
        }
        origin
    }

    /// A randomly sampled camera ray for the pixel at column `u`, row `v`:
    /// jittered within the pixel's footprint, originating at the camera
    /// centre — exactly there whenever the defocus angle is zero — or on
    /// the defocus disk, at a random time within the shutter interval.
    pub fn get_ray(&self, u: u32, v: u32, rng: &mut rand::rngs::ThreadRng) -> (r: Ray)
        requires
            cam_derived_wf(*self),
            u < self.image_width,
            v < self.image_height,
        ensures
            ray_wf(r@),
            0 <= r@.time < SCALE,
            self.defocus_angle@ <= 0 ==> r@.orig == self.center@,
            cell_ray_spec(*self, u as int, v as int, r@),
    {
        proof {
            lemma_delta_scale(self.pixel_delta_u@.x, 0x300000, self.image_width as int, u as int);
            lemma_delta_scale(self.pixel_delta_u@.y, 0x300000, self.image_width as int, u as int);
            lemma_delta_scale(self.pixel_delta_u@.z, 0x300000, self.image_width as int, u as int);
            lemma_delta_scale(self.pixel_delta_v@.x, 0x300000, self.image_height as int, v as int);
            lemma_delta_scale(self.pixel_delta_v@.y, 0x300000, self.image_height as int, v as int);
            lemma_delta_scale(self.pixel_delta_v@.z, 0x300000, self.image_height as int, v as int);
        }
        let pixel_center: Vec3 = self.pixel00_loc.add(
            self.pixel_delta_u.scale(Fx::from_int(u as i64)),
        ).add(self.pixel_delta_v.scale(Fx::from_int(v as i64)));
        let jitter: Vec3 = self.pixel_sample_square(rng);
        let pixel_sample: Vec3 = pixel_center.add(jitter);
        let ghost (pxw, pyw) = choose|px: int, py: int|
            #![trigger v3_scale(self.pixel_delta_u@, px), v3_scale(self.pixel_delta_v@, py)]
            -32768 <= px < 32768 && -32768 <= py < 32768 && jitter@ == v3_add(
                v3_scale(self.pixel_delta_u@, px),
                v3_scale(self.pixel_delta_v@, py),
            );
        let ghost mut aw: int = 0;
        let ghost mut bw: int = 0;
        let ray_origin: Point3;
        if self.defocus_angle.bits <= 0 {
            ray_origin = self.center;
        } else {
            ray_origin = self.defocus_disk_sample(rng);
            proof {
                let (a, b) = choose|a: int, b: int|
                    #![trigger disk_origin_spec(*self, a, b)]
                    in_range(V3 { x: a, y: b, z: 0 }, SCALE as int) && norm2_spec(
                        V3 { x: a, y: b, z: 0 },
                    ) < SCALE && ray_origin@ == disk_origin_spec(*self, a, b);
                aw = a;
                bw = b;
            }
        }
        proof {
            assert(pixel_sample@ == pixel_sample_pos_spec(*self, u as int, v as int, pxw, pyw));
        }
        let mut ray_direction: Vec3 = pixel_sample.sub(ray_origin);
        let n2: Fx = ray_direction.length_squared();
        if n2.bits < 1 {
            ray_direction = Vec3::new(Fx::zero(), Fx::zero(), Fx::from_bits(-65536));
            proof {
                crate::vec3::lemma_square_nonneg(0);
                assert((-65536int) * (-65536) == 0x100000000) by (nonlinear_arith);
                assert(iabs(0x100000000) == 0x100000000);
                assert(0x100000000int / 65536 == 65536);
                assert(norm2_spec(ray_direction@) == 65536);
            }
        }
        let ray_time: Fx = random_float(rng);
        let r: Ray = Ray::new(ray_origin, ray_direction, ray_time);
        proof {
            assert(norm2_spec(V3 { x: 0, y: 0, z: 0 }) == 0) by {
                crate::vec3::lemma_square_nonneg(0);
            }
            assert(cell_ray_witness(*self, u as int, v as int, r@, pxw, pyw, aw, bw));
        }
        r
    }

    /// The recursive transport kernel.  A depth of zero is the exhausted
    /// bounce budget and contributes exact black; a ray that misses every
    /// object contributes the sky gradient; a hit scatters, recurses, and
    /// attenuates.  The search window is strict-exclusive at both ends,
    /// with a lower bound of 64 raw steps (one 1024th of a unit) to
    /// suppress self-intersection at the bounce origin.
    pub fn ray_color(
        ray: &Ray,
        depth: u32,
        world: &HittableList,
        rng: &mut rand::rngs::ThreadRng,
    ) -> (c: Color)
        requires
            ray_wf(ray@),
            world.wf(),
        ensures
            sample_color_spec(*world, ray@, depth as int, c@),
        decreases depth,
    {
        if depth == 0 {
            return Vec3::zero();
        }
        let window: Interval = Interval::with_bounds(Fx::from_bits(64), Fx::from_bits(TMAX));
        let hit: Option<HitRecord> = world.hit(ray, window);
        match hit {
            Some(rec) => {
                proof {
                    let n = world.objs().len() as int;
                    let i = choose|i: int|
                        0 <= i < n && sphere_hit_spec(
                            #[trigger] world.objs()[i],
                            ray@,
                            64,
                            TMAX as int,
                        ) == Some(rec@);
                    lemma_sphere_hit_fields(world.objs()[i], ray@, 64, TMAX as int);
                    assert(material_wf(world.mats()[rec.material as int]));
                    assert(!misses_scene(*world, ray@));
                }
                let mat: Material = material_at(world, rec.material);
                match mat.scatter(ray, &rec, rng) {
                    Some((attenuation, scattered)) => {
                        let bounced: Color = Self::ray_color(&scattered, depth - 1, world, rng);
                        proof {
                            lemma_fx_mul_bound(attenuation@.x, bounced@.x, 65536, 0x40000);
                            lemma_fx_mul_bound(attenuation@.y, bounced@.y, 65536, 0x40000);
                            lemma_fx_mul_bound(attenuation@.z, bounced@.z, 65536, 0x40000);
                            crate::fixed::lemma_fx_mul_nonneg(attenuation@.x, bounced@.x);
                            crate::fixed::lemma_fx_mul_nonneg(attenuation@.y, bounced@.y);
                            crate::fixed::lemma_fx_mul_nonneg(attenuation@.z, bounced@.z);
                            if depth == 1 {
                                assert(bounced@ == black_spec());
                                assert(fx_mul_spec(attenuation@.x, 0int) == 0);
                                assert(fx_mul_spec(attenuation@.y, 0int) == 0);
                                assert(fx_mul_spec(attenuation@.z, 0int) == 0);
                            }
                        }
                        attenuation.mul(bounced)
                    },
                    None => Vec3::zero(),
                }
            },
            None => {
                let unit_direction: Vec3 = unit_vector(ray.direction());
                proof {
                    lemma_fx_mul_bound(32768, unit_direction@.y + (SCALE as int), 32768, 0x30000);
                }
                let delta: Fx = Fx::from_bits(32768).mul(unit_direction.y().add(Fx::one()));
                let white: Color = Vec3::new(Fx::one(), Fx::one(), Fx::one());
                let blue: Color = Vec3::new(
                    Fx::from_bits(32768),
                    Fx::from_bits(45875),
                    Fx::one(),
                );
                proof {
                    lemma_fx_mul_bound(SCALE as int, (SCALE as int) - delta@, 65536, 0x28000);
                    lemma_fx_mul_bound(32768, delta@, 32768, 0x18000);
                    lemma_fx_mul_bound(45875, delta@, 45875, 0x18000);
                    lemma_fx_mul_bound(SCALE as int, delta@, 65536, 0x18000);
                    lemma_background_nonneg(ray@);
                }
                white.scale(Fx::one().sub(delta)).add(blue.scale(delta))
            },
        }
    }

    /// Render the scene: one quantized pixel per grid cell, rows from top
    /// to bottom, columns from left to right.  The pixel stored at index
    /// `row * width + col` is its own cell's: the quantized average of
    /// `samples_per_pixel` radiance samples, each obtained on a camera ray
    /// of that cell.
    pub fn render(&mut self, world: &HittableList, rng: &mut rand::rngs::ThreadRng) -> (pixels:
        Vec<Rgb>)
        requires
            cam_cfg_wf(*old(self)),
            world.wf(),
        ensures
            final(self).image_height as int == cam_ih_spec(*old(self)),
            final(self).image_width == old(self).image_width,
            pixels@.len() == final(self).image_height * final(self).image_width,
            forall|row: int, col: int|
                0 <= row < final(self).image_height && 0 <= col < final(self).image_width
                    ==> #[trigger] cell_pixel_spec(
                    *final(self),
                    *world,
                    col,
                    row,
                    pixels@[row * (final(self).image_width as int) + col],
                ),
    {
        self.initialize();
        let width: u32 = self.image_width;
        let height: u32 = self.image_height;
        let spp: u32 = self.samples_per_pixel;
        let cam: Camera = *self;
        let mut pixels: Vec<Rgb> = Vec::new();
        let mut row: u32 = 0;
        while row < height
            invariant
                cam_derived_wf(cam),
                world.wf(),
                cam.image_width == width,
                cam.image_height == height,
                cam.samples_per_pixel == spp,
                row <= height,
                pixels@.len() == row * width,
                forall|rr: int, cc: int|
                    0 <= rr < row && 0 <= cc < width ==> #[trigger] cell_pixel_spec(
                        cam,
                        *world,
                        cc,
                        rr,
                        pixels@[rr * (width as int) + cc],
                    ),
            decreases height - row,
        {
            let mut col: u32 = 0;
            while col < width
                invariant
                    cam_derived_wf(cam),
                    world.wf(),
                    cam.image_width == width,
                    cam.image_height == height,
                    cam.samples_per_pixel == spp,
                    row < height,
                    col <= width,
                    pixels@.len() == row * width + col,
                    forall|rr: int, cc: int|
                        0 <= rr < row && 0 <= cc < width ==> #[trigger] cell_pixel_spec(
                            cam,
                            *world,
                            cc,
                            rr,
                            pixels@[rr * (width as int) + cc],
                        ),
                    forall|cc: int|
                        0 <= cc < col ==> #[trigger] cell_pixel_spec(
                            cam,
                            *world,
                            cc,
                            row as int,
                            pixels@[(row as int) * (width as int) + cc],
                        ),
                decreases width - col,
            {
                let mut pixel_color: Color = Vec3::zero();
                let mut sample: u32 = 0;
                while sample < spp
                    invariant
                        cam_derived_wf(cam),
                        world.wf(),
                        cam.image_width == width,
                        cam.image_height == height,
                        cam.samples_per_pixel == spp,
                        row < height,
                        col < width,
                        sample <= spp,
                        spp <= 4096,
                        in_range(pixel_color@, sample * 0x40000),
                        cell_accum_spec(
                            cam,
                            *world,
                            col as int,
                            row as int,
                            sample as int,
                            pixel_color@,
                        ),
                    decreases spp - sample,
                {
                    let ray: Ray = cam.get_ray(col, row, rng);
                    let sampled: Color = Self::ray_color(&ray, cam.max_depth, world, rng);
                    let next: Color = pixel_color.add(sampled);
                    proof {
                        assert(cell_ray_spec(cam, col as int, row as int, ray@)
                            && sample_color_spec(*world, ray@, cam.max_depth as int, sampled@));
                        assert(cell_sample_spec(cam, *world, col as int, row as int, sampled@));
                        assert(cell_accum_spec(
                            cam,
                            *world,
                            col as int,
                            row as int,
                            sample as int,
                            pixel_color@,
                        ) && cell_sample_spec(cam, *world, col as int, row as int, sampled@)
                            && next@ == v3_add(pixel_color@, sampled@));
                        assert(cell_accum_spec(
                            cam,
                            *world,
                            col as int,
                            row as int,
                            sample + 1,
                            next@,
                        ));
                    }
                    pixel_color = next;
                    sample = sample + 1;
                }
                let pixel: Rgb = quantize_color(pixel_color, spp);
                proof {
                    assert(cell_pixel_spec(cam, *world, col as int, row as int, pixel));
                }
                pixels.push(pixel);
                proof {
                    assert forall|rr: int, cc: int|
                        0 <= rr < row && 0 <= cc < width implies #[trigger] cell_pixel_spec(
                        cam,
                        *world,
                        cc,
                        rr,
                        pixels@[rr * (width as int) + cc],
                    ) by {
                        lemma_cell_index(rr, cc, row as int, width as int);
                    }
                    assert forall|cc: int|
                        0 <= cc < col + 1 implies #[trigger] cell_pixel_spec(
                        cam,
                        *world,
                        cc,
                        row as int,
                        pixels@[(row as int) * (width as int) + cc],
                    ) by {
                        if cc == col {
                            assert(pixels@[(row as int) * (width as int) + cc] == pixel);
                        }
                    }
                }
                col = col + 1;
            }
            row = row + 1;
            proof {
                assert(pixels@.len() == row * width) by (nonlinear_arith)
                    requires
                        pixels@.len() == (row - 1) * width + width,
                ;
            }
        }
        proof {
            assert(cam == *self);
        }
        pixels
    }
}

/// A cell's flat index lies inside the rows already finished.
proof fn lemma_cell_index(rr: int, cc: int, row: int, width: int)
    requires
        0 <= rr < row,
        0 <= cc < width,
    ensures
        0 <= rr * width + cc,
        rr * width + cc < row * width,
{
    assert(0 <= rr * width + cc && rr * width + cc + 1 <= row * width) by (nonlinear_arith)
        requires
            0 <= rr,
            rr + 1 <= row,
            0 <= cc,
            cc + 1 <= width,
    ;
}

/// Fetch the material a hit record points to.
fn material_at(world: &HittableList, idx: usize) -> (m: Material)
    requires
        idx < world.mats().len(),
    ensures
        m == world.mats()[idx as int],
{
    world.materials[idx]
}

/// A per-pixel step is the viewport edge divided by the pixel count, so
/// each component is at most the edge's budget divided by that count.
proof fn lemma_pixel_delta(vc: int, n: int)
    requires
        1 <= n,
        -0x300000 <= vc <= 0x300000,
    ensures
        -0x7fffffffffffffff <= fx_div_spec(vc, n * SCALE) <= 0x7fffffffffffffff,
        -tdiv(0x300000, n) <= fx_div_spec(vc, n * SCALE) <= tdiv(0x300000, n),
{
    let va = iabs(vc);
    assert(iabs(vc * SCALE) == va * 65536);
    assert(va * 65536 == 65536 * va) by (nonlinear_arith);
    assert(n * SCALE == 65536 * n) by (nonlinear_arith);
    lemma_div_multiples_vanish_quotient(65536, va, n);
    lemma_div_is_ordered(va, 0x300000, n);
}

/// Stepping `i` pixels along a per-pixel delta stays within the viewport
/// edge's budget, because the delta is the edge divided by the pixel count.
proof fn lemma_delta_scale(dc: int, bound: int, n: int, i: int)
    requires
        1 <= n,
        0 <= i <= n,
        0 <= bound <= 0x7fffffffffffffff,
        -tdiv(bound, n) <= dc <= tdiv(bound, n),
    ensures
        -0x7fffffffffffffff <= fx_mul_spec(dc, i * SCALE) <= 0x7fffffffffffffff,
        -bound <= fx_mul_spec(dc, i * SCALE) <= bound,
{
    let da = iabs(dc);
    let q = bound / n;
    assert(iabs(dc * (i * 65536)) == da * i * 65536) by (nonlinear_arith)
        requires
            (da == dc || da == -dc) && da >= 0 && i >= 0,
    ;
    assert(da * i * 65536 == 65536 * (da * i)) by (nonlinear_arith);
    lemma_div_multiples_vanish(da * i, 65536);
    lemma_fundamental_div_mod(bound, n);
    lemma_mod_bound(bound, n);
    assert(da * i <= bound) by (nonlinear_arith)
        requires
            da <= q,
            0 <= da,
            0 <= i <= n,
            0 <= q,
            n * q <= bound,
    ;
    assert(0 <= da * i) by (nonlinear_arith)
        requires
            0 <= da,
            0 <= i,
    ;
}

} // verus!
