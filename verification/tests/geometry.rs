use raytracer::fixed::Fx;
use raytracer::hittables::HittableList;
use raytracer::interval::Interval;
use raytracer::hittable::HitRecord;
use raytracer::material::{reflectance, Dielectric, Lambertian, Material, Metal};
use raytracer::ray::Ray;
use raytracer::sphere::Sphere;
use raytracer::vec3::{
    cross, dot, random_in_hemisphere, random_in_unit_disk, random_in_unit_sphere,
    random_unit_vector, reflect, refract, unit_vector, Vec3,
};

fn fx(units: i64) -> Fx {
    Fx::from_int(units)
}

fn v(x: i64, y: i64, z: i64) -> Vec3 {
    Vec3::new(fx(x), fx(y), fx(z))
}

fn white_lambertian() -> Vec<Material> {
    vec![Material::Lambertian(Lambertian { albedo: v(1, 1, 1) })]
}

fn far_window() -> Interval {
    Interval::with_bounds(Fx::from_bits(64), Fx::from_bits(0x10000000000))
}

#[test]
fn unit_vector_length_is_near_one() {
    let samples = [v(1, 2, 3), v(-5, 2, 1), v(100, -1, 7), v(0, 0, -4)];
    for s in samples {
        let u = unit_vector(s);
        let len = u.length();
        assert!(
            (len.bits - 65536).abs() <= 64,
            "unit length was {} raw steps",
            len.bits
        );
    }
}

#[test]
fn reflection_about_axis_normal_preserves_length() {
    // v has a negative component along the normal, as an incoming ray does.
    let incoming = Vec3::new(Fx::from_bits(32768), Fx::from_bits(16384), fx(-1));
    let normal = v(0, 0, 1);
    assert!(dot(incoming, normal).bits < 0);
    let reflected = reflect(incoming, normal);
    assert_eq!(reflected.length_squared().bits, incoming.length_squared().bits);
    assert_eq!(reflected.x().bits, incoming.x().bits);
    assert_eq!(reflected.y().bits, incoming.y().bits);
    assert_eq!(reflected.z().bits, -incoming.z().bits);
}

#[test]
fn ray_evaluates_points_along_itself() {
    let ray = Ray::new(v(1, 2, 3), v(0, 1, 0), Fx::zero());
    let p = ray.at(fx(2));
    assert_eq!((p.x().bits, p.y().bits, p.z().bits), (65536, 4 * 65536, 3 * 65536));
}

#[test]
fn dot_product_is_exact_on_whole_units() {
    assert_eq!(dot(v(1, 2, 3), v(4, -5, 6)).bits, 12 * 65536);
    assert_eq!(dot(v(1, 0, 0), v(0, 1, 0)).bits, 0);
}

#[test]
fn near_zero_uses_the_resolution_floor() {
    let tiny = Vec3::new(Fx::from_bits(100), Fx::from_bits(-50), Fx::zero());
    assert!(tiny.near_zero());
    assert!(!v(0, 0, 1).near_zero());
}

#[test]
fn refraction_at_equal_indices_passes_straight_through() {
    let incoming = v(0, 0, -1);
    let normal = v(0, 0, 1);
    let out = refract(incoming, normal, fx(1));
    assert_eq!((out.x().bits, out.y().bits, out.z().bits), (0, 0, -65536));
}

#[test]
fn cross_of_axes_gives_third_axis() {
    let c = cross(v(1, 0, 0), v(0, 1, 0));
    assert_eq!((c.x().bits, c.y().bits, c.z().bits), (0, 0, 65536));
}

#[test]
fn head_on_sphere_hit_at_exact_distance() {
    // A unit-direction ray fired at a unit sphere from four units away
    // hits at t == 4 - 1 == 3, exactly.
    let sphere = Sphere::new(v(0, 0, 0), fx(1), 0, v(0, 0, 0), false);
    let ray = Ray::new(v(0, 0, 4), v(0, 0, -1), Fx::zero());
    let hit = sphere.hit(&ray, far_window()).expect("must hit");
    assert_eq!(hit.t.bits, 3 * 65536);
    assert_eq!(hit.point.z().bits, 65536);
    assert!(hit.front_face);
    assert_eq!(hit.normal.z().bits, 65536);
    assert_eq!(hit.material, 0);
}

#[test]
fn ray_beside_sphere_misses() {
    // The ray line passes two units from the centre of a unit sphere.
    let sphere = Sphere::new(v(0, 0, 0), fx(1), 0, v(0, 0, 0), false);
    let ray = Ray::new(v(0, 2, 4), v(0, 0, -1), Fx::zero());
    assert!(sphere.hit(&ray, far_window()).is_none());
}

#[test]
fn hit_outside_search_window_is_rejected() {
    let sphere = Sphere::new(v(0, 0, 0), fx(1), 0, v(0, 0, 0), false);
    let ray = Ray::new(v(0, 0, 4), v(0, 0, -1), Fx::zero());
    let window = Interval::with_bounds(Fx::from_bits(64), fx(2));
    assert!(sphere.hit(&ray, window).is_none());
}

#[test]
fn moving_sphere_center_interpolates() {
    let sphere = Sphere::new(v(0, 0, 0), fx(1), 0, v(0, 2, 0), true);
    let mid = sphere.center(Fx::from_bits(32768));
    assert_eq!(mid.y().bits, 65536);
    let start = sphere.center(Fx::zero());
    assert_eq!(start.y().bits, 0);
}

#[test]
fn negative_radius_sphere_has_inward_normal() {
    let sphere = Sphere::new(v(0, 0, 0), fx(-1), 0, v(0, 0, 0), false);
    let ray = Ray::new(v(0, 0, 4), v(0, 0, -1), Fx::zero());
    let hit = sphere.hit(&ray, far_window()).expect("must hit");
    assert_eq!(hit.t.bits, 3 * 65536);
    // The geometric normal points inward, so the ray sees its flip.
    assert!(!hit.front_face);
    assert_eq!(hit.normal.z().bits, 65536);
}

#[test]
fn nearest_sphere_wins_regardless_of_insertion_order() {
    let near = Sphere::new(v(0, 0, 0), fx(1), 0, v(0, 0, 0), false);
    let far = Sphere::new(v(0, 0, -6), fx(1), 0, v(0, 0, 0), false);
    let ray = Ray::new(v(0, 0, 5), v(0, 0, -1), Fx::zero());

    let mut world_a = HittableList { objects: Vec::new(), materials: white_lambertian() };
    world_a.add(near);
    world_a.add(far);
    let hit_a = world_a.hit(&ray, far_window()).expect("must hit");
    assert_eq!(hit_a.t.bits, 4 * 65536);

    let mut world_b = HittableList { objects: Vec::new(), materials: white_lambertian() };
    world_b.add(far);
    world_b.add(near);
    let hit_b = world_b.hit(&ray, far_window()).expect("must hit");
    assert_eq!(hit_b.t.bits, 4 * 65536);
    assert_eq!(hit_b.point.z().bits, hit_a.point.z().bits);
}

#[test]
fn list_building_blocks_work() {
    let near = Sphere::new(v(0, 0, 0), fx(1), 0, v(0, 0, 0), false);
    let mut world = HittableList::with_object(near, white_lambertian());
    assert_eq!(world.objects.len(), 1);
    let idx = world.add_material(Material::Metal(Metal {
        albedo: v(1, 1, 1),
        fuzz: Fx::zero(),
    }));
    assert_eq!(idx, 1);
    world.add(Sphere::new(v(0, 0, -6), fx(1), idx, v(0, 0, 0), false));
    assert_eq!(world.objects.len(), 2);
    world.clear();
    assert_eq!(world.objects.len(), 0);
    assert_eq!(world.materials.len(), 2);
}

#[test]
fn empty_list_reports_no_hit() {
    let world = HittableList::new();
    let ray = Ray::new(v(0, 0, 5), v(0, 0, -1), Fx::zero());
    assert!(world.hit(&ray, far_window()).is_none());
}

#[test]
fn scatter_always_originates_at_the_hit_point() {
    let mut rng = rand::thread_rng();
    let sphere = Sphere::new(v(0, 0, 0), fx(1), 0, v(0, 0, 0), false);
    let ray = Ray::new(v(0, 0, 4), v(0, 0, -1), Fx::zero());
    let rec = sphere.hit(&ray, far_window()).expect("must hit");

    let lambertian = Lambertian { albedo: v(1, 1, 1) };
    let metal = Metal { albedo: v(1, 1, 1), fuzz: Fx::from_bits(16384) };
    let dielectric = Dielectric { refraction_index: Fx::from_bits(98304) };
    for _ in 0..50 {
        let (att, scattered) = lambertian.scatter(&ray, &rec, &mut rng).expect("lambertian");
        assert_eq!(scattered.origin(), rec.point);
        assert_eq!(att, lambertian.albedo);

        let (_, scattered) = metal.scatter(&ray, &rec, &mut rng).expect("metal");
        assert_eq!(scattered.origin(), rec.point);

        let (att, scattered) = dielectric.scatter(&ray, &rec, &mut rng).expect("dielectric");
        assert_eq!(scattered.origin(), rec.point);
        assert_eq!(att, v(1, 1, 1));
    }
}

#[test]
fn material_dispatch_matches_variants() {
    let mut rng = rand::thread_rng();
    let sphere = Sphere::new(v(0, 0, 0), fx(1), 0, v(0, 0, 0), false);
    let ray = Ray::new(v(0, 0, 4), v(0, 0, -1), Fx::zero());
    let rec = sphere.hit(&ray, far_window()).expect("must hit");
    let tinted = Material::Lambertian(Lambertian { albedo: v(1, 0, 0) });
    let (att, _) = tinted.scatter(&ray, &rec, &mut rng).expect("scatters");
    assert_eq!(att, v(1, 0, 0));
}

#[test]
fn reflectance_hits_its_endpoints() {
    // Head-on through matched media: no reflection at all.
    assert_eq!(reflectance(fx(1), fx(1)).bits, 0);
    // Grazing incidence with a vanishing index ratio: total reflection.
    assert_eq!(reflectance(Fx::zero(), Fx::zero()).bits, 65536);
}

#[test]
fn total_internal_reflection_always_bounces_back() {
    // A ray climbing at forty-five degrees inside glass exceeds the
    // critical angle, so the dielectric must reflect it downward on
    // every draw; refraction would let it continue upward.
    let mut rng = rand::thread_rng();
    let glass = Dielectric { refraction_index: Fx::from_bits(98304) };
    let ray = Ray::new(v(0, 0, -1), v(1, 0, 1), Fx::zero());
    let rec = HitRecord {
        point: v(0, 0, 0),
        normal: v(0, 0, -1),
        t: fx(1),
        front_face: false,
        material: 0,
    };
    for _ in 0..100 {
        let (_, scattered) = glass.scatter(&ray, &rec, &mut rng).expect("scatters");
        assert!(scattered.direction().z().bits < 0);
    }
}

#[test]
fn sampled_directions_stay_in_their_domains() {
    let mut rng = rand::thread_rng();
    for _ in 0..200 {
        let p = random_in_unit_sphere(&mut rng);
        let n2 = p.length_squared().bits;
        assert!(16384 <= n2 && n2 < 65536);

        let u = random_unit_vector(&mut rng);
        let un2 = u.length_squared().bits;
        assert!(65536 - 15 <= un2 && un2 <= 65536 + 17);

        let h2 = random_in_hemisphere(&mut rng, v(0, 1, 0)).length_squared().bits;
        assert!(65536 - 15 <= h2 && h2 <= 65536 + 17);

        let d = random_in_unit_disk(&mut rng);
        assert_eq!(d.z().bits, 0);
        assert!(d.length_squared().bits < 65536);

        let h = random_in_hemisphere(&mut rng, v(0, 1, 0));
        assert!(dot(h, v(0, 1, 0)).bits >= 0);
    }
}
