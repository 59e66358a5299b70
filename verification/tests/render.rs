use raytracer::camera::Camera;
use raytracer::fixed::Fx;
use raytracer::hittables::HittableList;
use raytracer::material::{Lambertian, Material, Metal};
use raytracer::ray::Ray;
use raytracer::sphere::Sphere;
use raytracer::vec3::Vec3;

fn fx(units: i64) -> Fx {
    Fx::from_int(units)
}

fn v(x: i64, y: i64, z: i64) -> Vec3 {
    Vec3::new(fx(x), fx(y), fx(z))
}

fn camera(width: u32, samples: u32, depth: u32) -> Camera {
    Camera::new(
        fx(1),
        width,
        samples,
        depth,
        fx(90),
        v(0, 0, 0),
        v(0, 0, -1),
        v(0, 1, 0),
        Fx::zero(),
        fx(1),
    )
}

#[test]
fn ray_color_at_depth_zero_is_black() {
    let mut rng = rand::thread_rng();
    let mut world = HittableList::new();
    let m = world.add_material(Material::Lambertian(Lambertian { albedo: v(1, 1, 1) }));
    world.add(Sphere::new(v(0, 0, -2), fx(1), m, v(0, 0, 0), false));
    for _ in 0..20 {
        let ray = Ray::new(v(0, 0, 0), v(0, 0, -1), Fx::zero());
        let c = Camera::ray_color(&ray, 0, &world, &mut rng);
        assert_eq!((c.x().bits, c.y().bits, c.z().bits), (0, 0, 0));
    }
}

#[test]
fn empty_scene_reproduces_the_background_gradient() {
    let mut rng = rand::thread_rng();
    let world = HittableList::new();
    let mut cam = camera(4, 1, 5);
    let pixels = cam.render(&world, &mut rng);
    assert_eq!(pixels.len(), 16);
    // The gradient blends white and sky-blue; both have a full blue
    // channel, so blue is everywhere exactly full.
    for p in &pixels {
        assert_eq!(p.b, 255);
    }
    // The blend varies only with the ray's upward tilt: the rows looking
    // up take more of the blue endpoint (smaller red channel) than the
    // rows looking down.
    let top_red: u32 = pixels[0..4].iter().map(|p| p.r as u32).sum();
    let bottom_red: u32 = pixels[12..16].iter().map(|p| p.r as u32).sum();
    assert!(
        top_red < bottom_red,
        "top {} vs bottom {}",
        top_red,
        bottom_red
    );
}

#[test]
fn single_bounce_on_enclosing_sphere_gives_uniform_pixels() {
    // A 2x2 image, one sample per pixel, bounce budget one, and a sphere
    // that encloses the camera so that every ray hits: each path scatters
    // once, exhausts its budget, and contributes exactly black — the same
    // non-background value in all four pixels.
    let mut rng = rand::thread_rng();
    let mut world = HittableList::new();
    let m = world.add_material(Material::Lambertian(Lambertian { albedo: v(1, 1, 1) }));
    world.add(Sphere::new(v(0, 0, 0), fx(50), m, v(0, 0, 0), false));
    let mut cam = camera(2, 1, 1);
    let pixels = cam.render(&world, &mut rng);
    assert_eq!(pixels.len(), 4);
    for p in &pixels {
        assert_eq!((p.r, p.g, p.b), (0, 0, 0));
        // The background always carries a full blue channel, so this is
        // never a background value.
        assert_ne!(p.b, 255);
    }
}

#[test]
fn zero_defocus_angle_pins_every_ray_to_the_camera_center() {
    let mut rng = rand::thread_rng();
    let mut cam = camera(8, 1, 1);
    cam.initialize();
    for row in 0..8 {
        for col in 0..8 {
            for _ in 0..5 {
                let ray = cam.get_ray(col, row, &mut rng);
                assert_eq!(ray.origin(), cam.center);
            }
        }
    }
}

#[test]
fn one_remaining_bounce_on_a_hit_is_exactly_black() {
    let mut rng = rand::thread_rng();
    let mut world = HittableList::new();
    let m = world.add_material(Material::Lambertian(Lambertian { albedo: v(1, 1, 1) }));
    world.add(Sphere::new(v(0, 0, -3), fx(1), m, v(0, 0, 0), false));
    for _ in 0..20 {
        let ray = Ray::new(v(0, 0, 0), v(0, 0, -1), Fx::zero());
        let c = Camera::ray_color(&ray, 1, &world, &mut rng);
        assert_eq!((c.x().bits, c.y().bits, c.z().bits), (0, 0, 0));
    }
}

#[test]
fn transported_colors_are_never_negative() {
    let mut rng = rand::thread_rng();
    let mut world = HittableList::new();
    let m = world.add_material(Material::Metal(Metal {
        albedo: v(1, 0, 1),
        fuzz: Fx::from_bits(32768),
    }));
    world.add(Sphere::new(v(0, 0, -3), fx(1), m, v(0, 0, 0), false));
    for depth in 0..6 {
        let ray = Ray::new(v(0, 0, 0), v(0, 0, -1), Fx::zero());
        let c = Camera::ray_color(&ray, depth, &world, &mut rng);
        assert!(c.x().bits >= 0 && c.y().bits >= 0 && c.z().bits >= 0);
    }
}

#[test]
fn config_check_accepts_sane_and_rejects_wild_setups() {
    let good = camera(4, 1, 5);
    assert!(good.config_in_range());
    let mut too_deep = camera(4, 1, 5);
    too_deep.max_depth = 65;
    assert!(!too_deep.config_in_range());
    let mut degenerate = camera(4, 1, 5);
    degenerate.look_at = degenerate.look_from;
    assert!(!degenerate.config_in_range());
}

#[test]
fn rays_always_carry_a_time_inside_the_shutter() {
    let mut rng = rand::thread_rng();
    let mut cam = camera(4, 1, 1);
    cam.initialize();
    for _ in 0..100 {
        let ray = cam.get_ray(1, 2, &mut rng);
        assert!(0 <= ray.time().bits && ray.time().bits < 65536);
    }
}

#[test]
fn render_emits_one_pixel_per_grid_cell() {
    let mut rng = rand::thread_rng();
    let world = HittableList::new();
    let mut cam = Camera::new(
        Fx::from_bits(2 * 65536),
        8,
        2,
        3,
        fx(40),
        v(3, 2, 1),
        v(0, 0, 0),
        v(0, 1, 0),
        fx(1),
        fx(3),
    );
    let pixels = cam.render(&world, &mut rng);
    // Height is width over aspect ratio: 8 / 2 == 4.
    assert_eq!(pixels.len(), 8 * 4);
}
