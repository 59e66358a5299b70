use raytracer::color::quantize_color;
use raytracer::fixed::Fx;
use raytracer::interval::Interval;
use raytracer::utils::{degrees_to_radians, random_float, random_float_range, tan_fx};
use raytracer::vec3::Vec3;

fn fx(units: i64) -> Fx {
    Fx::from_int(units)
}

#[test]
fn fixed_point_products_round_toward_zero() {
    let half = Fx::from_bits(32768);
    assert_eq!(half.mul(half).bits, 16384);
    let third = Fx::from_bits(21845);
    assert_eq!(third.mul(fx(3)).bits, 65535);
    let neg = Fx::from_bits(-3);
    assert_eq!(neg.mul(half).bits, -1);
}

#[test]
fn fixed_point_quotients_and_roots() {
    assert_eq!(fx(1).div(fx(2)).bits, 32768);
    assert_eq!(fx(-1).div(fx(2)).bits, -32768);
    assert_eq!(fx(9).sqrt().bits, 3 * 65536);
    assert_eq!(fx(2).sqrt().bits, 92681);
    assert_eq!(Fx::zero().sqrt().bits, 0);
}

#[test]
fn interval_surrounds_is_strict() {
    let window = Interval::with_bounds(fx(0), fx(4));
    assert!(window.surrounds(fx(2)));
    assert!(!window.surrounds(fx(0)));
    assert!(!window.surrounds(fx(4)));
}

#[test]
fn interval_clamp_saturates() {
    let window = Interval::with_bounds(fx(0), fx(1));
    assert_eq!(window.clamp(fx(-3)).bits, 0);
    assert_eq!(window.clamp(fx(7)).bits, 65536);
    assert_eq!(window.clamp(Fx::from_bits(123)).bits, 123);
}

#[test]
fn degrees_to_radians_of_half_turn_is_pi() {
    assert_eq!(degrees_to_radians(fx(180)).bits, 205887);
    assert_eq!(degrees_to_radians(fx(0)).bits, 0);
}

#[test]
fn tangent_of_forty_five_degrees_is_near_one() {
    let t = tan_fx(degrees_to_radians(fx(45)));
    assert!((t.bits - 65536).abs() < 256, "tan(45 deg) = {} raw", t.bits);
}

#[test]
fn random_draws_stay_in_their_ranges() {
    let mut rng = rand::thread_rng();
    for _ in 0..1000 {
        let a = random_float(&mut rng);
        assert!(0 <= a.bits && a.bits < 65536);
        let b = random_float_range(&mut rng, fx(-2), fx(3));
        assert!(-2 * 65536 <= b.bits && b.bits < 3 * 65536);
    }
}

#[test]
fn quantize_color_applies_average_gamma_and_floor() {
    // Two samples adding to 0.5: the average 0.25 gamma-corrects to 0.5,
    // and 0.5 quantizes to 128.
    let accumulated = Vec3::new(Fx::from_bits(32768), Fx::zero(), fx(2));
    let rgb = quantize_color(accumulated, 2);
    assert_eq!(rgb.r, 128);
    assert_eq!(rgb.g, 0);
    // A full channel clamps just below one and quantizes to 255.
    assert_eq!(rgb.b, 255);
}

#[test]
fn quantize_color_darkens_negative_accumulators_to_black() {
    let rgb = quantize_color(Vec3::new(fx(-1), fx(-2), fx(-3)), 1);
    assert_eq!((rgb.r, rgb.g, rgb.b), (0, 0, 0));
}
