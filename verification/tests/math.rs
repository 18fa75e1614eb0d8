use ray_tracer::fx::{clamp, degrees_to_radians, fdiv, fmul, fsqrt, isqrt, FRAC};
use ray_tracer::ray::Ray;
use ray_tracer::rng::{random_01, random_range, RandSource};
use ray_tracer::vec3::{
    cross, dot, random_in_unit_disk, random_in_unit_sphere, random_unit_vector, reflect,
    unit_vector, Vec3,
};

#[test]
fn fixed_point_ops_exact() {
    assert_eq!(fmul(FRAC, FRAC), FRAC);
    assert_eq!(fmul(2 * FRAC, 3 * FRAC), 6 * FRAC);
    assert_eq!(fmul(FRAC / 2, FRAC / 2), FRAC / 4);
    assert_eq!(fmul(-FRAC, 3 * FRAC), -3 * FRAC);
    assert_eq!(fdiv(FRAC, 2 * FRAC), FRAC / 2);
    assert_eq!(fdiv(3 * FRAC, FRAC), 3 * FRAC);
    assert_eq!(fsqrt(4 * FRAC), 2 * FRAC);
    assert_eq!(fsqrt(FRAC), FRAC);
    assert_eq!(isqrt(144), 12);
    assert_eq!(isqrt(145), 12);
}

#[test]
fn clamp_behaves() {
    assert_eq!(clamp(5, 0, 10), 5);
    assert_eq!(clamp(-5, 0, 10), 0);
    assert_eq!(clamp(15, 0, 10), 10);
}

#[test]
fn degrees_conversion() {
    // 180 degrees is about pi: 180 * 1144 / 1 = 205920 fixed, pi is 205887.
    let pi_fx = degrees_to_radians(180 * FRAC);
    assert!((pi_fx - 205887).abs() < 200);
}

#[test]
fn vector_arithmetic_exact() {
    let a = Vec3::new(FRAC, 2 * FRAC, 3 * FRAC);
    let b = Vec3::new(4 * FRAC, 5 * FRAC, 6 * FRAC);
    let s = a.plus(&b);
    assert_eq!(s, Vec3::new(5 * FRAC, 7 * FRAC, 9 * FRAC));
    let d = b.minus(&a);
    assert_eq!(d, Vec3::new(3 * FRAC, 3 * FRAC, 3 * FRAC));
    assert_eq!(a.negated(), Vec3::new(-FRAC, -2 * FRAC, -3 * FRAC));
    assert_eq!(a.scaled(2 * FRAC), Vec3::new(2 * FRAC, 4 * FRAC, 6 * FRAC));
    assert_eq!(a.times(&b), Vec3::new(4 * FRAC, 10 * FRAC, 18 * FRAC));
    assert_eq!(b.divided(2 * FRAC), Vec3::new(2 * FRAC, 5 * FRAC / 2, 3 * FRAC));
    // 1*4 + 2*5 + 3*6 == 32
    assert_eq!(dot(&a, &b), 32 * FRAC);
    assert_eq!(a.length_squared(), 14 * FRAC);
    let c = cross(&Vec3::new(FRAC, 0, 0), &Vec3::new(0, FRAC, 0));
    assert_eq!(c, Vec3::new(0, 0, FRAC));
}

#[test]
fn near_zero_only_for_zero() {
    assert!(Vec3::new(0, 0, 0).near_zero());
    assert!(!Vec3::new(1, 0, 0).near_zero());
}

#[test]
fn normalize_three_four_five() {
    let v = Vec3::new(3 * FRAC, 4 * FRAC, 0);
    assert_eq!(v.length(), 5 * FRAC);
    let u = unit_vector(&v);
    assert_eq!(u, Vec3::new(39321, 52428, 0));
    // The squared length of the normalized vector is one, up to
    // fixed-point rounding.
    let ls = u.length_squared();
    assert!(FRAC - 8 <= ls && ls <= FRAC + 15);
    assert_eq!(ls, 65534);
}

#[test]
fn normalize_axis_is_exact() {
    let u = unit_vector(&Vec3::new(0, 0, -7 * FRAC));
    assert_eq!(u, Vec3::new(0, 0, -FRAC));
    assert_eq!(u.length_squared(), FRAC);
}

#[test]
fn reflect_about_axis_preserves_length() {
    let v = Vec3::new(3 * FRAC, -5 * FRAC, 2 * FRAC);
    let n = Vec3::new(0, FRAC, 0);
    let r = reflect(&v, &n);
    assert_eq!(r, Vec3::new(3 * FRAC, 5 * FRAC, 2 * FRAC));
    assert_eq!(r.length_squared(), v.length_squared());
}

#[test]
fn ray_at_exact() {
    let r = Ray::new(&Vec3::new(FRAC, 0, 0), &Vec3::new(0, 0, -FRAC));
    assert_eq!(r.time, 0);
    let p = r.at(3 * FRAC);
    assert_eq!(p, Vec3::new(FRAC, 0, -3 * FRAC));
}

#[test]
fn seeded_random_in_bounds() {
    let mut rng = RandSource::Seeded(42);
    for _ in 0..200 {
        let u = random_01(&mut rng);
        assert!((0..FRAC).contains(&u));
        let w = random_range(&mut rng, -FRAC, FRAC);
        assert!((-FRAC..=FRAC).contains(&w));
    }
}

#[test]
fn seeded_random_is_reproducible() {
    let mut a = RandSource::Seeded(7);
    let mut b = RandSource::Seeded(7);
    for _ in 0..32 {
        assert_eq!(random_01(&mut a), random_01(&mut b));
    }
}

#[test]
fn rejection_sampling_inside_ball() {
    let mut rng = RandSource::Seeded(3);
    for _ in 0..50 {
        let p = random_in_unit_sphere(&mut rng);
        assert!(p.length_squared() < FRAC);
        let q = random_in_unit_disk(&mut rng);
        assert_eq!(q.z, 0);
        assert!(q.length_squared() < FRAC);
        let u = random_unit_vector(&mut rng);
        let ls = u.length_squared();
        assert!(FRAC - 8 <= ls && ls <= FRAC + 15);
    }
}
