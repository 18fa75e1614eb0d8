use ray_tracer::camera::Camera;
use ray_tracer::color::format_color;
use ray_tracer::fx::FRAC;
use ray_tracer::hittable::HitRecord;
use ray_tracer::hittable_list::HittableList;
use ray_tracer::material::{Dielectric, Lambertian, Material, Metal, NullMaterial};
use ray_tracer::ray::Ray;
use ray_tracer::rng::RandSource;
use ray_tracer::sched::{enumerate_tasks, render_pixel, PixelResults};
use ray_tracer::sphere::Sphere;
use ray_tracer::tracer::ray_color;
use ray_tracer::vec3::Vec3;

fn gray(level: i64) -> Material {
    Material::Lambertian(Lambertian { albedo: Vec3::new(level, level, level) })
}

#[test]
fn sphere_hit_straight_on() {
    let s = Sphere::new(Vec3::new(0, 0, -2 * FRAC), FRAC, gray(FRAC / 2));
    let r = Ray::new(&Vec3::new(0, 0, 0), &Vec3::new(0, 0, -FRAC));
    let rec = s.hit(&r, 0, 100 * FRAC).expect("must hit");
    assert_eq!(rec.t, FRAC);
    assert_eq!(rec.p, Vec3::new(0, 0, -FRAC));
    assert_eq!(rec.normal, Vec3::new(0, 0, FRAC));
    assert!(rec.front_face);
}

#[test]
fn sphere_miss() {
    let s = Sphere::new(Vec3::new(0, 0, -2 * FRAC), FRAC, gray(FRAC / 2));
    let r = Ray::new(&Vec3::new(0, 0, 0), &Vec3::new(0, 0, FRAC));
    assert!(s.hit(&r, 0, 100 * FRAC).is_none());
    // A hit beyond the upper range is also rejected.
    let toward = Ray::new(&Vec3::new(0, 0, 0), &Vec3::new(0, 0, -FRAC));
    assert!(s.hit(&toward, 0, FRAC / 2).is_none());
}

#[test]
fn hit_point_is_on_the_sphere() {
    let s = Sphere::new(Vec3::new(FRAC, 2 * FRAC, -5 * FRAC), 2 * FRAC, gray(FRAC / 2));
    let r = Ray::new(&Vec3::new(0, 0, 0), &Vec3::new(13107, 26214, -FRAC));
    let rec = s.hit(&r, 0, 100 * FRAC).expect("must hit");
    // || p - center ||^2 is within fixed-point rounding of radius^2.
    let pc = rec.p.minus(&s.center);
    let want = 4 * FRAC;
    let got = pc.length_squared();
    assert!((got - want).abs() < FRAC / 16, "got {} want {}", got, want);
}

#[test]
fn nearest_sphere_wins_regardless_of_order() {
    let near = Sphere::new(Vec3::new(0, 0, -2 * FRAC), FRAC, gray(1000));
    let far = Sphere::new(Vec3::new(0, 0, -6 * FRAC), FRAC, gray(2000));
    let r = Ray::new(&Vec3::new(0, 0, 0), &Vec3::new(0, 0, -FRAC));
    for world in [
        HittableList { objects: vec![near, far] },
        HittableList { objects: vec![far, near] },
    ] {
        let rec = world.hit(&r, 0, 100 * FRAC).expect("must hit");
        assert_eq!(rec.t, FRAC);
        match rec.material {
            Material::Lambertian(l) => assert_eq!(l.albedo.x, 1000),
            _ => panic!("wrong material"),
        }
    }
}

#[test]
fn empty_scene_misses() {
    let world = HittableList { objects: vec![] };
    let r = Ray::new(&Vec3::new(0, 0, 0), &Vec3::new(0, 0, -FRAC));
    assert!(world.hit(&r, 0, 100 * FRAC).is_none());
}

#[test]
fn null_material_absorbs() {
    let rec = HitRecord::default();
    let mut rng = RandSource::Seeded(5);
    let r = Ray::new(&Vec3::new(0, 0, 0), &Vec3::new(0, 0, -FRAC));
    assert!(Material::Null(NullMaterial).scatter(&mut rng, &r, &rec).is_none());
}

#[test]
fn metal_new_clamps_fuzz() {
    let m = Metal::new(Vec3::new(FRAC, FRAC, FRAC), 3 * FRAC);
    assert_eq!(m.fuzz, FRAC);
    let m2 = Metal::new(Vec3::new(FRAC, FRAC, FRAC), 100);
    assert_eq!(m2.fuzz, 100);
}

#[test]
fn lambertian_scatters_from_hit_point() {
    let s = Sphere::new(Vec3::new(0, 0, -2 * FRAC), FRAC, gray(FRAC / 2));
    let r = Ray::new(&Vec3::new(0, 0, 0), &Vec3::new(0, 0, -FRAC));
    let rec = s.hit(&r, 0, 100 * FRAC).unwrap();
    let mut rng = RandSource::Seeded(11);
    let (att, scattered) = rec.material.scatter(&mut rng, &r, &rec).expect("scatters");
    assert_eq!(att, Vec3::new(FRAC / 2, FRAC / 2, FRAC / 2));
    assert_eq!(scattered.origin, rec.p);
}

#[test]
fn total_internal_reflection_never_refracts() {
    // A ray inside glass (back face, index 2) at forty-five degrees:
    // ratio * sin exceeds one, so every draw must reflect.
    let rec = HitRecord {
        p: Vec3::new(0, 0, 0),
        normal: Vec3::new(0, FRAC, 0),
        material: Material::Dielectric(Dielectric::new(2 * FRAC)),
        t: FRAC,
        front_face: false,
    };
    let r = Ray::new(&Vec3::new(0, FRAC, 0), &Vec3::new(46341, -46341, 0));
    for seed in 0..25u64 {
        let mut rng = RandSource::Seeded(seed);
        let (att, scattered) = rec.material.scatter(&mut rng, &r, &rec).expect("scatters");
        assert_eq!(att, Vec3::new(FRAC, FRAC, FRAC));
        assert_eq!(scattered.direction, Vec3::new(46341, 46341, 0));
    }
}

#[test]
fn background_gradient_exact() {
    let world = HittableList { objects: vec![] };
    let mut rng = RandSource::Seeded(1);
    let r = Ray::new(&Vec3::new(0, 0, 0), &Vec3::new(0, 0, -FRAC));
    let c = ray_color(&mut rng, &r, &world, 10);
    assert_eq!(c, Vec3::new(49152, 55705, 65536));
    // Straight up: pure sky blue.
    let up = Ray::new(&Vec3::new(0, 0, 0), &Vec3::new(0, FRAC, 0));
    let cu = ray_color(&mut rng, &up, &world, 10);
    assert_eq!(cu, Vec3::new(32768, 45875, 65536));
}

#[test]
fn exhausted_depth_is_black() {
    let world = HittableList { objects: vec![] };
    let mut rng = RandSource::Seeded(1);
    let r = Ray::new(&Vec3::new(0, 0, 0), &Vec3::new(0, 0, -FRAC));
    assert_eq!(ray_color(&mut rng, &r, &world, 0), Vec3::new(0, 0, 0));
}

#[test]
fn format_color_white_and_black() {
    let white = Vec3::new(FRAC, FRAC, FRAC);
    assert_eq!(format_color(&white, 1), "255 255 255");
    let black = Vec3::new(0, 0, 0);
    assert_eq!(format_color(&black, 1), "0 0 0");
    assert_eq!(format_color(&black, 500), "0 0 0");
}

#[test]
fn format_color_averages_over_samples() {
    // A sum of four white samples at four samples per pixel is white.
    let sum = Vec3::new(4 * FRAC, 4 * FRAC, 4 * FRAC);
    assert_eq!(format_color(&sum, 4), "255 255 255");
    // A half-gray pixel: sqrt(0.5) is about 0.7071, times 255.999.
    let half = Vec3::new(FRAC / 2, FRAC / 2, FRAC / 2);
    assert_eq!(format_color(&half, 1), "181 181 181");
}

#[test]
fn format_color_large_sample_counts() {
    // Averaging stays exact even when the sample count exceeds one in
    // fixed point: a hundred thousand white samples are still white.
    let sum = Vec3::new(100000 * FRAC, 100000 * FRAC, 100000 * FRAC);
    assert_eq!(format_color(&sum, 100000), "255 255 255");
}

#[test]
fn tasks_cover_the_image_in_raster_order() {
    let tasks = enumerate_tasks(3, 2);
    assert_eq!(tasks.len(), 6);
    for (k, t) in tasks.iter().enumerate() {
        assert_eq!(t.index, k);
        assert_eq!(t.i, k % 3);
        assert_eq!(t.j, 1 - k / 3);
    }
}

#[test]
fn results_detect_missing_pixels() {
    let mut res = PixelResults::new(3);
    res.set(0, String::from("a"));
    res.set(2, String::from("c"));
    assert!(res.assemble().is_none());
    res.set(1, String::from("b"));
    let lines = res.assemble().expect("complete");
    assert_eq!(lines, vec!["a", "b", "c"]);
    // Overwriting a slot keeps the container complete.
    res.set(1, String::from("B"));
    assert_eq!(res.assemble().expect("complete"), vec!["a", "B", "c"]);
}

fn demo_camera() -> Camera {
    Camera::new(
        Vec3::new(0, 0, 2 * FRAC),
        Vec3::new(0, 0, 0),
        Vec3::new(0, FRAC, 0),
        90 * FRAC,
        3 * FRAC / 2,
        0,
        2 * FRAC,
    )
}

#[test]
fn camera_rays_are_usable() {
    let cam = demo_camera();
    let mut rng = RandSource::Seeded(9);
    for (s, t) in [(0, 0), (FRAC / 2, FRAC / 2), (FRAC, FRAC)] {
        let r = cam.get_ray(&mut rng, s, t);
        assert_eq!(r.time, 0);
        assert_eq!(r.origin, Vec3::new(0, 0, 2 * FRAC));
        assert!(r.direction.length_squared() >= 16384);
    }
}

#[test]
fn render_pixel_bounded_by_sample_count() {
    let cam = demo_camera();
    let world = HittableList {
        objects: vec![Sphere::new(Vec3::new(0, 0, -2 * FRAC), FRAC, gray(FRAC / 2))],
    };
    let mut rng = RandSource::Seeded(4);
    let c = render_pixel(&mut rng, &cam, &world, 5, 5, 10, 10, 8, 16);
    for ch in [c.x, c.y, c.z] {
        assert!((0..=8 * FRAC).contains(&ch));
    }
}

#[test]
fn more_samples_reduce_estimate_spread() {
    // Convergence: the sample mean of the center pixel of a one-sphere
    // scene scatters less around its expectation as the per-pixel sample
    // count grows.
    let cam = demo_camera();
    let world = HittableList {
        objects: vec![Sphere::new(Vec3::new(0, 0, -2 * FRAC), FRAC, gray(FRAC / 2))],
    };
    let spread = |spp: i64| -> i64 {
        let mut means: Vec<i64> = Vec::new();
        for seed in 0..6u64 {
            let mut rng = RandSource::Seeded(seed * 1000 + 17);
            let c = render_pixel(&mut rng, &cam, &world, 10, 10, 21, 21, spp, 8);
            means.push(c.x / spp);
        }
        let lo = *means.iter().min().unwrap();
        let hi = *means.iter().max().unwrap();
        hi - lo
    };
    let spread_small = spread(10);
    let spread_large = spread(1000);
    assert!(
        spread_large < spread_small,
        "spread at 1000 samples ({}) should be below spread at 10 ({})",
        spread_large,
        spread_small
    );
}
