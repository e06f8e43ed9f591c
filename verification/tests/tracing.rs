//! Intersection, scattering, integrator and end-to-end rendering tests.
//! One world unit is 1_000_000 fixed-point units.

use pathtracer::vec3::Vec3;
use pathtracer::ray::Ray;
use pathtracer::objects::{Sphere, HittableCollection, Hittable};
use pathtracer::materials::{
    Material, Lambertian, Metal, Dielectric, metal_scatter_with, dielectric_scatter_with,
};
use pathtracer::camera::Camera;
use pathtracer::render::{ray_color, render, finalize_pixel, RenderConfig};
use pathtracer::rng::rng_from_seed;

fn white_lambertian() -> Material {
    Material::Lambertian(Lambertian::new(Vec3::new(1_000_000, 1_000_000, 1_000_000)))
}

const T_INF: i64 = 1_000_000_000_000_000;

#[test]
fn head_on_hit_at_radius() {
    // Sphere at the origin with radius r: a ray from (0, 0, 2r) toward -z
    // hits at t == r, front facing, with normal (0, 0, 1).
    let s = Sphere {
        center: Vec3::new(0, 0, 0),
        radius: 1_000_000,
        material: white_lambertian(),
    };
    let ray = Ray::new(Vec3::new(0, 0, 2_000_000), Vec3::new(0, 0, -1_000_000));
    let rec = s.hit(&ray, 1_000, T_INF).expect("must hit");
    assert_eq!(rec.t, 1_000_000);
    assert!(rec.front_face);
    assert_eq!(rec.normal, Vec3::new(0, 0, 1_000_000));
    assert_eq!(rec.p, Vec3::new(0, 0, 1_000_000));
}

#[test]
fn tangent_ray_single_root() {
    // A ray grazing the sphere: the discriminant is exactly zero, the two
    // roots coincide, and the hit is reported at that single parameter.
    let s = Sphere {
        center: Vec3::new(0, 0, -2_000_000),
        radius: 1_000_000,
        material: white_lambertian(),
    };
    let ray = Ray::new(Vec3::new(1_000_000, 0, 0), Vec3::new(0, 0, -1_000_000));
    let rec = s.hit(&ray, 1_000, T_INF).expect("tangent ray must hit");
    assert_eq!(rec.t, 2_000_000);
}

#[test]
fn miss_returns_none() {
    // Perpendicular offset (2 units) larger than the radius (1 unit).
    let s = Sphere {
        center: Vec3::new(0, 0, -5_000_000),
        radius: 1_000_000,
        material: white_lambertian(),
    };
    let ray = Ray::new(Vec3::new(2_000_000, 0, 0), Vec3::new(0, 0, -1_000_000));
    assert!(s.hit(&ray, 1_000, T_INF).is_none());
}

#[test]
fn collection_returns_smallest_t() {
    // Two overlapping spheres along the ray: the nearer hit wins.
    let near = Sphere {
        center: Vec3::new(0, 0, -5_000_000),
        radius: 1_000_000,
        material: Material::Lambertian(Lambertian::new(Vec3::new(100_000, 0, 0))),
    };
    let far = Sphere {
        center: Vec3::new(0, 0, -6_000_000),
        radius: 1_000_000,
        material: Material::Lambertian(Lambertian::new(Vec3::new(0, 200_000, 0))),
    };
    let mut world = HittableCollection::new();
    world.add(far);
    world.add(near);
    let ray = Ray::new(Vec3::new(0, 0, 0), Vec3::new(0, 0, -1_000_000));
    let rec = world.hit(&ray, 1_000, T_INF).expect("must hit");
    assert_eq!(rec.t, 4_000_000);
    match rec.material {
        Material::Lambertian(l) => assert_eq!(l.albedo, Vec3::new(100_000, 0, 0)),
        _ => panic!("wrong material"),
    }
}

#[test]
fn hittable_dispatch() {
    let s = Sphere {
        center: Vec3::new(0, 0, 0),
        radius: 1_000_000,
        material: white_lambertian(),
    };
    let h = Hittable::Sphere(s);
    let ray = Ray::new(Vec3::new(0, 0, 2_000_000), Vec3::new(0, 0, -1_000_000));
    assert_eq!(h.hit(&ray, 1_000, T_INF).expect("hit").t, 1_000_000);
    let mut world = HittableCollection::new();
    world.add(s);
    let hc = Hittable::Collection(world);
    assert_eq!(hc.hit(&ray, 1_000, T_INF).expect("hit").t, 1_000_000);
}

#[test]
fn collection_tie_prefers_earlier_member() {
    // On an exactly equal parameter the member added earlier wins, the
    // first minimum over the scene in order.
    let first = Sphere {
        center: Vec3::new(0, 0, -5_000_000),
        radius: 1_000_000,
        material: Material::Lambertian(Lambertian::new(Vec3::new(100_000, 0, 0))),
    };
    let second = Sphere {
        center: Vec3::new(0, 0, -5_000_000),
        radius: 1_000_000,
        material: Material::Lambertian(Lambertian::new(Vec3::new(0, 200_000, 0))),
    };
    let mut world = HittableCollection::new();
    world.add(first);
    world.add(second);
    let ray = Ray::new(Vec3::new(0, 0, 0), Vec3::new(0, 0, -1_000_000));
    let rec = world.hit(&ray, 1_000, T_INF).expect("must hit");
    assert_eq!(rec.t, 4_000_000);
    match rec.material {
        Material::Lambertian(l) => assert_eq!(l.albedo, Vec3::new(100_000, 0, 0)),
        _ => panic!("wrong material"),
    }
}

#[test]
fn empty_collection_misses() {
    let world = HittableCollection::new();
    let ray = Ray::new(Vec3::new(0, 0, 0), Vec3::new(0, 0, -1_000_000));
    assert!(world.hit(&ray, 1_000, T_INF).is_none());
}

fn head_on_record() -> (Ray, pathtracer::objects::HitRecord) {
    let s = Sphere {
        center: Vec3::new(0, 0, 0),
        radius: 1_000_000,
        material: white_lambertian(),
    };
    let ray = Ray::new(Vec3::new(0, 0, 2_000_000), Vec3::new(0, 0, -1_000_000));
    let rec = s.hit(&ray, 1_000, T_INF).expect("must hit");
    (ray, rec)
}

#[test]
fn lambertian_always_scatters() {
    let (ray, rec) = head_on_record();
    let mut rng = rng_from_seed(42);
    let m = white_lambertian();
    for _ in 0..100 {
        assert!(m.scatter(&ray, &rec, &mut rng).is_some());
    }
}

#[test]
fn metal_absorbs_below_surface() {
    // With full fuzz and a perturbation that exactly cancels the reflection,
    // the scattered direction's dot with the normal is zero: absorbed.
    let (ray, rec) = head_on_record();
    let m = Metal::new(Vec3::new(800_000, 800_000, 800_000), 1_000_000);
    let cancel = Vec3::new(0, 0, -1_000_000);
    assert!(metal_scatter_with(&m, &ray, &rec, &cancel).is_none());
    // An unperturbed reflection points along the normal: scattered.
    let keep = Vec3::new(0, 0, 0);
    let (att, sray) = metal_scatter_with(&m, &ray, &rec, &keep).expect("must scatter");
    assert_eq!(att, Vec3::new(800_000, 800_000, 800_000));
    assert_eq!(sray.origin(), rec.p);
    assert_eq!(sray.direction(), Vec3::new(0, 0, 1_000_000));
}

#[test]
fn metal_zero_fuzz_always_reflects_head_on() {
    // Without fuzz, a clearly front-facing hit is never absorbed, whatever
    // the generator draws.
    let (ray, rec) = head_on_record();
    let m = Material::Metal(Metal::new(Vec3::new(700_000, 600_000, 500_000), 0));
    let mut rng = rng_from_seed(9);
    for _ in 0..50 {
        let (_, sray) = m.scatter(&ray, &rec, &mut rng).expect("must scatter");
        assert_eq!(sray.direction(), Vec3::new(0, 0, 1_000_000));
    }
}

#[test]
fn metal_fuzz_is_clamped() {
    assert_eq!(Metal::new(Vec3::new(0, 0, 0), 2_000_000).fuzziness, 1_000_000);
    assert_eq!(Metal::new(Vec3::new(0, 0, 0), -5).fuzziness, 0);
    assert_eq!(Metal::new(Vec3::new(0, 0, 0), 300_000).fuzziness, 300_000);
}

#[test]
fn dielectric_favors_refraction_head_on() {
    // At near-zero incidence with index 1.5 the Schlick reflectance is about
    // 0.04: draws above it refract (the ray continues through, z < 0), and a
    // draw below it reflects (z > 0).
    let (ray, rec) = head_on_record();
    let d = Dielectric::new(1_500_000);
    for draw in [100_000i64, 500_000, 900_000] {
        let (att, sray) = dielectric_scatter_with(&d, &ray, &rec, draw);
        assert_eq!(att, Vec3::new(950_000, 950_000, 950_000));
        assert!(sray.direction().z() < 0, "high draws must refract");
    }
    let (_, reflected) = dielectric_scatter_with(&d, &ray, &rec, 10_000);
    assert!(reflected.direction().z() > 0, "a low draw must reflect");
}

#[test]
fn dielectric_scatter_probabilistic() {
    // Across many random draws, head-on refraction must dominate.
    let (ray, rec) = head_on_record();
    let m = Material::Dielectric(Dielectric::new(1_500_000));
    let mut rng = rng_from_seed(5);
    let mut refracted: u32 = 0;
    for _ in 0..200 {
        let (_, sray) = m.scatter(&ray, &rec, &mut rng).expect("dielectric always scatters");
        if sray.direction().z() < 0 {
            refracted += 1;
        }
    }
    assert!(refracted > 150, "refraction must dominate, got {refracted}");
}

#[test]
fn color_at_bounce_limit_is_black() {
    let mut world = HittableCollection::new();
    world.add(Sphere {
        center: Vec3::new(0, 0, 0),
        radius: 1_000_000,
        material: white_lambertian(),
    });
    let mut rng = rng_from_seed(1);
    let ray = Ray::new(Vec3::new(0, 0, 2_000_000), Vec3::new(0, 0, -1_000_000));
    assert_eq!(ray_color(&ray, &world, 0, &mut rng), Vec3::new(0, 0, 0));
    assert_eq!(ray_color(&ray, &world, -3, &mut rng), Vec3::new(0, 0, 0));
}

#[test]
fn background_gradient_extremes() {
    let world = HittableCollection::new();
    let mut rng = rng_from_seed(1);
    // Straight up: the gradient parameter is one, giving sky blue.
    let up = Ray::new(Vec3::new(0, 0, 0), Vec3::new(0, 1_000_000, 0));
    assert_eq!(ray_color(&up, &world, 10, &mut rng), Vec3::new(500_000, 700_000, 1_000_000));
    // Straight down: the gradient parameter is zero, giving white.
    let down = Ray::new(Vec3::new(0, 0, 0), Vec3::new(0, -1_000_000, 0));
    assert_eq!(ray_color(&down, &world, 10, &mut rng), Vec3::new(1_000_000, 1_000_000, 1_000_000));
}

#[test]
fn finalize_pixel_quantizes() {
    // One sample of pure white quantizes to 255; a quarter averages to a
    // half after gamma, giving floor(255.99 * 0.5) == 127; black stays zero.
    let sum = Vec3::new(1_000_000, 250_000, 0);
    assert_eq!(finalize_pixel(&sum, 1), (255, 127, 0));
}

fn demo_camera() -> Camera {
    Camera::new(
        Vec3::new(0, 0, 3_000_000),
        Vec3::new(0, 0, 0),
        Vec3::new(0, 1_000_000, 0),
        414_214,   // tan of half a 45 degree field of view
        1_000_000, // square aspect ratio
        0,
        1_000_000,
    )
}

fn mean_luminance(pixels: &[(u8, u8, u8)]) -> f64 {
    let mut total: f64 = 0.0;
    for (r, g, b) in pixels {
        total += (*r as f64) + (*g as f64) + (*b as f64);
    }
    total / (3.0 * pixels.len() as f64)
}

#[test]
fn render_shape_and_convergence() {
    // A diffuse white unit sphere at the origin, lit by the background
    // gradient: with a fixed seed the pixel mean approaches a stable value
    // as the sample count grows.
    let mut world = HittableCollection::new();
    world.add(Sphere {
        center: Vec3::new(0, 0, 0),
        radius: 1_000_000,
        material: white_lambertian(),
    });
    let cam = demo_camera();
    let mut means: Vec<f64> = Vec::new();
    for samples in [8u32, 64, 512, 2048] {
        let cfg = RenderConfig {
            image_width: 4,
            image_height: 4,
            samples_per_pixel: samples,
            max_bounces: 20,
            seed: 1234,
        };
        let pixels = render(&world, &cam, &cfg);
        assert_eq!(pixels.len(), 16);
        means.push(mean_luminance(&pixels));
    }
    let limit = means[3];
    let e8 = (means[0] - limit).abs();
    let e64 = (means[1] - limit).abs();
    let e512 = (means[2] - limit).abs();
    assert!(e64 <= e8 + 1.0, "64-sample error {e64} vs 8-sample error {e8}");
    assert!(e512 <= e64 + 1.0, "512-sample error {e512} vs 64-sample error {e64}");
    assert!(e512 < 4.0, "estimate must be near the limit, off by {e512}");
}
