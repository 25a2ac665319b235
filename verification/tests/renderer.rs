use pathtracer::fixed::SCALE;
use pathtracer::material::{
    DiffuseMaterial, EmissiveMaterial, Material, ReflectiveMaterial, TransparentMaterial,
};
use pathtracer::ray::Ray;
use pathtracer::renderer::{trace_bounce, trace_ray, BounceOutcome, RenderSettings, MAX_DEPTH, THROUGHPUT_MAX};
use pathtracer::scene::{Entity, Scene};
use pathtracer::shape::{Plane, Shape, Sphere};
use pathtracer::tools::Sample2D;
use pathtracer::vector::Vector3;

fn fx(x: f64) -> i64 {
    (x * SCALE as f64).round() as i64
}

fn v(x: f64, y: f64, z: f64) -> Vector3 {
    Vector3 { x: fx(x), y: fx(y), z: fx(z) }
}

fn lcg(state: &mut u64) -> i64 {
    *state = state
        .wrapping_mul(6364136223846793005)
        .wrapping_add(1442695040888963407);
    ((*state >> 33) & 0xFFFF) as i64
}

fn draw_samples(state: &mut u64) -> Vec<Sample2D> {
    let mut samples = Vec::new();
    for _ in 0..MAX_DEPTH {
        samples.push(Sample2D { s: lcg(state), t: lcg(state) });
    }
    samples
}

#[test]
fn empty_scene_returns_sky_exactly() {
    let sky = v(0.2, 0.3, 0.4);
    let scene = Scene::new(sky);
    let ray = Ray { origin: v(0.0, 0.0, 0.0), direction: v(0.0, 0.0, 1.0) };
    let mut state: u64 = 5;
    for _ in 0..50 {
        let samples = draw_samples(&mut state);
        assert_eq!(trace_ray(&ray, &scene, &samples), sky);
    }
}

#[test]
fn visible_light_returns_its_emission_exactly() {
    let mut scene = Scene::new(v(0.1, 0.1, 0.1));
    let emission = v(0.9, 0.45, 0.2);
    scene.add_entity(Entity {
        shape: Shape::Sphere(Sphere { position: v(0.0, 0.0, 10.0), radius: 2 * SCALE }),
        material: Material::Emissive(EmissiveMaterial { emission }),
    });
    let ray = Ray { origin: v(0.0, 0.0, 0.0), direction: v(0.0, 0.0, 1.0) };
    let mut state: u64 = 11;
    for _ in 0..50 {
        let samples = draw_samples(&mut state);
        assert_eq!(trace_ray(&ray, &scene, &samples), emission);
    }
}

#[test]
fn bounced_paths_stay_in_range() {
    let mut scene = Scene::new(v(0.05, 0.05, 0.08));
    scene.add_entity(Entity {
        shape: Shape::Plane(Plane::new(
            v(0.0, -1.0, 0.0),
            v(0.0, 1.0, 0.0),
            v(0.0, 0.0, 1.0),
            8 * SCALE,
            8 * SCALE,
        )),
        material: Material::Diffuse(DiffuseMaterial { color: v(0.7, 0.7, 0.7) }),
    });
    scene.add_entity(Entity {
        shape: Shape::Sphere(Sphere { position: v(-1.0, 0.0, 5.0), radius: SCALE }),
        material: Material::Reflective(ReflectiveMaterial { color: v(0.9, 0.9, 0.9) }),
    });
    scene.add_entity(Entity {
        shape: Shape::Sphere(Sphere { position: v(1.0, 0.0, 5.0), radius: SCALE }),
        material: Material::Transparent(TransparentMaterial {
            color: v(0.95, 0.95, 0.95),
            ior: fx(1.5),
        }),
    });
    scene.add_entity(Entity {
        shape: Shape::Sphere(Sphere { position: v(0.0, 3.0, 5.0), radius: SCALE }),
        material: Material::Emissive(EmissiveMaterial { emission: v(4.0, 4.0, 4.0) }),
    });
    let mut state: u64 = 23;
    for i in 0..200 {
        let dx: i64 = (i % 20) - 10;
        let ray = Ray {
            origin: v(0.0, 0.0, 0.0),
            direction: Vector3 { x: (dx * SCALE) / 16, y: 0, z: SCALE },
        };
        let samples = draw_samples(&mut state);
        let radiance = trace_ray(&ray, &scene, &samples);
        assert!(radiance.x.abs() <= THROUGHPUT_MAX);
        assert!(radiance.y.abs() <= THROUGHPUT_MAX);
        assert!(radiance.z.abs() <= THROUGHPUT_MAX);
    }
}

#[test]
fn render_settings_carry_configuration() {
    let settings = RenderSettings { image_width: 800, image_height: 600, num_of_samples: 16 };
    assert_eq!(settings.image_width, 800);
    assert_eq!(settings.image_height, 600);
    assert_eq!(settings.num_of_samples, 16);
}

#[test]
fn bounce_on_miss_finishes_with_weighted_sky() {
    let sky = v(0.25, 0.5, 0.75);
    let scene = Scene::new(sky);
    let ray = Ray { origin: v(0.0, 0.0, 0.0), direction: v(0.0, 0.0, 1.0) };
    let throughput = Vector3 { x: SCALE, y: SCALE, z: SCALE };
    let outcome = trace_bounce(&scene, &ray, &throughput, &Sample2D { s: 1, t: 2 });
    match outcome {
        BounceOutcome::Finish(radiance) => assert_eq!(radiance, sky),
        BounceOutcome::Scatter(_, _) => panic!("a ray that misses everything must finish"),
    }
}

#[test]
fn bounce_on_diffuse_hit_scatters_upward() {
    let mut scene = Scene::new(v(0.0, 0.0, 0.0));
    scene.add_entity(Entity {
        shape: Shape::Plane(Plane::new(
            v(0.0, 0.0, 5.0),
            v(0.0, 0.0, -1.0),
            v(0.0, 1.0, 0.0),
            8 * SCALE,
            8 * SCALE,
        )),
        material: Material::Diffuse(DiffuseMaterial { color: v(0.6, 0.6, 0.6) }),
    });
    let ray = Ray { origin: v(0.0, 0.0, 0.0), direction: v(0.0, 0.0, 1.0) };
    let throughput = Vector3 { x: SCALE, y: SCALE, z: SCALE };
    let outcome = trace_bounce(&scene, &ray, &throughput, &Sample2D { s: 300, t: 400 });
    match outcome {
        BounceOutcome::Finish(_) => panic!("a front-side diffuse hit must scatter"),
        BounceOutcome::Scatter(next_ray, next_throughput) => {
            // the new origin sits just off the plane at z = 5
            assert!((next_ray.origin.z - 5 * SCALE).abs() < SCALE / 2);
            assert!(next_throughput.x > 0);
        }
    }
}

#[test]
fn back_side_diffuse_first_hit_contributes_nothing() {
    let mut scene = Scene::new(v(0.3, 0.3, 0.3));
    // one-sided plane whose configured normal points away from the camera
    scene.add_entity(Entity {
        shape: Shape::Plane(Plane::new(
            v(0.0, 0.0, 5.0),
            v(0.0, 0.0, 1.0),
            v(0.0, 1.0, 0.0),
            8 * SCALE,
            8 * SCALE,
        )),
        material: Material::Diffuse(DiffuseMaterial { color: v(0.6, 0.6, 0.6) }),
    });
    let ray = Ray { origin: v(0.0, 0.0, 0.0), direction: v(0.0, 0.0, 1.0) };
    let mut state: u64 = 3;
    for _ in 0..20 {
        let samples = draw_samples(&mut state);
        assert_eq!(trace_ray(&ray, &scene, &samples), Vector3 { x: 0, y: 0, z: 0 });
    }
}
