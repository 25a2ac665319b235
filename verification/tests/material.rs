use pathtracer::fixed::SCALE;
use pathtracer::material::{
    calculate_fresnel, cos2pi, refract, sin2pi, DiffuseMaterial, EmissiveMaterial, Material,
    MaterialSample, NoMaterial, ReflectiveMaterial, TransparentMaterial, HALF_OVER_PI, ONE_OVER_PI,
};
use pathtracer::shape::ShapeIntersection;
use pathtracer::tools::Sample2D;
use pathtracer::vector::Vector3;

fn fx(x: f64) -> i64 {
    (x * SCALE as f64).round() as i64
}

fn v(x: f64, y: f64, z: f64) -> Vector3 {
    Vector3 { x: fx(x), y: fx(y), z: fx(z) }
}

// Deterministic uniform draws in [0, SCALE) for statistical tests.
fn lcg(state: &mut u64) -> i64 {
    *state = state
        .wrapping_mul(6364136223846793005)
        .wrapping_add(1442695040888963407);
    ((*state >> 33) & 0xFFFF) as i64
}

fn surface(normal: Vector3) -> ShapeIntersection {
    ShapeIntersection { t: SCALE, surface_normal: normal }
}

#[test]
fn trig_hits_exact_anchors() {
    assert_eq!(sin2pi(0), 0);
    assert_eq!(sin2pi(16384), SCALE);
    assert_eq!(sin2pi(49152), -SCALE);
    assert_eq!(cos2pi(0), SCALE);
    assert_eq!(cos2pi(49152), 0);
}

#[test]
fn fresnel_at_normal_incidence() {
    // eta 1.5, cosine 1: the closed form lands two units under 0.04.
    assert_eq!(calculate_fresnel(fx(1.5), SCALE), 2620);
}

#[test]
fn refract_straight_through_flips_direction() {
    let wo = Vector3 { x: 0, y: 0, z: SCALE };
    let n = Vector3 { x: 0, y: 0, z: SCALE };
    let wi = refract(&wo, &n, SCALE, SCALE);
    assert_eq!(wi, Vector3 { x: 0, y: 0, z: -SCALE });
}

#[test]
fn invalid_sample_is_all_zero() {
    let ms = MaterialSample::invalid_sample();
    assert_eq!(ms.brdf, Vector3 { x: 0, y: 0, z: 0 });
    assert_eq!(ms.sample_direction, Vector3 { x: 0, y: 0, z: 0 });
    assert_eq!(ms.pdf, 0);
}

#[test]
fn no_material_never_scatters() {
    let m = NoMaterial;
    let ms = m.sample_material(
        &Vector3 { x: 0, y: 0, z: SCALE },
        &surface(Vector3 { x: 0, y: 0, z: SCALE }),
        &Sample2D { s: 0, t: 0 },
    );
    assert_eq!(ms.pdf, 0);
}

#[test]
fn emissive_material_emits_and_never_scatters() {
    let color = v(0.8, 0.1, 0.8);
    let material = EmissiveMaterial::new(&color, 2 * SCALE);
    assert_eq!(material.get_emission(), color.scale(2 * SCALE));
    let ms = material.sample_material(
        &Vector3 { x: 0, y: 0, z: SCALE },
        &surface(Vector3 { x: 0, y: 0, z: SCALE }),
        &Sample2D { s: 0, t: 0 },
    );
    assert_eq!(ms.pdf, 0);
}

#[test]
fn diffuse_direction_stays_in_upper_hemisphere() {
    let material = DiffuseMaterial { color: v(0.8, 0.1, 0.8) };
    let wo = Vector3 { x: 0, y: 0, z: SCALE };
    let inter = surface(Vector3 { x: 0, y: 0, z: SCALE });
    let expected_brdf = material.color.scale(ONE_OVER_PI);
    let mut state: u64 = 7;
    for _ in 0..1000 {
        let sample = Sample2D { s: lcg(&mut state), t: lcg(&mut state) };
        let ms = material.sample_material(&wo, &inter, &sample);
        assert!(ms.sample_direction.z >= 0);
        assert_eq!(ms.brdf, expected_brdf);
        assert_eq!(ms.pdf, HALF_OVER_PI);
    }
}

#[test]
fn diffuse_rejects_back_side_queries() {
    let material = DiffuseMaterial { color: v(0.5, 0.5, 0.5) };
    let wo = Vector3 { x: 0, y: 0, z: -SCALE };
    let inter = surface(Vector3 { x: 0, y: 0, z: SCALE });
    let ms = material.sample_material(&wo, &inter, &Sample2D { s: 100, t: 100 });
    assert_eq!(ms.pdf, 0);
    assert_eq!(ms.sample_direction, Vector3 { x: 0, y: 0, z: 0 });
}

#[test]
fn reflective_preserves_angle_to_normal() {
    let material = ReflectiveMaterial { color: v(0.9, 0.9, 0.9) };
    let wo = Vector3 { x: fx(0.6), y: 0, z: fx(0.8) };
    let n = Vector3 { x: 0, y: 0, z: SCALE };
    let ms = material.sample_material(&wo, &surface(n), &Sample2D { s: 0, t: 0 });
    assert_eq!(ms.pdf, SCALE);
    assert_eq!(ms.sample_direction.dot(&n), wo.dot(&n));
    assert_eq!(
        ms.sample_direction,
        Vector3 { x: -fx(0.6), y: 0, z: fx(0.8) }
    );
}

#[test]
fn transparent_branch_split_matches_fresnel() {
    let material = TransparentMaterial { color: v(1.0, 1.0, 1.0), ior: fx(1.5) };
    let wo = Vector3 { x: fx(0.6), y: 0, z: fx(0.8) };
    let n = Vector3 { x: 0, y: 0, z: SCALE };
    let inter = surface(n);
    // Entering the medium: the effective relative index is the reciprocal.
    let eta = (SCALE as i128 * SCALE as i128 / material.ior as i128) as i64;
    let d = wo.dot(&n);
    let fresnel = calculate_fresnel(eta, d);
    assert!(0 < fresnel && fresnel < SCALE);

    let draws = 10000u32;
    let mut reflections = 0u32;
    let mut state: u64 = 99;
    for _ in 0..draws {
        let sample = Sample2D { s: lcg(&mut state), t: lcg(&mut state) };
        let ms = material.sample_material(&wo, &inter, &sample);
        assert!(ms.pdf != 0);
        if ms.pdf == fresnel {
            reflections += 1;
        } else {
            assert_eq!(ms.pdf, SCALE - fresnel);
        }
    }
    let observed = reflections as f64 / draws as f64;
    let expected = fresnel as f64 / SCALE as f64;
    assert!((observed - expected).abs() < 0.02);
}

#[test]
fn transparent_rejects_grazing_queries() {
    let material = TransparentMaterial { color: v(1.0, 1.0, 1.0), ior: fx(1.5) };
    let wo = Vector3 { x: SCALE, y: 0, z: 0 };
    let n = Vector3 { x: 0, y: 0, z: SCALE };
    let ms = material.sample_material(&wo, &surface(n), &Sample2D { s: 0, t: 0 });
    assert_eq!(ms.pdf, 0);
}

#[test]
fn material_dispatch_follows_the_variant() {
    let wo = Vector3 { x: 0, y: 0, z: SCALE };
    let inter = surface(Vector3 { x: 0, y: 0, z: SCALE });
    let draw = Sample2D { s: 500, t: 600 };

    let diffuse = Material::Diffuse(DiffuseMaterial { color: v(0.5, 0.5, 0.5) });
    assert_eq!(diffuse.sample_material(&wo, &inter, &draw).pdf, HALF_OVER_PI);
    assert_eq!(diffuse.get_emission(), Vector3 { x: 0, y: 0, z: 0 });

    let emission = v(2.0, 1.0, 0.5);
    let lamp = Material::Emissive(EmissiveMaterial { emission });
    assert_eq!(lamp.get_emission(), emission);
    assert_eq!(lamp.sample_material(&wo, &inter, &draw).pdf, 0);

    let inert = Material::NoMaterial(NoMaterial);
    assert_eq!(inert.sample_material(&wo, &inter, &draw).pdf, 0);
    assert_eq!(inert.get_emission(), Vector3 { x: 0, y: 0, z: 0 });
}

// The pinhole camera of the unverified render shell, in plain floating
// point; the test converts each generated ray to fixed point.
struct TestCamera {
    position: [f32; 3],
    up: [f32; 3],
    look: [f32; 3],
    right: [f32; 3],
    width: f32,
    aspect_ratio: f32,
}

fn cross3(a: [f32; 3], b: [f32; 3]) -> [f32; 3] {
    [
        a[1] * b[2] - a[2] * b[1],
        a[2] * b[0] - a[0] * b[2],
        a[0] * b[1] - a[1] * b[0],
    ]
}

fn dot3(a: [f32; 3], b: [f32; 3]) -> f32 {
    a[0] * b[0] + a[1] * b[1] + a[2] * b[2]
}

fn fx32(x: f32) -> i64 {
    (x * SCALE as f32).round() as i64
}

impl TestCamera {
    fn new(fov: f32, aspect_ratio: f32, position: [f32; 3], look: [f32; 3], up: [f32; 3]) -> Self {
        TestCamera {
            position,
            up,
            look,
            right: cross3(up, look),
            width: f32::tan(fov * 0.5) * 2.0,
            aspect_ratio,
        }
    }

    fn generate_ray(&self, film_x: f32, film_y: f32) -> pathtracer::ray::Ray {
        let film_position = [
            self.width * film_x - 1.0,
            (self.width * film_y - 1.0) / self.aspect_ratio,
            1.0,
        ];
        let camera_space = [
            dot3(film_position, self.right),
            dot3(film_position, self.up),
            dot3(film_position, self.look),
        ];
        let len = f32::sqrt(dot3(camera_space, camera_space));
        pathtracer::ray::Ray {
            origin: Vector3 {
                x: fx32(self.position[0]),
                y: fx32(self.position[1]),
                z: fx32(self.position[2]),
            },
            direction: Vector3 {
                x: fx32(camera_space[0] / len),
                y: fx32(camera_space[1] / len),
                z: fx32(camera_space[2] / len),
            },
        }
    }
}

#[test]
fn emission_material_test() {
    let width = 800u32;
    let height = 600u32;
    let camera = TestCamera::new(
        std::f32::consts::PI,
        width as f32 / height as f32,
        [0.0, 0.0, 0.0],
        [0.0, 0.0, 1.0],
        [0.0, 1.0, 0.0],
    );
    let sphere = pathtracer::shape::Sphere { position: v(0.0, 0.0, 10.0), radius: fx(5.0) };
    let material_color = v(0.8, 0.1, 0.8);
    let material = EmissiveMaterial::new(&material_color, SCALE);
    for x in 0..width {
        let film_x = (x as f32 + 0.5) / width as f32;
        for y in 0..height {
            let film_y = (y as f32 + 0.5) / height as f32;
            let ray = camera.generate_ray(film_x, film_y);
            let intersection = sphere.intersect(&ray);
            if intersection.t >= 0 {
                let n = intersection.surface_normal;
                let len = ((n.x as f64 * n.x as f64 + n.y as f64 * n.y as f64
                    + n.z as f64 * n.z as f64)
                    .sqrt()) as i64;
                assert!(pathtracer::tools::equal_error(len, SCALE));
                assert!(n.z <= 0);
                let sample_radiance = material.get_emission();
                assert_eq!(sample_radiance, material_color.scale(SCALE));
            }
        }
    }
}
