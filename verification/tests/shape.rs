use pathtracer::fixed::SCALE;
use pathtracer::ray::Ray;
use pathtracer::shape::{Plane, Sphere};
use pathtracer::tools::equal_error;
use pathtracer::vector::Vector3;

fn fx(x: f32) -> i64 {
    (x * SCALE as f32).round() as i64
}

fn v(x: f32, y: f32, z: f32) -> Vector3 {
    Vector3 { x: fx(x), y: fx(y), z: fx(z) }
}

// A pinhole camera in plain floating point, as the unverified render shell
// has it; tests convert each generated ray to fixed point.
struct TestCamera {
    position: [f32; 3],
    up: [f32; 3],
    look: [f32; 3],
    right: [f32; 3],
    width: f32,
    aspect_ratio: f32,
}

fn cross3(a: [f32; 3], b: [f32; 3]) -> [f32; 3] {
    [
        a[1] * b[2] - a[2] * b[1],
        a[2] * b[0] - a[0] * b[2],
        a[0] * b[1] - a[1] * b[0],
    ]
}

fn dot3(a: [f32; 3], b: [f32; 3]) -> f32 {
    a[0] * b[0] + a[1] * b[1] + a[2] * b[2]
}

impl TestCamera {
    fn new(fov: f32, aspect_ratio: f32, position: [f32; 3], look: [f32; 3], up: [f32; 3]) -> Self {
        TestCamera {
            position,
            up,
            look,
            right: cross3(up, look),
            width: f32::tan(fov * 0.5) * 2.0,
            aspect_ratio,
        }
    }

    fn generate_ray(&self, film_x: f32, film_y: f32) -> Ray {
        let film_position = [
            self.width * film_x - 1.0,
            (self.width * film_y - 1.0) / self.aspect_ratio,
            1.0,
        ];
        let camera_space = [
            dot3(film_position, self.right),
            dot3(film_position, self.up),
            dot3(film_position, self.look),
        ];
        let len = f32::sqrt(dot3(camera_space, camera_space));
        Ray {
            origin: v(self.position[0], self.position[1], self.position[2]),
            direction: v(
                camera_space[0] / len,
                camera_space[1] / len,
                camera_space[2] / len,
            ),
        }
    }
}

#[test]
fn shape_main_test() {
    let sphere = Sphere { position: v(13.0, -69.0, 4.2), radius: fx(3.3) };
    let ray = Ray { origin: v(13.0, -69.0, -1.0), direction: v(0.0, 0.0, 1.0) };
    let sphere_intersection = sphere.intersect(&ray);
    assert!(sphere_intersection.t > 0);

    let plane = Plane::new(
        v(13.0, -69.0, 4.2),
        v(0.0, 0.0, 1.0),
        v(0.0, 1.0, 0.0),
        fx(1.0),
        fx(1.0),
    );
    let plane_intersection = plane.intersect(&ray);
    assert!(plane_intersection.t > 0);
}

#[test]
fn camera_ray_sphere_intersections_test() {
    let width = 800u32;
    let height = 600u32;
    let camera = TestCamera::new(
        std::f32::consts::PI / 2.0,
        width as f32 / height as f32,
        [0.0, 0.0, 0.0],
        [0.0, 0.0, 1.0],
        [0.0, 1.0, 0.0],
    );
    let sphere = Sphere { position: v(5.0, 0.0, 10.0), radius: fx(3.0) };
    let mut hits = 0u32;
    for x in 0..width {
        let film_x = (x as f32 + 0.5) / width as f32;
        for y in 0..height {
            let film_y = (y as f32 + 0.5) / height as f32;
            let ray = camera.generate_ray(film_x, film_y);
            let intersection = sphere.intersect(&ray);
            if intersection.t >= 0 {
                hits += 1;
                let n = intersection.surface_normal;
                let len = ((n.x as f64 * n.x as f64 + n.y as f64 * n.y as f64 + n.z as f64
                    * n.z as f64)
                    .sqrt()) as i64;
                assert!(equal_error(len, SCALE));
            }
        }
    }
    assert!(hits > 0);
}

#[test]
fn camera_ray_plane_intersections_test() {
    let width = 800u32;
    let height = 600u32;
    let camera = TestCamera::new(
        std::f32::consts::PI / 2.0,
        width as f32 / height as f32,
        [0.0, 0.0, 0.0],
        [0.0, 0.0, 1.0],
        [0.0, 1.0, 0.0],
    );
    let plane = Plane::new(
        v(0.0, 0.0, 5.0),
        v(0.0, 0.0, 1.0),
        v(0.0, 1.0, 0.0),
        fx(4.0),
        fx(4.0),
    );
    let mut hits = 0u32;
    for x in 0..width {
        let film_x = (x as f32 + 0.5) / width as f32;
        for y in 0..height {
            let film_y = (y as f32 + 0.5) / height as f32;
            let ray = camera.generate_ray(film_x, film_y);
            let intersection = plane.intersect(&ray);
            if intersection.t > 0 {
                hits += 1;
            }
        }
    }
    assert!(hits > 0);
}

#[test]
fn sphere_axis_round_trip() {
    let r = 3 * SCALE;
    let sphere = Sphere { position: Vector3 { x: 0, y: 0, z: 0 }, radius: r };
    let ray = Ray {
        origin: Vector3 { x: 0, y: 0, z: -2 * r },
        direction: Vector3 { x: 0, y: 0, z: SCALE },
    };
    let intersection = sphere.intersect(&ray);
    assert_eq!(intersection.t, r);
    assert_eq!(intersection.surface_normal, Vector3 { x: 0, y: 0, z: -SCALE });
}

#[test]
fn sphere_miss_reports_sentinel() {
    let sphere = Sphere { position: v(0.0, 0.0, 10.0), radius: fx(1.0) };
    let ray = Ray { origin: v(0.0, 0.0, 0.0), direction: v(0.0, 0.0, -1.0) };
    let intersection = sphere.intersect(&ray);
    assert_eq!(intersection.t, -1);
    assert_eq!(intersection.surface_normal, Vector3 { x: 0, y: 0, z: 0 });
}

#[test]
fn plane_reports_configured_normal_and_bounds() {
    let normal = v(0.0, 0.0, -1.0);
    let plane = Plane::new(v(0.0, 0.0, 5.0), normal, v(0.0, 1.0, 0.0), fx(2.0), fx(2.0));
    let inside = Ray { origin: v(0.5, -0.5, 0.0), direction: v(0.0, 0.0, 1.0) };
    let hit = plane.intersect(&inside);
    assert_eq!(hit.t, fx(5.0));
    assert_eq!(hit.surface_normal, normal);

    let outside = Ray { origin: v(1.5, 0.0, 0.0), direction: v(0.0, 0.0, 1.0) };
    let miss = plane.intersect(&outside);
    assert_eq!(miss.t, -1);
}

#[test]
fn plane_parallel_ray_misses() {
    let plane = Plane::new(
        v(0.0, 0.0, 5.0),
        v(0.0, 0.0, 1.0),
        v(0.0, 1.0, 0.0),
        fx(4.0),
        fx(4.0),
    );
    let ray = Ray { origin: v(0.0, 0.0, 0.0), direction: v(1.0, 0.0, 0.0) };
    assert_eq!(plane.intersect(&ray).t, -1);
}
