use pathtracer::fixed::SCALE;
use pathtracer::material::{DiffuseMaterial, EmissiveMaterial, Material, NoMaterial};
use pathtracer::ray::Ray;
use pathtracer::scene::{Entity, EntityIntersection, Scene};
use pathtracer::shape::{Shape, Sphere};
use pathtracer::vector::Vector3;

fn unit_z() -> Vector3 {
    Vector3 { x: 0, y: 0, z: SCALE }
}

fn sphere_at_z(z: i64, radius: i64) -> Shape {
    Shape::Sphere(Sphere { position: Vector3 { x: 0, y: 0, z }, radius })
}

fn red() -> Material {
    Material::Diffuse(DiffuseMaterial { color: Vector3 { x: SCALE, y: 0, z: 0 } })
}

fn lamp() -> Material {
    Material::Emissive(EmissiveMaterial { emission: Vector3 { x: SCALE, y: SCALE, z: SCALE } })
}

#[test]
fn trace_returns_nearest_hit() {
    let mut scene = Scene::new(Vector3 { x: 0, y: 0, z: 0 });
    scene.add_entity(Entity { shape: sphere_at_z(10 * SCALE, SCALE), material: lamp() });
    scene.add_entity(Entity { shape: sphere_at_z(5 * SCALE, SCALE), material: red() });
    let ray = Ray { origin: Vector3 { x: 0, y: 0, z: 0 }, direction: unit_z() };
    let hit = scene.trace(&ray);
    assert_eq!(hit.shape_intersection.t, 4 * SCALE);
    assert_eq!(hit.material, red());
    assert_eq!(
        hit.shape_intersection.surface_normal,
        Vector3 { x: 0, y: 0, z: -SCALE }
    );
}

#[test]
fn trace_breaks_ties_toward_first_entity() {
    let mut scene = Scene::new(Vector3 { x: 0, y: 0, z: 0 });
    scene.add_entity(Entity { shape: sphere_at_z(5 * SCALE, SCALE), material: lamp() });
    scene.add_entity(Entity { shape: sphere_at_z(5 * SCALE, SCALE), material: red() });
    let ray = Ray { origin: Vector3 { x: 0, y: 0, z: 0 }, direction: unit_z() };
    let hit = scene.trace(&ray);
    assert_eq!(hit.shape_intersection.t, 4 * SCALE);
    assert_eq!(hit.material, lamp());
}

#[test]
fn trace_miss_returns_inert_default() {
    let mut scene = Scene::new(Vector3 { x: SCALE, y: SCALE, z: SCALE });
    scene.add_entity(Entity { shape: sphere_at_z(-10 * SCALE, SCALE), material: red() });
    let ray = Ray { origin: Vector3 { x: 0, y: 0, z: 0 }, direction: unit_z() };
    let hit = scene.trace(&ray);
    assert_eq!(hit.shape_intersection.t, -1);
    assert_eq!(hit.material, Material::NoMaterial(NoMaterial));
}

#[test]
fn entity_intersection_default_is_sentinel() {
    let d = EntityIntersection::default();
    assert_eq!(d.shape_intersection.t, -1);
    assert_eq!(d.material, Material::NoMaterial(NoMaterial));
}
