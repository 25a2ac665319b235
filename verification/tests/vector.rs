use pathtracer::fixed::SCALE;
use pathtracer::tools::equal_error;
use pathtracer::vector::Vector3;

fn fx(x: f64) -> i64 {
    (x * SCALE as f64).round() as i64
}

fn v(x: f64, y: f64, z: f64) -> Vector3 {
    Vector3 { x: fx(x), y: fx(y), z: fx(z) }
}

#[test]
fn vector_main_test() {
    let mut v0 = v(13.0, 21.5, -2.3);
    let v1 = v(-1.0, -2.1, 1.1);

    assert!(equal_error(v0.dot(&v1), fx(-60.68)));

    let sum = v1.add(&v0);
    assert!(equal_error(sum.x, fx(12.0)));
    assert!(equal_error(sum.y, fx(19.4)));
    assert!(equal_error(sum.z, fx(-1.2)));

    v0 = v0.add(&v1);
    assert!(equal_error(v0.x, fx(12.0)));
    assert!(equal_error(v0.y, fx(19.4)));
    assert!(equal_error(v0.z, fx(-1.2)));

    v0 = Vector3::zero_vector();
    v0 = v1.sub(&v0);
    assert!(v0.approx_eq(&v1));

    v0 = v1;
    v0 = v0.sub(&v1);
    assert!(equal_error(v0.x, 0));
    assert!(equal_error(v0.y, 0));
    assert!(equal_error(v0.z, 0));

    let a = v(3.0, -3.0, 1.0);
    let b = v(4.0, 9.0, 2.0);
    assert!(!a.approx_eq(&b));

    let a_x_b = a.cross(&b);
    assert!(equal_error(a_x_b.x, fx(-15.0)));
    assert!(equal_error(a_x_b.y, fx(-2.0)));
    assert!(equal_error(a_x_b.z, fx(39.0)));

    let z_axis = v(0.0, 0.0, 1.0);
    let y_axis = v(0.0, 1.0, 0.0);
    let neg_x_axis = z_axis.cross(&y_axis);
    assert!(neg_x_axis.approx_eq(&v(-1.0, 0.0, 0.0)));

    let a_mul_b = a.mul_comp(&b);
    assert!(equal_error(a_mul_b.x, fx(12.0)));
    assert!(equal_error(a_mul_b.y, fx(-27.0)));
    assert!(equal_error(a_mul_b.z, fx(2.0)));

    let c = b;
    assert!(c.approx_eq(&b));

    let mut vec = v(3.0, 1.0, 2.0);
    let unit_vec = vec.unit();
    assert!(equal_error(unit_vec.x, fx(0.8017)));
    assert!(equal_error(unit_vec.y, fx(0.2672)));
    assert!(equal_error(unit_vec.z, fx(0.5345)));

    vec.normalize();
    assert!(vec.approx_eq(&unit_vec));
}

#[test]
fn length_of_exact_triple_is_exact() {
    let p = Vector3 { x: 3 * SCALE, y: 4 * SCALE, z: 0 };
    assert_eq!(p.length(), 5 * SCALE);
}

#[test]
fn unit_of_axis_vector_is_exact() {
    let p = Vector3 { x: 0, y: -7 * SCALE, z: 0 };
    let u = p.unit();
    assert_eq!(u, Vector3 { x: 0, y: -SCALE, z: 0 });
}

#[test]
fn to_basis_projects_onto_frame() {
    let normal = Vector3 { x: 0, y: 0, z: SCALE };
    let right = Vector3 { x: SCALE, y: 0, z: 0 };
    let up = Vector3 { x: 0, y: SCALE, z: 0 };
    let p = Vector3 { x: 2 * SCALE, y: -3 * SCALE, z: 5 * SCALE };
    let b = Vector3::to_basis(&p, &normal, &right, &up);
    assert_eq!(b, Vector3 { x: 2 * SCALE, y: -3 * SCALE, z: 5 * SCALE });
}

#[test]
fn is_zero_respects_tolerance() {
    let tiny = Vector3 { x: 3, y: -2, z: 1 };
    assert!(tiny.is_zero());
    let small = Vector3 { x: 0, y: 1000, z: 0 };
    assert!(!small.is_zero());
}
