use pathtracer::fixed::{EPS, SCALE};
use pathtracer::tools::{
    equal_error, greater_error, is_negative_error, is_positive_error, less_error, Sample2D,
};

#[test]
fn equal_error_within_tolerance() {
    assert!(equal_error(1000, 1000 + EPS - 1));
    assert!(equal_error(1000, 1000 - EPS + 1));
    assert!(!equal_error(1000, 1000 + EPS));
    assert!(equal_error(0, 0));
}

#[test]
fn greater_and_less_error_need_clearance() {
    assert!(greater_error(2 * EPS, 0));
    assert!(!greater_error(EPS, 0));
    assert!(less_error(0, 2 * EPS));
    assert!(!less_error(0, EPS));
}

#[test]
fn signed_error_tests() {
    assert!(is_positive_error(EPS + 1));
    assert!(!is_positive_error(EPS));
    assert!(is_negative_error(-EPS - 1));
    assert!(!is_negative_error(-EPS));
    assert!(!is_positive_error(0));
    assert!(!is_negative_error(0));
}

#[test]
fn sample2d_holds_draws() {
    let s = Sample2D { s: 0, t: SCALE - 1 };
    assert_eq!(s.s, 0);
    assert_eq!(s.t, SCALE - 1);
}
