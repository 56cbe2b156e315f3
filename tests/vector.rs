use linalg::ratio::Ratio;
use linalg::vector::{angle_cos, Vector};

#[test]
fn test_vector_addition() {
    let a = Vector::from([1i64, 2, 3]);
    let b = Vector::from([4i64, 5, 6]);
    assert_eq!(a.add(&b), Vector::from([5i64, 7, 9]));
}

#[test]
fn test_vector_subtraction() {
    let a = Vector::from([1i64, 2, 3]);
    let b = Vector::from([4i64, 5, 6]);
    assert_eq!(a.sub(&b), Vector::from([-3i64, -3, -3]));
}

#[test]
fn test_vector_multiplication() {
    let a = Vector::from([1i64, 2, 3]);
    assert_eq!(a.clone().scl(2), Vector::from([2i64, 4, 6]));
    assert_eq!(a.clone().scl(-2), Vector::from([-2i64, -4, -6]));
}

#[test]
fn vector_size_and_access() {
    let mut v = Vector::from([7i64, 8, 9]);
    assert_eq!(v.size(), 3);
    assert_eq!(v.get(1), 8);
    v.set(1, 80);
    assert_eq!(v.get(1), 80);
    assert_eq!(Vector::from_elem(4i64, 2), Vector::from([4i64, 4]));
}

#[test]
fn vector_dot_is_symmetric() {
    let u = Vector::from([1i64, -2, 3]);
    let v = Vector::from([4i64, 5, -6]);
    assert_eq!(u.dot(&v), -24);
    assert_eq!(u.dot(&v), v.dot(&u));
}

#[test]
fn vector_norms() {
    let u = Vector::from([3i64, -4, 0]);
    assert_eq!(u.norm_1(), 7);
    assert_eq!(u.norm(), 5);
    assert_eq!(u.norm_inf(), 4);
    assert!(u.norm_inf() <= u.norm_1());
    assert!(u.norm() >= 0);
    let empty: Vector<i64> = Vector::from([]);
    assert_eq!(empty.size(), 0);
    assert_eq!(empty.norm_1(), 0);
    assert_eq!(empty.norm_inf(), 0);
}

#[test]
fn vector_norm_rounds_down_for_integers() {
    let u = Vector::from([1i64, 1]);
    assert_eq!(u.norm(), 1);
    let w = Vector::from([2i64, 2, 2, 2]);
    assert_eq!(w.norm(), 4);
}

#[test]
fn angle_cosine() {
    let u = Vector::from([Ratio::from_int(4), Ratio::from_int(0)]);
    let v = Vector::from([Ratio::from_int(0), Ratio::from_int(9)]);
    assert_eq!(angle_cos(&u, &v), Ratio::from_int(0));
    assert_eq!(angle_cos(&u, &u), Ratio::from_int(1));
    let w = Vector::from([Ratio::from_int(-2), Ratio::from_int(0)]);
    assert_eq!(angle_cos(&u, &w), Ratio::from_int(-1));
}
