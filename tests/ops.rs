use linalg::matrix::Matrix;
use linalg::ops::{lerp, lerp_matrix, lerp_vector, linear_combination};
use linalg::ratio::Ratio;
use linalg::vector::Vector;

fn r(n: i32) -> Ratio {
    Ratio::from_int(n)
}

fn q(n: i32, d: i32) -> Ratio {
    Ratio::new(n, d)
}

#[test]
fn test_linear_combination() {
    let e1: Vector<Ratio> = Vector::from([r(1), r(0), r(0)]);
    let e2: Vector<Ratio> = Vector::from([r(0), r(1), r(0)]);
    let e3: Vector<Ratio> = Vector::from([r(0), r(0), r(1)]);
    assert_eq!(
        linear_combination(&[e1, e2, e3], &[r(10), r(-2), q(1, 2)]),
        Vector::from([r(10), r(-2), q(1, 2)])
    );

    let v1 = Vector::from([r(1), r(2), r(3)]);
    let v2 = Vector::from([r(0), r(10), r(-100)]);
    assert_eq!(linear_combination(&[v1, v2], &[r(10), r(-2)]), Vector::from([r(10), r(0), r(230)]));
}

#[test]
fn test_lerp() {
    assert_eq!(lerp(r(0), r(1), r(0)), r(0));
    assert_eq!(lerp(r(0), r(1), r(1)), r(1));
    assert_eq!(lerp(r(0), r(1), q(1, 2)), q(1, 2));
    assert_eq!(lerp(r(21), r(42), q(3, 10)), q(273, 10));
    assert_eq!(
        lerp_vector(&Vector::from([r(2), r(1)]), &Vector::from([r(4), r(2)]), q(3, 10)),
        Vector::from([q(26, 10), q(13, 10)])
    );

    let a = Matrix::from_rows([[r(2), r(1)], [r(3), r(4)]]);
    let b = Matrix::from_rows([[r(20), r(10)], [r(30), r(40)]]);
    assert_eq!(
        lerp_matrix(&a.clone(), &b.clone(), q(1, 2)),
        Matrix::from_rows([[r(11), q(11, 2)], [q(33, 2), r(22)]])
    );
}

#[test]
fn lerp_at_the_ends() {
    let u = Vector::from([5i64, -3]);
    let v = Vector::from([1i64, 9]);
    assert_eq!(lerp_vector(&u, &v, 0), u);
    assert_eq!(lerp_vector(&u, &v, 1), v);
    assert_eq!(lerp(7i64, 11, 0), 7);
    assert_eq!(lerp(7i64, 11, 1), 11);
}

#[test]
fn linear_combination_integers() {
    let v1 = Vector::from([1i64, 2]);
    let v2 = Vector::from([3i64, 4]);
    assert_eq!(linear_combination(&[v1, v2], &[2, 3]), Vector::from([11i64, 16]));
}
