use linalg::error::LinalgError;
use linalg::matrix::Matrix;
use linalg::ops::try_linear_combination;
use linalg::vector::Vector;

#[test]
fn vector_size_mismatch_is_reported() {
    let a = Vector::from([1i64, 2, 3]);
    let b = Vector::from([4i64, 5, 6, 7]);
    assert_eq!(a.try_add(&b), Err(LinalgError::ShapeMismatch));
    assert_eq!(a.try_sub(&b), Err(LinalgError::ShapeMismatch));
    assert_eq!(a.try_dot(&b), Err(LinalgError::ShapeMismatch));
    let c = Vector::from([1i64, 1, 1]);
    assert_eq!(a.try_add(&c), Ok(Vector::from([2i64, 3, 4])));
    assert_eq!(a.try_sub(&c), Ok(Vector::from([0i64, 1, 2])));
    assert_eq!(a.try_dot(&c), Ok(6));
}

#[test]
fn matrix_shape_mismatch_is_reported() {
    let a = Matrix::from_rows([[1i64, 2], [3, 4]]);
    let b = Matrix::from_rows([[1i64, 2, 3]]);
    assert_eq!(a.try_add(&b), Err(LinalgError::ShapeMismatch));
    assert_eq!(a.try_sub(&b), Err(LinalgError::ShapeMismatch));
    assert_eq!(a.try_mul_mat(&b), Err(LinalgError::ShapeMismatch));
    assert_eq!(b.try_mul_mat(&a), Err(LinalgError::ShapeMismatch));
    assert_eq!(a.try_mul_vec(&Vector::from([1i64, 2, 3])), Err(LinalgError::ShapeMismatch));
    assert_eq!(a.try_mul_vec(&Vector::from([1i64, 1])), Ok(Vector::from([3i64, 7])));
    assert_eq!(a.try_add(&a), Ok(Matrix::from_rows([[2i64, 4], [6, 8]])));
    assert_eq!(a.try_mul_mat(&a), Ok(Matrix::from_rows([[7i64, 10], [15, 22]])));
}

#[test]
fn out_of_bounds_is_reported() {
    let mut a = Matrix::from_rows([[1i64, 2], [3, 4]]);
    assert_eq!(a.try_get(2, 0), Err(LinalgError::IndexOutOfBounds));
    assert_eq!(a.try_get(0, 2), Err(LinalgError::IndexOutOfBounds));
    assert_eq!(a.try_get(1, 1), Ok(4));
    assert_eq!(a.try_set(0, 5, 9), Err(LinalgError::IndexOutOfBounds));
    assert_eq!(a, Matrix::from_rows([[1i64, 2], [3, 4]]));
    assert_eq!(a.try_set(0, 1, 9), Ok(()));
    assert_eq!(a.get(0, 1), 9);
}

#[test]
fn not_square_is_reported() {
    let a = Matrix::from_rows([[1i64, 2, 3], [4, 5, 6]]);
    assert_eq!(a.try_trace(), Err(LinalgError::NotSquare));
    assert_eq!(a.try_determinant(), Err(LinalgError::NotSquare));
    let b = Matrix::from_rows([[1i64, 2], [3, 4]]);
    assert_eq!(b.try_trace(), Ok(5));
    assert_eq!(b.try_determinant(), Ok(-2));
}

#[test]
fn linear_combination_input_errors() {
    let none: [Vector<i64>; 0] = [];
    assert_eq!(try_linear_combination(&none, &[]), Err(LinalgError::EmptyOrMismatchedInput));
    let v = [Vector::from([1i64, 2]), Vector::from([3i64, 4])];
    assert_eq!(try_linear_combination(&v, &[1]), Err(LinalgError::EmptyOrMismatchedInput));
    let uneven = [Vector::from([1i64, 2]), Vector::from([3i64, 4, 5])];
    assert_eq!(try_linear_combination(&uneven, &[1, 1]), Err(LinalgError::ShapeMismatch));
    assert_eq!(try_linear_combination(&v, &[1, 1]), Ok(Vector::from([4i64, 6])));
}
