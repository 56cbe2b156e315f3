use linalg::matrix::Matrix;
use linalg::ratio::Ratio;
use linalg::vector::Vector;

fn r(n: i32) -> Ratio {
    Ratio::from_int(n)
}

#[test]
fn from_rows_is_column_major() {
    let m = Matrix::from_rows([[1i64, 2, 3, 4, 5], [6, 7, 8, 9, 10]]);
    assert_eq!(m.shape(), (5, 2));
    assert_eq!(m.data(), &vec![1i64, 6, 2, 7, 3, 8, 4, 9, 5, 10]);
    assert!(!m.is_square());
    assert_eq!(m.get(1, 0), 2);
    assert_eq!(m.get(0, 1), 6);
}

#[test]
fn from_columns_keeps_columns() {
    let m = Matrix::from_columns([[1i64, 2], [3, 4], [5, 6]]);
    assert_eq!(m.shape(), (3, 2));
    assert_eq!(m.data(), &vec![1i64, 2, 3, 4, 5, 6]);
    assert_eq!(m, Matrix::from_rows([[1i64, 3, 5], [2, 4, 6]]));
}

#[test]
fn from_elem_and_set() {
    let mut m = Matrix::from_elem(0i64, 2, 3);
    assert_eq!(m.shape(), (2, 3));
    m.set(1, 2, 9);
    assert_eq!(m.get(1, 2), 9);
    assert_eq!(m.data(), &vec![0i64, 0, 0, 0, 0, 9]);
}

#[test]
fn empty_matrix() {
    let m: Matrix<i64> = Matrix::from_elem(0, 0, 0);
    assert_eq!(m.shape(), (0, 0));
    assert!(m.is_square());
    assert_eq!(m.trace(), 0);
    assert_eq!(m.determinant(), 1);
    assert_eq!(m.transpose(), m);
}

#[test]
fn addition_commutes_and_cancels() {
    let a = Matrix::from_rows([[1i64, 2], [3, 4]]);
    let b = Matrix::from_rows([[10i64, -20], [30, 5]]);
    assert_eq!(a.add(&b), b.add(&a));
    assert_eq!(a.add(&b), Matrix::from_rows([[11i64, -18], [33, 9]]));
    assert_eq!(a.add(&b).sub(&b), a);
    assert_eq!(a.scl(3), Matrix::from_rows([[3i64, 6], [9, 12]]));
}

#[test]
fn integer_entries_wrap() {
    let a = Matrix::from_rows([[i64::MAX]]);
    let b = Matrix::from_rows([[1i64]]);
    assert_eq!(a.add(&b), Matrix::from_rows([[i64::MIN]]));
    assert_eq!(a.add(&b).sub(&b), a);
}

#[test]
fn transpose_and_trace() {
    let a = Matrix::from_rows([[1i64, 2, 3], [4, 5, 6], [7, 8, 10]]);
    assert_eq!(a.trace(), 16);
    assert_eq!(a.transpose().trace(), a.trace());
    assert_eq!(a.transpose(), Matrix::from_rows([[1i64, 4, 7], [2, 5, 8], [3, 6, 10]]));
    assert_eq!(a.transpose().transpose(), a);
    let w = Matrix::from_rows([[1i64, 2, 3], [4, 5, 6]]);
    assert_eq!(w.transpose().shape(), (2, 3));
    assert_eq!(w.transpose(), Matrix::from_rows([[1i64, 4], [2, 5], [3, 6]]));
}

#[test]
fn matrix_vector_product() {
    let m = Matrix::from_rows([[2i64, -2], [-2, 2]]);
    assert_eq!(m.mul_vec(&Vector::from([4i64, 2])), Vector::from([4i64, -4]));
}

#[test]
fn matrix_product() {
    let a = Matrix::from_rows([[1i64, 2, 3], [4, 5, 6]]);
    let b = Matrix::from_rows([[7i64, 8], [9, 10], [11, 12]]);
    let c = a.mul_mat(&b);
    assert_eq!(c.shape(), (2, 2));
    assert_eq!(c, Matrix::from_rows([[58i64, 64], [139, 154]]));
    let id: Matrix<i64> = Matrix::identity(3);
    assert_eq!(a.mul_mat(&id), a);
}

#[test]
fn row_echelon_rank_deficient() {
    let m = Matrix::from_rows([[1i64, 2], [2, 4]]);
    assert_eq!(m.row_echelon(), Matrix::from_rows([[1i64, 2], [0, 0]]));
    let q = Matrix::from_rows([[r(1), r(2)], [r(2), r(4)]]);
    assert_eq!(q.row_echelon(), Matrix::from_rows([[r(1), r(2)], [r(0), r(0)]]));
}

#[test]
fn row_echelon_full_rank_and_idempotent() {
    let m = Matrix::from_rows([[r(0), r(2), r(4)], [r(1), r(1), r(1)], [r(2), r(2), r(3)]]);
    let e = m.row_echelon();
    assert_eq!(e, Matrix::from_rows([[r(1), r(0), r(0)], [r(0), r(1), r(0)], [r(0), r(0), r(1)]]));
    assert_eq!(e.row_echelon(), e);
    let w = Matrix::from_rows([[r(1), r(2), r(3)], [r(2), r(4), r(7)]]);
    let we = w.row_echelon();
    assert_eq!(we, Matrix::from_rows([[r(1), r(2), r(0)], [r(0), r(0), r(1)]]));
    assert_eq!(we.row_echelon(), we);
    let z = Matrix::from_rows([[3i64, 6], [1, 2], [0, 5]]);
    assert_eq!(z.row_echelon().row_echelon(), z.row_echelon());
}

#[test]
fn determinant_by_size() {
    assert_eq!(Matrix::from_rows([[-7i64]]).determinant(), -7);
    assert_eq!(Matrix::from_rows([[3i64, 8], [4, 6]]).determinant(), -14);
    let m = Matrix::from_rows([[r(8), r(5), r(-2)], [r(4), r(7), r(20)], [r(7), r(6), r(1)]]);
    assert_eq!(m.determinant(), r(-174));
    let s = Matrix::from_rows([
        [r(0), r(1), r(0), r(0)],
        [r(1), r(0), r(0), r(0)],
        [r(0), r(0), r(2), r(0)],
        [r(0), r(0), r(0), r(3)],
    ]);
    assert_eq!(s.determinant(), r(-6));
    let big: Matrix<i64> = Matrix::identity(5);
    assert_eq!(big.determinant(), 0);
}

#[test]
fn determinant_of_identity_is_one() {
    let i0: Matrix<i64> = Matrix::identity(0);
    let i1: Matrix<i64> = Matrix::identity(1);
    let i2: Matrix<i64> = Matrix::identity(2);
    let i3: Matrix<i64> = Matrix::identity(3);
    let i4: Matrix<i64> = Matrix::identity(4);
    assert_eq!(i0.determinant(), 1);
    assert_eq!(i1.determinant(), 1);
    assert_eq!(i2.determinant(), 1);
    assert_eq!(i3.determinant(), 1);
    assert_eq!(i4.determinant(), 1);
}

#[test]
fn determinant_with_zero_row() {
    let a = Matrix::from_rows([[r(1), r(2), r(3)], [r(0), r(0), r(0)], [r(4), r(5), r(6)]]);
    assert_eq!(a.determinant(), r(0));
    let b = Matrix::from_rows([[0i64, 0], [5, 6]]);
    assert_eq!(b.determinant(), 0);
    let c = Matrix::from_rows([[0i64, 0, 0, 0], [1, 2, 3, 4], [5, 6, 7, 8], [9, 1, 2, 3]]);
    assert_eq!(c.determinant(), 0);
}
