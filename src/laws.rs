//! Algebraic laws of the operations, proved over their specifications.

use vstd::prelude::*;
use crate::matrix::{Matrix, MatrixModel, fma_sum, identity_model, lemma_offset, lemma_ext};
use crate::elimination::{
    row_echelon_spec,
    determinant_spec,
    triangulate_upto,
    diagonal_product,
    pivot_row,
    swap_rows,
    negate_row,
    with_row,
    cleared_entry,
    clear_rows,
    lemma_row_echelon_reduced,
    lemma_row_echelon_fixed,
    lemma_with_row,
    lemma_pivot_row,
    lemma_clear_rows_at,
    lemma_clear_rows_shape,
};
use crate::ops::lerp_spec;
use crate::scalar::{Field, FieldLaws};
use crate::vector::{Vector, dot_spec, norm_spec, norm_1_spec, norm_inf_spec, abs_sum, abs_max};

verus! {

/// Matrix addition commutes: `A + B == B + A`.
pub proof fn lemma_add_commutative<K: FieldLaws>(a: Matrix<K>, b: Matrix<K>)
    requires
        a@.wf(),
        b@.wf(),
        a@.width == b@.width,
        a@.height == b@.height,
    ensures
        a@.plus(b@) == b@.plus(a@),
{
    assert forall|i: int| 0 <= i < a@.entries.len() implies #[trigger] a@.plus(b@).entries[i] == b@.plus(a@).entries[i] by {
        K::lemma_add_commutative(a@.entries[i], b@.entries[i]);
    }
    assert(a@.plus(b@).entries =~= b@.plus(a@).entries);
}

/// Subtracting what was added gives the matrix back: `(A + B) - B == A`.
pub proof fn lemma_add_sub_cancel<K: FieldLaws>(a: Matrix<K>, b: Matrix<K>)
    requires
        a@.wf(),
        b@.wf(),
        a@.width == b@.width,
        a@.height == b@.height,
    ensures
        a@.plus(b@).minus(b@) == a@,
{
    assert forall|i: int| 0 <= i < a@.entries.len() implies #[trigger] a@.plus(b@).minus(b@).entries[i] == a@.entries[i] by {
        K::lemma_add_sub_cancel(a@.entries[i], b@.entries[i]);
    }
    assert(a@.plus(b@).minus(b@).entries =~= a@.entries);
}

/// Transposing twice gives the matrix back.
pub proof fn lemma_transpose_involution<K: Field>(a: Matrix<K>)
    requires
        a@.wf(),
    ensures
        a@.transposed().transposed() == a@,
{
    let t = a@.transposed();
    let tt = t.transposed();
    assert forall|x: int, y: int| tt.in_bounds(x, y) implies #[trigger] tt.at(x, y) == a@.at(x, y) by {
        lemma_offset(x, y, tt.width as int, tt.height as int);
        lemma_offset(y, x, t.width as int, t.height as int);
    }
    lemma_ext(tt, a@);
}

proof fn lemma_diagonal_sum_transposed<K: Field>(m: MatrixModel<K>, n: nat)
    requires
        m.wf(),
        m.is_square(),
        n <= m.width,
    ensures
        m.transposed().diagonal_sum(n) == m.diagonal_sum(n),
    decreases n,
{
    if n > 0 {
        lemma_diagonal_sum_transposed(m, (n - 1) as nat);
        lemma_offset(n - 1, n - 1, m.width as int, m.height as int);
    }
}

/// A square matrix and its transpose have the same trace.
pub proof fn lemma_trace_transpose<K: Field>(a: Matrix<K>)
    requires
        a@.wf(),
        a@.is_square(),
    ensures
        a@.transposed().trace() == a@.trace(),
{
    lemma_diagonal_sum_transposed(a@, a@.width);
}

proof fn lemma_fma_sum_symmetric<K: FieldLaws>(u: Seq<K>, v: Seq<K>, n: nat)
    ensures
        fma_sum(u, v, n) == fma_sum(v, u, n),
    decreases n,
{
    if n > 0 {
        lemma_fma_sum_symmetric(u, v, (n - 1) as nat);
        K::lemma_mul_add_commutative(u[n - 1], v[n - 1], fma_sum(u, v, (n - 1) as nat));
    }
}

/// The dot product is symmetric.
pub proof fn lemma_dot_symmetric<K: FieldLaws>(u: Vector<K>, v: Vector<K>)
    requires
        u.wf(),
        v.wf(),
        u@.len() == v@.len(),
    ensures
        dot_spec(u@, v@) == dot_spec(v@, u@),
{
    lemma_fma_sum_symmetric(u@, v@, u@.len());
}

/// The Euclidean norm is never below zero.
pub proof fn lemma_norm_nonnegative<K: FieldLaws>(u: Vector<K>)
    requires
        u.wf(),
    ensures
        !norm_spec(u@).lt_spec(K::zero_spec()),
{
    K::lemma_sqrt_nonnegative(fma_sum(u@, u@, u@.len()));
}

/// Sum of the exact absolute values of `u[0..n]`.
pub open spec fn exact_abs_total(u: Seq<i64>, n: nat) -> int
    decreases n,
{
    if n == 0 {
        0
    } else {
        exact_abs_total(u, (n - 1) as nat) + if u[n - 1] < 0 {
            -u[n - 1]
        } else {
            u[n - 1] as int
        }
    }
}

proof fn lemma_abs_max_le_abs_sum(u: Seq<i64>, n: nat)
    requires
        n <= u.len(),
        forall|i: int| 0 <= i < u.len() ==> u[i] != i64::MIN,
        exact_abs_total(u, u.len()) <= i64::MAX,
    ensures
        abs_sum(u, n) == exact_abs_total(u, n),
        0 <= abs_max(u, n) <= abs_sum(u, n),
        exact_abs_total(u, n) <= exact_abs_total(u, u.len()),
    decreases n,
{
    if n > 0 {
        lemma_abs_max_le_abs_sum(u, (n - 1) as nat);
    } else {
        lemma_abs_total_monotone(u, u.len());
    }
    lemma_abs_total_monotone(u, u.len());
}

proof fn lemma_abs_total_monotone(u: Seq<i64>, m: nat)
    requires
        m <= u.len(),
    ensures
        forall|n: nat| n <= m ==> #[trigger] exact_abs_total(u, n) <= exact_abs_total(u, m),
        forall|n: nat| n <= m ==> 0 <= #[trigger] exact_abs_total(u, n),
    decreases m,
{
    if m > 0 {
        lemma_abs_total_monotone(u, (m - 1) as nat);
        assert(0 <= exact_abs_total(u, (m - 1) as nat));
        assert(exact_abs_total(u, (m - 1) as nat) <= exact_abs_total(u, m));
    }
}

/// For integer vectors whose absolute values add up without overflow (and
/// hold no `i64::MIN`), the largest absolute value is at most their sum.
pub proof fn lemma_norm_inf_le_norm_1(u: Vector<i64>)
    requires
        u.wf(),
        forall|i: int| 0 <= i < u@.len() ==> u@[i] != i64::MIN,
        exact_abs_total(u@, u@.len()) <= i64::MAX,
    ensures
        norm_inf_spec(u@) <= norm_1_spec(u@),
{
    lemma_abs_max_le_abs_sum(u@, u@.len());
}

/// Interpolation at zero gives the start and at one the end.
pub proof fn lemma_lerp_ends<K: FieldLaws>(u: K, v: K)
    ensures
        lerp_spec(u, v, K::zero_spec()) == u,
        lerp_spec(u, v, K::one_spec()) == v,
{
    K::lemma_zero_identities(v.sub_spec(u));
    K::lemma_zero_identities(u);
    K::lemma_one_identities(v.sub_spec(u));
    K::lemma_sub_add_cancel(v, u);
}

/// Entry-wise interpolation of vectors at zero gives the start and at one the end.
pub proof fn lemma_lerp_vector_ends<K: FieldLaws>(u: Vector<K>, v: Vector<K>)
    requires
        u.wf(),
        v.wf(),
        u@.len() == v@.len(),
    ensures
        Seq::new(u@.len(), |i: int| lerp_spec(u@[i], v@[i], K::zero_spec())) == u@,
        Seq::new(u@.len(), |i: int| lerp_spec(u@[i], v@[i], K::one_spec())) == v@,
{
    assert forall|i: int| 0 <= i < u@.len() implies lerp_spec(u@[i], v@[i], K::zero_spec()) == u@[i]
        && lerp_spec(u@[i], v@[i], K::one_spec()) == v@[i] by {
        lemma_lerp_ends(u@[i], v@[i]);
    }
    assert(Seq::new(u@.len(), |i: int| lerp_spec(u@[i], v@[i], K::zero_spec())) =~= u@);
    assert(Seq::new(u@.len(), |i: int| lerp_spec(u@[i], v@[i], K::one_spec())) =~= v@);
}

/// Entry-wise interpolation of matrices at zero gives the start and at one the end.
pub proof fn lemma_lerp_matrix_ends<K: FieldLaws>(u: Matrix<K>, v: Matrix<K>)
    requires
        u@.wf(),
        v@.wf(),
        u@.width == v@.width,
        u@.height == v@.height,
    ensures
        (MatrixModel {
            entries: Seq::new(u@.entries.len(), |i: int| lerp_spec(u@.entries[i], v@.entries[i], K::zero_spec())),
            ..u@
        }) == u@,
        (MatrixModel {
            entries: Seq::new(u@.entries.len(), |i: int| lerp_spec(u@.entries[i], v@.entries[i], K::one_spec())),
            ..u@
        }) == v@,
{
    assert forall|i: int| 0 <= i < u@.entries.len() implies lerp_spec(u@.entries[i], v@.entries[i], K::zero_spec())
        == u@.entries[i] && lerp_spec(u@.entries[i], v@.entries[i], K::one_spec()) == v@.entries[i] by {
        lemma_lerp_ends(u@.entries[i], v@.entries[i]);
    }
    assert(Seq::new(u@.entries.len(), |i: int| lerp_spec(u@.entries[i], v@.entries[i], K::zero_spec())) =~= u@.entries);
    assert(Seq::new(u@.entries.len(), |i: int| lerp_spec(u@.entries[i], v@.entries[i], K::one_spec())) =~= v@.entries);
}

/// Reducing to row-echelon form twice gives what reducing once gives.
pub proof fn lemma_row_echelon_idempotent<K: FieldLaws>(m: Matrix<K>)
    requires
        m@.wf(),
    ensures
        row_echelon_spec(row_echelon_spec(m@)) == row_echelon_spec(m@),
{
    lemma_row_echelon_reduced(m@);
    lemma_row_echelon_fixed(row_echelon_spec(m@));
}

proof fn lemma_triangulate_identity<K: FieldLaws>(n: nat, k: nat)
    requires
        k <= n,
    ensures
        triangulate_upto(identity_model::<K>(n), k) == identity_model::<K>(n),
    decreases k,
{
    let id = identity_model::<K>(n);
    if k > 0 {
        lemma_triangulate_identity::<K>(n, (k - 1) as nat);
        let x = k - 1;
        K::lemma_one_nonzero();
        lemma_offset(x, x, n as int, n as int);
        assert(pivot_row(id, x, x) == Some(x));
        lemma_clear_rows_at(id, x, x, x + 1, n as int);
        lemma_clear_rows_shape(id, x, x, x + 1, n as int);
        let c = clear_rows(id, x, x, x + 1, n as int);
        assert forall|a: int, b: int| id.in_bounds(a, b) implies #[trigger] c.at(a, b) == id.at(a, b) by {
            assert(c.at(a, b) == cleared_entry(id, x, x, x + 1, n as int, a, b));
            lemma_offset(x, b, n as int, n as int);
        }
        lemma_ext(c, id);
    }
}

proof fn lemma_diagonal_product_identity<K: FieldLaws>(n: nat, k: nat)
    requires
        k <= n,
    ensures
        diagonal_product(identity_model::<K>(n), k) == K::one_spec(),
    decreases k,
{
    if k > 0 {
        lemma_diagonal_product_identity::<K>(n, (k - 1) as nat);
        lemma_offset(k - 1, k - 1, n as int, n as int);
        K::lemma_one_identities(K::one_spec());
    }
}

/// The determinant of an identity matrix of size at most four is one.
pub proof fn lemma_determinant_identity<K: FieldLaws>(n: nat)
    requires
        n <= 4,
    ensures
        determinant_spec(identity_model::<K>(n)) == K::one_spec(),
{
    let id = identity_model::<K>(n);
    if n == 1 {
        lemma_offset(0, 0, 1, 1);
    } else if n == 2 {
        lemma_offset(0, 0, 2, 2);
        lemma_offset(0, 1, 2, 2);
        lemma_offset(1, 0, 2, 2);
        lemma_offset(1, 1, 2, 2);
        K::lemma_one_identities(K::one_spec());
        K::lemma_zero_identities(K::zero_spec());
        K::lemma_zero_identities(K::one_spec());
    } else {
        lemma_triangulate_identity::<K>(n, n);
        lemma_diagonal_product_identity::<K>(n, n);
    }
}

/// Row `z` of `m` holds only zeros.
pub open spec fn zero_row<K: Field>(m: MatrixModel<K>, z: int) -> bool {
    &&& 0 <= z < m.height
    &&& forall|c: int| 0 <= c < m.width ==> #[trigger] m.at(c, z) == K::zero_spec()
}

/// A zero row survives each column of the triangulation, maybe moved.
proof fn lemma_triangulate_zero_row<K: FieldLaws>(m: MatrixModel<K>, k: nat, z: int) -> (zr: int)
    requires
        m.wf(),
        m.is_square(),
        k <= m.width,
        zero_row(m, z),
    ensures
        triangulate_upto(m, k).wf(),
        triangulate_upto(m, k).width == m.width,
        triangulate_upto(m, k).height == m.height,
        zero_row(triangulate_upto(m, k), zr),
    decreases k,
{
    if k == 0 {
        z
    } else {
        let z0 = lemma_triangulate_zero_row(m, (k - 1) as nat, z);
        let t = triangulate_upto(m, (k - 1) as nat);
        let x = k - 1;
        let n = t.height as int;
        lemma_pivot_row(t, x, x);
        match pivot_row(t, x, x) {
            None => z0,
            Some(p) => {
                assert(p != z0);
                let sw = swap_rows(t, p, x);
                lemma_with_row(t, p, t.row(x));
                lemma_with_row(with_row(t, p, t.row(x)), x, t.row(p));
                let ng = negate_row(sw, p);
                lemma_with_row(sw, p, Seq::new(sw.width, |c: int| K::zero_spec().sub_spec(sw.at(c, p))));
                K::lemma_zero_identities(K::zero_spec());
                let s = if p != x { ng } else { t };
                let z1 = if p != x && z0 == x { p } else { z0 };
                assert(zero_row(s, z1));
                assert(s.at(x, x) != K::zero_spec());
                assert(z1 != x);
                lemma_clear_rows_at(s, x, x, x + 1, n);
                lemma_clear_rows_shape(s, x, x, x + 1, n);
                let c = clear_rows(s, x, x, x + 1, n);
                assert forall|col: int| 0 <= col < c.width implies #[trigger] c.at(col, z1) == K::zero_spec() by {
                    assert(c.at(col, z1) == cleared_entry(s, x, x, x + 1, n, col, z1));
                }
                z1
            },
        }
    }
}

proof fn lemma_diagonal_product_zero<K: FieldLaws>(m: MatrixModel<K>, k: nat, z: int)
    requires
        0 <= z < k,
        m.at(z, z) == K::zero_spec(),
    ensures
        diagonal_product(m, k) == K::zero_spec(),
    decreases k,
{
    if k - 1 == z {
        K::lemma_zero_identities(diagonal_product(m, (k - 1) as nat));
    } else {
        lemma_diagonal_product_zero(m, (k - 1) as nat, z);
        K::lemma_zero_identities(m.at(k - 1, k - 1));
    }
}

/// A square matrix with a row of zeros has determinant zero.
pub proof fn lemma_determinant_zero_row<K: FieldLaws>(m: Matrix<K>, z: int)
    requires
        m@.wf(),
        m@.is_square(),
        zero_row(m@, z),
    ensures
        determinant_spec(m@) == K::zero_spec(),
{
    let n = m@.width;
    if n == 1 {
        assert(m@.at(0, 0) == K::zero_spec());
    } else if n == 2 {
        if z == 0 {
            assert(m@.at(0, 0) == K::zero_spec());
            assert(m@.at(1, 0) == K::zero_spec());
            K::lemma_zero_identities(m@.at(1, 1));
            K::lemma_zero_identities(m@.at(0, 1));
        } else {
            assert(m@.at(1, 1) == K::zero_spec());
            assert(m@.at(0, 1) == K::zero_spec());
            K::lemma_zero_identities(m@.at(0, 0));
            K::lemma_zero_identities(m@.at(1, 0));
        }
        K::lemma_zero_identities(K::zero_spec());
    } else if n <= 4 {
        let zr = lemma_triangulate_zero_row(m@, n, z);
        let t = triangulate_upto(m@, n);
        assert(t.at(zr, zr) == K::zero_spec());
        lemma_diagonal_product_zero(t, n, zr);
    }
}

} // verus!
