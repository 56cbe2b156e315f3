//! Row-echelon reduction (Gauss-Jordan elimination with first-non-zero
//! pivoting) and the size-dependent determinant.

use vstd::prelude::*;
use crate::matrix::{Matrix, MatrixModel, tabulate, lemma_offset, lemma_ext};
use crate::error::LinalgError;
use crate::scalar::{Field, FieldLaws};

verus! {

/// `m` with row `y` replaced by `row`.
pub open spec fn with_row<K>(m: MatrixModel<K>, y: int, row: Seq<K>) -> MatrixModel<K> {
    tabulate(m.width, m.height, |c: int, r: int| if r == y { row[c] } else { m.at(c, r) })
}

pub open spec fn swap_rows<K>(m: MatrixModel<K>, a: int, b: int) -> MatrixModel<K> {
    with_row(with_row(m, a, m.row(b)), b, m.row(a))
}

/// Row `y` divided entry-wise by `p`.
pub open spec fn divide_row<K: Field>(m: MatrixModel<K>, y: int, p: K) -> MatrixModel<K> {
    with_row(m, y, Seq::new(m.width, |c: int| m.at(c, y).div_spec(p)))
}

/// Row `y` negated entry-wise (`zero - e`).
pub open spec fn negate_row<K: Field>(m: MatrixModel<K>, y: int) -> MatrixModel<K> {
    with_row(m, y, Seq::new(m.width, |c: int| K::zero_spec().sub_spec(m.at(c, y))))
}

/// `f` times row `y` subtracted from row `r`.
pub open spec fn subtract_row<K: Field>(m: MatrixModel<K>, r: int, y: int, f: K) -> MatrixModel<K> {
    with_row(m, r, Seq::new(m.width, |c: int| m.at(c, r).sub_spec(f.mul_spec(m.at(c, y)))))
}

/// First row `r >= from` whose entry in column `x` is not zero.
pub open spec fn pivot_row<K: Field>(m: MatrixModel<K>, x: int, from: int) -> Option<int>
    decreases m.height - from,
{
    if from < 0 || from >= m.height {
        None
    } else if m.at(x, from) != K::zero_spec() {
        Some(from)
    } else {
        pivot_row(m, x, from + 1)
    }
}

/// Rows `from..to`, other than the pivot row `y`, with a non-zero entry in
/// column `x` have `(m[x, r] / m[x, y])` times row `y` subtracted, top to bottom.
pub open spec fn clear_rows<K: Field>(m: MatrixModel<K>, x: int, y: int, from: int, to: int) -> MatrixModel<K>
    decreases to - from,
{
    if to <= from {
        m
    } else {
        let n = clear_rows(m, x, y, from, to - 1);
        let r = to - 1;
        if r != y && n.at(x, r) != K::zero_spec() {
            subtract_row(n, r, y, n.at(x, r).div_spec(n.at(x, y)))
        } else {
            n
        }
    }
}

/// One column of the reduction: the matrix and the next free pivot row
/// after column `x` is handled with `y` as the next free pivot row.
pub open spec fn echelon_step<K: Field>(m: MatrixModel<K>, x: int, y: int) -> (MatrixModel<K>, int) {
    match pivot_row(m, x, y) {
        None => (m, y),
        Some(p) => {
            let s = if p != y { swap_rows(m, p, y) } else { m };
            let n = divide_row(s, y, s.at(x, y));
            if n.at(x, y) != K::zero_spec() {
                (clear_rows(n, x, y, 0, n.height as int), y + 1)
            } else {
                (n, y + 1)
            }
        },
    }
}

/// The reduction after the first `k` columns.
pub open spec fn echelon_upto<K: Field>(m: MatrixModel<K>, k: nat) -> (MatrixModel<K>, int)
    decreases k,
{
    if k == 0 {
        (m, 0)
    } else {
        let (n, y) = echelon_upto(m, (k - 1) as nat);
        echelon_step(n, k - 1, y)
    }
}

/// Reduced row-echelon form of `m`.
pub open spec fn row_echelon_spec<K: Field>(m: MatrixModel<K>) -> MatrixModel<K> {
    echelon_upto(m, m.width).0
}

/// One column of the triangulation used by the determinant: the first row at
/// or below the diagonal with a non-zero entry in column `x` is swapped onto the
/// diagonal (the row it displaces is negated), and column `x` is cleared below.
pub open spec fn triangulate_step<K: Field>(m: MatrixModel<K>, x: int) -> MatrixModel<K> {
    match pivot_row(m, x, x) {
        None => m,
        Some(p) => {
            let s = if p != x { negate_row(swap_rows(m, p, x), p) } else { m };
            clear_rows(s, x, x, x + 1, s.height as int)
        },
    }
}

/// The triangulation after the first `k` columns.
pub open spec fn triangulate_upto<K: Field>(m: MatrixModel<K>, k: nat) -> MatrixModel<K>
    decreases k,
{
    if k == 0 {
        m
    } else {
        triangulate_step(triangulate_upto(m, (k - 1) as nat), k - 1)
    }
}

/// Product of the first `n` diagonal entries, from the top left, starting at one.
pub open spec fn diagonal_product<K: Field>(m: MatrixModel<K>, n: nat) -> K
    decreases n,
{
    if n == 0 {
        K::one_spec()
    } else {
        diagonal_product(m, (n - 1) as nat).mul_spec(m.at(n - 1, n - 1))
    }
}

/// Determinant of a square matrix of size `n`: the entry itself for `n == 1`,
/// `ad - bc` for `n == 2`, the product of the diagonal after triangulation for
/// `n <= 4` (one for the empty matrix), and zero above four.
pub open spec fn determinant_spec<K: Field>(m: MatrixModel<K>) -> K {
    let n = m.width;
    if n == 1 {
        m.at(0, 0)
    } else if n == 2 {
        m.at(0, 0).mul_spec(m.at(1, 1)).sub_spec(m.at(1, 0).mul_spec(m.at(0, 1)))
    } else if n <= 4 {
        diagonal_product(triangulate_upto(m, n), n)
    } else {
        K::zero_spec()
    }
}

/// Column `x` holds only zeros from row `y` down.
pub open spec fn free_column<K: Field>(m: MatrixModel<K>, x: int, y: int) -> bool {
    forall|r: int| y <= r < m.height ==> #[trigger] m.at(x, r) == K::zero_spec()
}

/// Column `x` holds a one in row `y` and zeros everywhere else.
pub open spec fn pivot_column<K: Field>(m: MatrixModel<K>, x: int, y: int) -> bool {
    &&& 0 <= y < m.height
    &&& m.at(x, y) == K::one_spec()
    &&& forall|r: int| 0 <= r < m.height && r != y ==> #[trigger] m.at(x, r) == K::zero_spec()
}

/// Number of pivot rows when the first `k` columns are in reduced
/// row-echelon form: each column, left to right, is either zero from the next
/// free pivot row down, or a pivot column at that row. `None` otherwise.
pub open spec fn reduced_count<K: Field>(m: MatrixModel<K>, k: nat) -> Option<int>
    decreases k,
{
    if k == 0 {
        Some(0)
    } else {
        match reduced_count(m, (k - 1) as nat) {
            None => None,
            Some(y) => if free_column(m, k - 1, y) {
                Some(y)
            } else if pivot_column(m, k - 1, y) {
                Some(y + 1)
            } else {
                None
            },
        }
    }
}

/// `m` is in reduced row-echelon form.
pub open spec fn is_row_echelon<K: Field>(m: MatrixModel<K>) -> bool {
    reduced_count(m, m.width) is Some
}

/// Entry `(c, r)` after `clear_rows(n, x, y, from, to)`, in terms of `n` alone.
pub open spec fn cleared_entry<K: Field>(n: MatrixModel<K>, x: int, y: int, from: int, to: int, c: int, r: int) -> K {
    if from <= r < to && r != y && n.at(x, r) != K::zero_spec() {
        n.at(c, r).sub_spec(n.at(x, r).div_spec(n.at(x, y)).mul_spec(n.at(c, y)))
    } else {
        n.at(c, r)
    }
}

/// `with_row` keeps the shape and changes row `y` alone.
pub proof fn lemma_with_row<K>(m: MatrixModel<K>, y: int, row: Seq<K>)
    ensures
        with_row(m, y, row).wf(),
        with_row(m, y, row).width == m.width,
        with_row(m, y, row).height == m.height,
        forall|c: int, r: int|
            m.in_bounds(c, r) ==> #[trigger] with_row(m, y, row).at(c, r) == (if r == y {
                row[c]
            } else {
                m.at(c, r)
            }),
{
    assert forall|c: int, r: int| m.in_bounds(c, r) implies #[trigger] with_row(m, y, row).at(c, r) == (if r == y {
        row[c]
    } else {
        m.at(c, r)
    }) by {
        lemma_offset(c, r, m.width as int, m.height as int);
    }
}

pub proof fn lemma_pivot_row<K: Field>(m: MatrixModel<K>, x: int, from: int)
    ensures
        pivot_row(m, x, from) matches Some(p) ==> from <= p < m.height && m.at(x, p) != K::zero_spec(),
    decreases m.height - from,
{
    if 0 <= from < m.height && m.at(x, from) == K::zero_spec() {
        lemma_pivot_row(m, x, from + 1);
    }
}

/// `clear_rows` keeps the shape and the pivot row.
pub proof fn lemma_clear_rows_shape<K: Field>(m: MatrixModel<K>, x: int, y: int, from: int, to: int)
    requires
        m.wf(),
        0 <= y < m.height,
    ensures
        clear_rows(m, x, y, from, to).wf(),
        clear_rows(m, x, y, from, to).width == m.width,
        clear_rows(m, x, y, from, to).height == m.height,
        forall|c: int| 0 <= c < m.width ==> #[trigger] clear_rows(m, x, y, from, to).at(c, y) == m.at(c, y),
    decreases to - from,
{
    if to > from {
        lemma_clear_rows_shape(m, x, y, from, to - 1);
        let n = clear_rows(m, x, y, from, to - 1);
        let r = to - 1;
        if r != y && n.at(x, r) != K::zero_spec() {
            lemma_with_row(n, r, Seq::new(n.width, |c: int| n.at(c, r).sub_spec(n.at(x, r).div_spec(n.at(x, y)).mul_spec(n.at(c, y)))));
        }
    }
}

pub proof fn lemma_clear_rows_at<K: Field>(n: MatrixModel<K>, x: int, y: int, from: int, to: int)
    requires
        n.wf(),
        0 <= x < n.width,
        0 <= y < n.height,
        0 <= from,
        to <= n.height,
    ensures
        forall|c: int, r: int|
            n.in_bounds(c, r) ==> #[trigger] clear_rows(n, x, y, from, to).at(c, r) == cleared_entry(
                n,
                x,
                y,
                from,
                to,
                c,
                r,
            ),
    decreases to - from,
{
    if to > from {
        lemma_clear_rows_at(n, x, y, from, to - 1);
        lemma_clear_rows_shape(n, x, y, from, to - 1);
        let m = clear_rows(n, x, y, from, to - 1);
        let r0 = to - 1;
        assert(m.at(x, r0) == n.at(x, r0));
        assert(m.at(x, y) == n.at(x, y));
        if r0 != y && m.at(x, r0) != K::zero_spec() {
            lemma_with_row(m, r0, Seq::new(m.width, |c: int| m.at(c, r0).sub_spec(m.at(x, r0).div_spec(m.at(x, y)).mul_spec(m.at(c, y)))));
        }
    }
}

proof fn lemma_pivot_none<K: Field>(m: MatrixModel<K>, x: int, from: int)
    requires
        0 <= from,
    ensures
        pivot_row(m, x, from) is None <==> free_column(m, x, from),
    decreases m.height - from,
{
    if from < m.height {
        lemma_pivot_none(m, x, from + 1);
        if m.at(x, from) == K::zero_spec() {
            assert(free_column(m, x, from + 1) ==> free_column(m, x, from)) by {
                if free_column(m, x, from + 1) {
                    assert forall|r: int| from <= r < m.height implies #[trigger] m.at(x, r) == K::zero_spec() by {
                        if r > from {
                            assert(m.at(x, r) == K::zero_spec());
                        }
                    }
                }
            }
        }
    }
}

proof fn lemma_reduced_zeros<K: Field>(m: MatrixModel<K>, k: nat)
    requires
        m.wf(),
        k <= m.width,
        reduced_count(m, k) is Some,
    ensures
        0 <= reduced_count(m, k)->0 <= m.height,
        reduced_count(m, k)->0 <= k,
        forall|c: int, r: int|
            0 <= c < k && reduced_count(m, k)->0 <= r < m.height ==> #[trigger] m.at(c, r) == K::zero_spec(),
    decreases k,
{
    if k > 0 {
        lemma_reduced_zeros(m, (k - 1) as nat);
    }
}

proof fn lemma_reduced_prefix<K: Field>(m: MatrixModel<K>, n: MatrixModel<K>, k: nat)
    requires
        m.width == n.width,
        m.height == n.height,
        k <= m.width,
        forall|c: int, r: int| 0 <= c < k && 0 <= r < m.height ==> #[trigger] m.at(c, r) == n.at(c, r),
    ensures
        reduced_count(m, k) == reduced_count(n, k),
        reduced_count(m, k) matches Some(y) ==> 0 <= y,
    decreases k,
{
    if k > 0 {
        lemma_reduced_prefix(m, n, (k - 1) as nat);
        let x = k - 1;
        if let Some(y) = reduced_count(m, (k - 1) as nat) {
            assert(free_column(m, x, y) == free_column(n, x, y)) by {
                if free_column(m, x, y) {
                    assert forall|r: int| y <= r < n.height implies #[trigger] n.at(x, r) == K::zero_spec() by {
                        assert(m.at(x, r) == n.at(x, r));
                    }
                }
                if free_column(n, x, y) {
                    assert forall|r: int| y <= r < m.height implies #[trigger] m.at(x, r) == K::zero_spec() by {
                        assert(m.at(x, r) == n.at(x, r));
                    }
                }
            }
            assert(pivot_column(m, x, y) == pivot_column(n, x, y)) by {
                if 0 <= y < m.height {
                    assert(m.at(x, y) == n.at(x, y));
                }
                if pivot_column(m, x, y) {
                    assert forall|r: int| 0 <= r < n.height && r != y implies #[trigger] n.at(x, r) == K::zero_spec() by {
                        assert(m.at(x, r) == n.at(x, r));
                    }
                }
                if pivot_column(n, x, y) {
                    assert forall|r: int| 0 <= r < m.height && r != y implies #[trigger] m.at(x, r) == K::zero_spec() by {
                        assert(m.at(x, r) == n.at(x, r));
                    }
                }
            }
        }
    }
}

/// One column of the reduction extends the reduced prefix by that column.
proof fn lemma_step_reduced<K: FieldLaws>(m: MatrixModel<K>, k: nat, y: int)
    requires
        m.wf(),
        k < m.width,
        reduced_count(m, k) == Some(y),
    ensures
        echelon_step(m, k as int, y).0.wf(),
        echelon_step(m, k as int, y).0.width == m.width,
        echelon_step(m, k as int, y).0.height == m.height,
        reduced_count(echelon_step(m, k as int, y).0, k + 1) == Some(echelon_step(m, k as int, y).1),
{
    lemma_reduced_zeros(m, k);
    lemma_pivot_none(m, k as int, y);
    lemma_pivot_row(m, k as int, y);
    K::lemma_one_nonzero();
    match pivot_row(m, k as int, y) {
        None => {},
        Some(p) => {
            let x = k as int;
            let h = m.height as int;
            let s = if p != y { swap_rows(m, p, y) } else { m };
            lemma_with_row(m, p, m.row(y));
            lemma_with_row(with_row(m, p, m.row(y)), y, m.row(p));
            assert(s.wf() && s.width == m.width && s.height == m.height);
            assert forall|c: int, r: int| 0 <= c < x && 0 <= r < h implies #[trigger] s.at(c, r) == m.at(c, r) by {
            }
            let pv = s.at(x, y);
            assert(pv == m.at(x, p));
            let d = divide_row(s, y, pv);
            lemma_with_row(s, y, Seq::new(s.width, |c: int| s.at(c, y).div_spec(pv)));
            K::lemma_div_self(pv);
            K::lemma_zero_div(pv);
            assert forall|c: int, r: int| 0 <= c < x && 0 <= r < h implies #[trigger] d.at(c, r) == m.at(c, r) by {
            }
            assert(d.at(x, y) == K::one_spec());
            let n = clear_rows(d, x, y, 0, h);
            lemma_clear_rows_at(d, x, y, 0, h);
            lemma_clear_rows_shape(d, x, y, 0, h);
            assert forall|c: int, r: int| 0 <= c < x && 0 <= r < h implies #[trigger] n.at(c, r) == m.at(c, r) by {
                assert(n.at(c, r) == cleared_entry(d, x, y, 0, h, c, r));
                assert(d.at(c, y) == K::zero_spec());
                K::lemma_zero_identities(d.at(c, r));
                K::lemma_zero_identities(d.at(x, r).div_spec(d.at(x, y)));
            }
            assert forall|r: int| 0 <= r < h && r != y implies #[trigger] n.at(x, r) == K::zero_spec() by {
                assert(n.at(x, r) == cleared_entry(d, x, y, 0, h, x, r));
                K::lemma_one_identities(d.at(x, r));
                K::lemma_sub_self(d.at(x, r));
            }
            assert(n.at(x, y) == cleared_entry(d, x, y, 0, h, x, y));
            lemma_reduced_prefix(m, n, k);
            assert(pivot_column(n, x, y));
            assert(!free_column(n, x, y)) by {
                assert(n.at(x, y) == K::one_spec());
            }
        },
    }
}

proof fn lemma_echelon_upto_reduced<K: FieldLaws>(m: MatrixModel<K>, k: nat)
    requires
        m.wf(),
        k <= m.width,
    ensures
        echelon_upto(m, k).0.wf(),
        echelon_upto(m, k).0.width == m.width,
        echelon_upto(m, k).0.height == m.height,
        reduced_count(echelon_upto(m, k).0, k) == Some(echelon_upto(m, k).1),
    decreases k,
{
    if k > 0 {
        lemma_echelon_upto_reduced(m, (k - 1) as nat);
        let (n, y) = echelon_upto(m, (k - 1) as nat);
        lemma_step_reduced(n, (k - 1) as nat, y);
    }
}

/// A matrix whose first `k` columns are reduced is left as it is by the
/// reduction of those columns.
proof fn lemma_echelon_upto_fixed<K: FieldLaws>(m: MatrixModel<K>, k: nat)
    requires
        m.wf(),
        k <= m.width,
        reduced_count(m, k) is Some,
    ensures
        echelon_upto(m, k) == (m, reduced_count(m, k)->0),
    decreases k,
{
    if k > 0 {
        lemma_echelon_upto_fixed(m, (k - 1) as nat);
        let y = reduced_count(m, (k - 1) as nat)->0;
        let x = k - 1;
        let h = m.height as int;
        lemma_reduced_zeros(m, (k - 1) as nat);
        lemma_pivot_none(m, x, y);
        K::lemma_one_nonzero();
        if !free_column(m, x, y) {
            assert(pivot_column(m, x, y));
            assert(pivot_row(m, x, y) == Some(y));
            let d = divide_row(m, y, m.at(x, y));
            lemma_with_row(m, y, Seq::new(m.width, |c: int| m.at(c, y).div_spec(m.at(x, y))));
            assert forall|c: int, r: int| m.in_bounds(c, r) implies #[trigger] d.at(c, r) == m.at(c, r) by {
                K::lemma_one_identities(m.at(c, r));
            }
            lemma_ext(d, m);
            lemma_clear_rows_at(m, x, y, 0, h);
            lemma_clear_rows_shape(m, x, y, 0, h);
            let n = clear_rows(m, x, y, 0, h);
            assert forall|c: int, r: int| m.in_bounds(c, r) implies #[trigger] n.at(c, r) == m.at(c, r) by {
                assert(n.at(c, r) == cleared_entry(m, x, y, 0, h, c, r));
            }
            lemma_ext(n, m);
        }
    }
}

/// The output of the reduction is in reduced row-echelon form.
pub proof fn lemma_row_echelon_reduced<K: FieldLaws>(m: MatrixModel<K>)
    requires
        m.wf(),
    ensures
        row_echelon_spec(m).wf(),
        row_echelon_spec(m).width == m.width,
        row_echelon_spec(m).height == m.height,
        is_row_echelon(row_echelon_spec(m)),
{
    lemma_echelon_upto_reduced(m, m.width);
}

/// A matrix in reduced row-echelon form is its own reduction.
pub proof fn lemma_row_echelon_fixed<K: FieldLaws>(m: MatrixModel<K>)
    requires
        m.wf(),
        is_row_echelon(m),
    ensures
        row_echelon_spec(m) == m,
{
    lemma_echelon_upto_fixed(m, m.width);
}

fn read_row<K: Field>(m: &Matrix<K>, y: usize) -> (r: Vec<K>)
    requires
        m@.wf(),
        y < m@.height,
    ensures
        r@ == m@.row(y as int),
{
    let w = m.shape().0;
    let mut out: Vec<K> = Vec::new();
    let mut c: usize = 0;
    while c < w
        invariant
            m@.wf(),
            y < m@.height,
            w == m@.width,
            c <= w,
            out@.len() == c,
            forall|i: int| 0 <= i < c ==> #[trigger] out@[i] == m@.at(i, y as int),
        decreases w - c,
    {
        out.push(m.get(c, y));
        c = c + 1;
    }
    assert(out@ =~= m@.row(y as int));
    out
}

fn write_row<K: Field>(m: &mut Matrix<K>, y: usize, row: &Vec<K>)
    requires
        old(m)@.wf(),
        y < old(m)@.height,
        row@.len() == old(m)@.width,
    ensures
        final(m)@ == with_row(old(m)@, y as int, row@),
{
    let ghost orig = m@;
    let w = m.shape().0;
    let mut c: usize = 0;
    while c < w
        invariant
            orig.wf(),
            m@.wf(),
            m@.width == orig.width,
            m@.height == orig.height,
            y < orig.height,
            row@.len() == orig.width,
            w == orig.width,
            c <= w,
            forall|cc: int, r: int|
                orig.in_bounds(cc, r) ==> #[trigger] m@.at(cc, r) == (if r == y && cc < c {
                    row@[cc]
                } else {
                    orig.at(cc, r)
                }),
        decreases w - c,
    {
        let ghost before = m@;
        m.set(c, y, row[c]);
        proof {
            assert forall|cc: int, r: int| orig.in_bounds(cc, r) implies #[trigger] m@.at(cc, r) == (if r == y && cc < c + 1 {
                row@[cc]
            } else {
                orig.at(cc, r)
            }) by {
                crate::matrix::lemma_update_at(before, c as int, y as int, row@[c as int], cc, r);
            }
        }
        c = c + 1;
    }
    proof {
        lemma_with_row(orig, y as int, row@);
        lemma_ext(m@, with_row(orig, y as int, row@));
    }
}

fn swap_rows_in<K: Field>(m: &mut Matrix<K>, a: usize, b: usize)
    requires
        old(m)@.wf(),
        a < old(m)@.height,
        b < old(m)@.height,
    ensures
        final(m)@ == swap_rows(old(m)@, a as int, b as int),
{
    let ra = read_row(m, a);
    let rb = read_row(m, b);
    write_row(m, a, &rb);
    proof {
        lemma_with_row(old(m)@, a as int, rb@);
    }
    write_row(m, b, &ra);
}

fn divide_row_in<K: Field>(m: &mut Matrix<K>, y: usize, p: K)
    requires
        old(m)@.wf(),
        y < old(m)@.height,
        p != K::zero_spec(),
    ensures
        final(m)@ == divide_row(old(m)@, y as int, p),
{
    let row = read_row(m, y);
    let mut out: Vec<K> = Vec::new();
    let mut c: usize = 0;
    while c < row.len()
        invariant
            c <= row@.len(),
            out@.len() == c,
            p != K::zero_spec(),
            forall|i: int| 0 <= i < c ==> #[trigger] out@[i] == row@[i].div_spec(p),
        decreases row@.len() - c,
    {
        out.push(row[c].div(p));
        c = c + 1;
    }
    assert(out@ =~= Seq::new(m@.width, |c: int| m@.at(c, y as int).div_spec(p)));
    write_row(m, y, &out);
}

fn negate_row_in<K: Field>(m: &mut Matrix<K>, y: usize)
    requires
        old(m)@.wf(),
        y < old(m)@.height,
    ensures
        final(m)@ == negate_row(old(m)@, y as int),
{
    let row = read_row(m, y);
    let mut out: Vec<K> = Vec::new();
    let mut c: usize = 0;
    while c < row.len()
        invariant
            c <= row@.len(),
            out@.len() == c,
            forall|i: int| 0 <= i < c ==> #[trigger] out@[i] == K::zero_spec().sub_spec(row@[i]),
        decreases row@.len() - c,
    {
        out.push(K::zero().sub(row[c]));
        c = c + 1;
    }
    assert(out@ =~= Seq::new(m@.width, |c: int| K::zero_spec().sub_spec(m@.at(c, y as int))));
    write_row(m, y, &out);
}

fn subtract_row_in<K: Field>(m: &mut Matrix<K>, r: usize, y: usize, f: K)
    requires
        old(m)@.wf(),
        r < old(m)@.height,
        y < old(m)@.height,
    ensures
        final(m)@ == subtract_row(old(m)@, r as int, y as int, f),
{
    let row_r = read_row(m, r);
    let row_y = read_row(m, y);
    let mut out: Vec<K> = Vec::new();
    let mut c: usize = 0;
    while c < row_r.len()
        invariant
            c <= row_r@.len(),
            row_r@.len() == row_y@.len(),
            out@.len() == c,
            forall|i: int| 0 <= i < c ==> #[trigger] out@[i] == row_r@[i].sub_spec(f.mul_spec(row_y@[i])),
        decreases row_r@.len() - c,
    {
        out.push(row_r[c].sub(f.mul(row_y[c])));
        c = c + 1;
    }
    assert(out@ =~= Seq::new(m@.width, |c: int| m@.at(c, r as int).sub_spec(f.mul_spec(m@.at(c, y as int)))));
    write_row(m, r, &out);
}

fn find_pivot<K: Field>(m: &Matrix<K>, x: usize, from: usize) -> (r: Option<usize>)
    requires
        m@.wf(),
        x < m@.width,
    ensures
        pivot_row(m@, x as int, from as int) == (match r {
            Some(p) => Some(p as int),
            None => None::<int>,
        }),
{
    let h = m.shape().1;
    let mut r: usize = from;
    while r < h
        invariant
            m@.wf(),
            x < m@.width,
            h == m@.height,
            from <= r,
            pivot_row(m@, x as int, from as int) == pivot_row(m@, x as int, r as int),
        decreases h - r,
    {
        if !m.get(x, r).is_zero() {
            return Some(r);
        }
        r = r + 1;
    }
    None
}

/// Clears column `x` in rows `from..height` other than `y`, as `clear_rows` says.
fn clear_rows_in<K: Field>(m: &mut Matrix<K>, x: usize, y: usize, from: usize)
    requires
        old(m)@.wf(),
        x < old(m)@.width,
        y < old(m)@.height,
        old(m)@.at(x as int, y as int) != K::zero_spec(),
        from <= old(m)@.height,
    ensures
        final(m)@ == clear_rows(old(m)@, x as int, y as int, from as int, old(m)@.height as int),
{
    let ghost orig = m@;
    let h = m.shape().1;
    let mut r: usize = from;
    assert(clear_rows(orig, x as int, y as int, from as int, r as int) == orig);
    while r < h
        invariant
            orig.wf(),
            x < orig.width,
            y < orig.height,
            h == orig.height,
            orig.at(x as int, y as int) != K::zero_spec(),
            from <= r <= h,
            m@ == clear_rows(orig, x as int, y as int, from as int, r as int),
        decreases h - r,
    {
        proof {
            lemma_clear_rows_shape(orig, x as int, y as int, from as int, r as int);
        }
        if r != y {
            let e = m.get(x, r);
            if !e.is_zero() {
                let f = e.div(m.get(x, y));
                subtract_row_in(m, r, y, f);
            }
        }
        r = r + 1;
    }
}

impl<K: Field> Matrix<K> {
    /// Reduced row-echelon form by Gauss-Jordan elimination: column by column,
    /// the first row at or below the next free pivot row with a non-zero entry
    /// is swapped up, divided by its pivot, and subtracted from every other row.
    pub fn row_echelon(&self) -> (r: Self)
        requires
            self@.wf(),
        ensures
            r@.wf(),
            r@ == row_echelon_spec(self@),
    {
        let (w, h) = self.shape();
        let mut cur = self.copy();
        let mut y: usize = 0;
        let mut x: usize = 0;
        while x < w
            invariant
                self@.wf(),
                cur@.wf(),
                w == self@.width,
                w == cur@.width,
                h == cur@.height,
                x <= w,
                y <= h,
                echelon_upto(self@, x as nat) == (cur@, y as int),
            decreases w - x,
        {
            let ghost before = cur@;
            match find_pivot(&cur, x, y) {
                None => {},
                Some(p) => {
                    proof {
                        lemma_pivot_row(cur@, x as int, y as int);
                    }
                    if p != y {
                        swap_rows_in(&mut cur, p, y);
                        proof {
                            lemma_with_row(before, p as int, before.row(y as int));
                            lemma_with_row(with_row(before, p as int, before.row(y as int)), y as int, before.row(p as int));
                        }
                    }
                    let pv = cur.get(x, y);
                    divide_row_in(&mut cur, y, pv);
                    proof {
                        let s = if p != y { swap_rows(before, p as int, y as int) } else { before };
                        lemma_with_row(s, y as int, Seq::new(s.width, |c: int| s.at(c, y as int).div_spec(pv)));
                    }
                    if !cur.get(x, y).is_zero() {
                        clear_rows_in(&mut cur, x, y, 0);
                        proof {
                            let n = divide_row(if p != y { swap_rows(before, p as int, y as int) } else { before }, y as int, pv);
                            lemma_clear_rows_shape(n, x as int, y as int, 0, h as int);
                        }
                    }
                    y = y + 1;
                },
            }
            x = x + 1;
        }
        cur
    }

    /// Determinant of a square matrix; see `determinant_spec` for the size
    /// cases, including the value zero above size four.
    pub fn determinant(&self) -> (r: K)
        requires
            self@.wf(),
            self@.is_square(),
        ensures
            r == determinant_spec(self@),
    {
        let n = self.shape().0;
        if n == 1 {
            return self.get(0, 0);
        }
        if n == 2 {
            return self.get(0, 0).mul(self.get(1, 1)).sub(self.get(1, 0).mul(self.get(0, 1)));
        }
        if n > 4 {
            return K::zero();
        }
        let mut cur = self.copy();
        let mut x: usize = 0;
        while x < n
            invariant
                self@.wf(),
                self@.is_square(),
                cur@.wf(),
                n == self@.width,
                n == cur@.width,
                n == cur@.height,
                x <= n,
                cur@ == triangulate_upto(self@, x as nat),
            decreases n - x,
        {
            let ghost before = cur@;
            match find_pivot(&cur, x, x) {
                None => {},
                Some(p) => {
                    proof {
                        lemma_pivot_row(before, x as int, x as int);
                    }
                    if p != x {
                        swap_rows_in(&mut cur, p, x);
                        proof {
                            lemma_with_row(before, p as int, before.row(x as int));
                            lemma_with_row(with_row(before, p as int, before.row(x as int)), x as int, before.row(p as int));
                        }
                        let ghost swapped = cur@;
                        negate_row_in(&mut cur, p);
                        proof {
                            lemma_with_row(swapped, p as int, Seq::new(swapped.width, |c: int| K::zero_spec().sub_spec(swapped.at(c, p as int))));
                        }
                    }
                    clear_rows_in(&mut cur, x, x, x + 1);
                    proof {
                        let s = if p != x { negate_row(swap_rows(before, p as int, x as int), p as int) } else { before };
                        lemma_clear_rows_shape(s, x as int, x as int, x + 1, n as int);
                    }
                },
            }
            x = x + 1;
        }
        let mut acc = K::one();
        let mut i: usize = 0;
        while i < n
            invariant
                cur@.wf(),
                n == cur@.width,
                n == cur@.height,
                i <= n,
                acc == diagonal_product(cur@, i as nat),
            decreases n - i,
        {
            acc = acc.mul(cur.get(i, i));
            i = i + 1;
        }
        acc
    }

    /// `determinant`, or `NotSquare`.
    pub fn try_determinant(&self) -> (r: Result<K, LinalgError>)
        requires
            self@.wf(),
        ensures
            self@.is_square() ==> r == Ok::<K, LinalgError>(determinant_spec(self@)),
            !self@.is_square() ==> r == Err::<K, LinalgError>(LinalgError::NotSquare),
    {
        if self.is_square() {
            Ok(self.determinant())
        } else {
            Err(LinalgError::NotSquare)
        }
    }
}

} // verus!
