//! Linear combination and linear interpolation.

use vstd::prelude::*;
use crate::matrix::{Matrix, MatrixModel, fma_sum};
use crate::error::LinalgError;
use crate::scalar::Field;
use crate::vector::Vector;

verus! {

/// Entry `i` of every vector, in order.
pub open spec fn entries_at<K: Field>(vectors: Seq<Vector<K>>, i: int) -> Seq<K> {
    Seq::new(vectors.len(), |k: int| vectors[k]@[i])
}

/// `coeffs[0] * vectors[0] + ... `: entry `i` accumulates the vectors' entries
/// `i` against the coefficients by fused multiply-add, vector by vector.
pub open spec fn linear_combination_spec<K: Field>(vectors: Seq<Vector<K>>, coeffs: Seq<K>, size: nat) -> Seq<K> {
    Seq::new(size, |i: int| fma_sum(entries_at(vectors, i), coeffs, vectors.len()))
}

/// `Σ coeffs[k] * vectors[k]`. There must be at least one vector, as many
/// coefficients as vectors, and every vector of one size.
pub fn linear_combination<K: Field>(vectors: &[Vector<K>], coeffs: &[K]) -> (r: Vector<K>)
    requires
        vectors@.len() > 0,
        vectors@.len() == coeffs@.len(),
        forall|k: int| 0 <= k < vectors@.len() ==> #[trigger] vectors@[k].wf(),
        forall|k: int| 0 <= k < vectors@.len() ==> #[trigger] vectors@[k]@.len() == vectors@[0]@.len(),
    ensures
        r.wf(),
        r@ == linear_combination_spec(vectors@, coeffs@, vectors@[0]@.len()),
{
    let m = vectors.len();
    let n = vectors[0].size();
    let mut result: Vector<K> = Vector::from_elem(K::zero(), n);
    let mut k: usize = 0;
    while k < m
        invariant
            m == vectors@.len(),
            m == coeffs@.len(),
            n == vectors@[0]@.len(),
            forall|k: int| 0 <= k < vectors@.len() ==> #[trigger] vectors@[k].wf(),
            forall|k: int| 0 <= k < vectors@.len() ==> #[trigger] vectors@[k]@.len() == vectors@[0]@.len(),
            k <= m,
            result.wf(),
            result@.len() == n,
            forall|i: int| 0 <= i < n ==> #[trigger] result@[i] == fma_sum(entries_at(vectors@, i), coeffs@, k as nat),
        decreases m - k,
    {
        let vector = &vectors[k];
        let coeff = coeffs[k];
        let mut i: usize = 0;
        while i < n
            invariant
                m == vectors@.len(),
                m == coeffs@.len(),
                n == vectors@[0]@.len(),
                k < m,
                *vector == vectors@[k as int],
                coeff == coeffs@[k as int],
                vector.wf(),
                vector@.len() == n,
                i <= n,
                result.wf(),
                result@.len() == n,
                forall|j: int| 0 <= j < i ==> #[trigger] result@[j] == fma_sum(entries_at(vectors@, j), coeffs@, (k + 1) as nat),
                forall|j: int| i <= j < n ==> #[trigger] result@[j] == fma_sum(entries_at(vectors@, j), coeffs@, k as nat),
            decreases n - i,
        {
            let cur = result.get(i);
            result.set(i, vector.get(i).mul_add(coeff, cur));
            proof {
                assert(entries_at(vectors@, i as int)[k as int] == vector@[i as int]);
            }
            i = i + 1;
        }
        k = k + 1;
    }
    assert(result@ =~= linear_combination_spec(vectors@, coeffs@, vectors@[0]@.len()));
    result
}

/// `linear_combination`, or an error: `EmptyOrMismatchedInput` when there
/// are no vectors or not as many coefficients as vectors, else
/// `ShapeMismatch` when the vectors' sizes differ.
pub fn try_linear_combination<K: Field>(vectors: &[Vector<K>], coeffs: &[K]) -> (r: Result<Vector<K>, LinalgError>)
    requires
        forall|k: int| 0 <= k < vectors@.len() ==> #[trigger] vectors@[k].wf(),
    ensures
        (vectors@.len() == 0 || vectors@.len() != coeffs@.len()) ==> r == Err::<Vector<K>, LinalgError>(
            LinalgError::EmptyOrMismatchedInput,
        ),
        (vectors@.len() > 0 && vectors@.len() == coeffs@.len()) ==> {
            let same = forall|k: int| 0 <= k < vectors@.len() ==> #[trigger] vectors@[k]@.len() == vectors@[0]@.len();
            &&& same <==> r is Ok
            &&& r matches Ok(v) ==> v.wf() && v@ == linear_combination_spec(vectors@, coeffs@, vectors@[0]@.len())
            &&& r matches Err(e) ==> e == LinalgError::ShapeMismatch
        },
{
    if vectors.len() == 0 || vectors.len() != coeffs.len() {
        return Err(LinalgError::EmptyOrMismatchedInput);
    }
    let n = vectors[0].size();
    let mut k: usize = 0;
    while k < vectors.len()
        invariant
            vectors@.len() > 0,
            vectors@.len() == coeffs@.len(),
            k <= vectors@.len(),
            n == vectors@[0]@.len(),
            forall|k: int| 0 <= k < vectors@.len() ==> #[trigger] vectors@[k].wf(),
            forall|j: int| 0 <= j < k ==> #[trigger] vectors@[j]@.len() == n,
        decreases vectors@.len() - k,
    {
        if vectors[k].size() != n {
            return Err(LinalgError::ShapeMismatch);
        }
        k = k + 1;
    }
    Ok(linear_combination(vectors, coeffs))
}

pub open spec fn lerp_spec<K: Field>(u: K, v: K, t: K) -> K {
    v.sub_spec(u).mul_spec(t).add_spec(u)
}

/// Linear interpolation `(v - u) * t + u`.
pub fn lerp<K: Field>(u: K, v: K, t: K) -> (r: K)
    ensures
        r == lerp_spec(u, v, t),
{
    v.sub(u).mul(t).add(u)
}

/// Entry-wise linear interpolation between two vectors of one size.
pub fn lerp_vector<K: Field>(u: &Vector<K>, v: &Vector<K>, t: K) -> (r: Vector<K>)
    requires
        u.wf(),
        v.wf(),
        u@.len() == v@.len(),
    ensures
        r.wf(),
        r@ == Seq::new(u@.len(), |i: int| lerp_spec(u@[i], v@[i], t)),
{
    let r = v.sub(u).scl(t).add(u);
    assert(r@ =~= Seq::new(u@.len(), |i: int| lerp_spec(u@[i], v@[i], t)));
    r
}

/// Entry-wise linear interpolation between two matrices of one shape.
pub fn lerp_matrix<K: Field>(u: &Matrix<K>, v: &Matrix<K>, t: K) -> (r: Matrix<K>)
    requires
        u@.wf(),
        v@.wf(),
        u@.width == v@.width,
        u@.height == v@.height,
    ensures
        r@.wf(),
        r@ == (MatrixModel {
            entries: Seq::new(u@.entries.len(), |i: int| lerp_spec(u@.entries[i], v@.entries[i], t)),
            ..u@
        }),
{
    let r = v.sub(u).scl(t).add(u);
    assert(r@.entries =~= Seq::new(u@.entries.len(), |i: int| lerp_spec(u@.entries[i], v@.entries[i], t)));
    r
}

} // verus!
