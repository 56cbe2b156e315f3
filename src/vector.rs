//! Vectors as matrices of width one: dot product, norms, and the
//! matrix-vector product.

use vstd::prelude::*;
use crate::matrix::{Matrix, fma_sum, lemma_offset};
use crate::error::LinalgError;
use crate::scalar::Field;

verus! {

/// Sum of the absolute values of `u[0..n]`, accumulated from the left.
pub open spec fn abs_sum<K: Field>(u: Seq<K>, n: nat) -> K
    decreases n,
{
    if n == 0 {
        K::zero_spec()
    } else {
        abs_sum(u, (n - 1) as nat).add_spec(u[n - 1].abs_spec())
    }
}

/// Largest absolute value among `u[0..n]` (zero when `n == 0`); on ties the
/// first one found from the left is kept.
pub open spec fn abs_max<K: Field>(u: Seq<K>, n: nat) -> K
    decreases n,
{
    if n == 0 {
        K::zero_spec()
    } else {
        let m = abs_max(u, (n - 1) as nat);
        let a = u[n - 1].abs_spec();
        if m.lt_spec(a) {
            a
        } else {
            m
        }
    }
}

pub open spec fn dot_spec<K: Field>(u: Seq<K>, v: Seq<K>) -> K {
    fma_sum(u, v, u.len())
}

pub open spec fn norm_1_spec<K: Field>(u: Seq<K>) -> K {
    abs_sum(u, u.len())
}

pub open spec fn norm_spec<K: Field>(u: Seq<K>) -> K {
    fma_sum(u, u, u.len()).sqrt_spec()
}

pub open spec fn norm_inf_spec<K: Field>(u: Seq<K>) -> K {
    abs_max(u, u.len())
}

/// A column of scalars: a matrix of width one.
#[derive(Debug)]
pub struct Vector<K: Field> {
    data: Matrix<K>,
}

impl<K: Field> View for Vector<K> {
    type V = Seq<K>;

    closed spec fn view(&self) -> Seq<K> {
        self.data@.entries
    }
}

impl<K: Field> Vector<K> {
    pub closed spec fn wf(&self) -> bool {
        self.data@.wf() && self.data@.width == 1
    }

    /// The vector holding the entries of a well-formed matrix of width one.
    pub(crate) fn from_column(m: Matrix<K>) -> (r: Self)
        requires
            m@.wf(),
            m@.width == 1,
        ensures
            r.wf(),
            r@ == m@.entries,
    {
        Vector { data: m }
    }

    /// The entries, in order.
    pub fn entries(&self) -> (r: &Vec<K>)
        ensures
            r@ == self@,
    {
        self.data.data()
    }

    /// Number of entries.
    pub fn size(&self) -> (r: usize)
        requires
            self.wf(),
        ensures
            r == self@.len(),
    {
        assert(1 * self.data@.height == self.data@.height);
        self.data.shape().1
    }

    pub fn from<const N: usize>(values: [K; N]) -> (r: Self)
        ensures
            r.wf(),
            r@ == values@,
    {
        let m = Matrix::from_columns([values]);
        assert forall|i: int| 0 <= i < N implies #[trigger] m@.entries[i] == values@[i] by {
            lemma_offset(0, i, 1, N as int);
        }
        assert(m@.entries =~= values@);
        Vector { data: m }
    }

    /// A vector of `size` copies of `value`.
    pub fn from_elem(value: K, size: usize) -> (r: Self)
        ensures
            r.wf(),
            r@ == Seq::new(size as nat, |i: int| value),
    {
        let m = Matrix::from_elem(value, 1, size);
        assert(m@.entries =~= Seq::new(size as nat, |i: int| value));
        Vector { data: m }
    }

    pub fn get(&self, i: usize) -> (r: K)
        requires
            self.wf(),
            i < self@.len(),
        ensures
            r == self@[i as int],
    {
        proof {
            lemma_offset(0, i as int, 1, self.data@.height as int);
        }
        self.data.get(0, i)
    }

    pub fn set(&mut self, i: usize, value: K)
        requires
            old(self).wf(),
            i < old(self)@.len(),
        ensures
            final(self).wf(),
            final(self)@ == old(self)@.update(i as int, value),
    {
        proof {
            lemma_offset(0, i as int, 1, self.data@.height as int);
        }
        self.data.set(0, i, value);
    }


    /// Entry-wise sum; the sizes must agree.
    pub fn add(&self, rhs: &Self) -> (r: Self)
        requires
            self.wf(),
            rhs.wf(),
            self@.len() == rhs@.len(),
        ensures
            r.wf(),
            r@ == Seq::new(self@.len(), |i: int| self@[i].add_spec(rhs@[i])),
    {
        proof {
            vstd::arithmetic::mul::lemma_mul_basics(self.data@.height as int);
        }
        let m = self.data.add(&rhs.data);
        assert(m@.entries =~= Seq::new(self@.len(), |i: int| self@[i].add_spec(rhs@[i])));
        Vector { data: m }
    }

    /// Entry-wise difference; the sizes must agree.
    pub fn sub(&self, rhs: &Self) -> (r: Self)
        requires
            self.wf(),
            rhs.wf(),
            self@.len() == rhs@.len(),
        ensures
            r.wf(),
            r@ == Seq::new(self@.len(), |i: int| self@[i].sub_spec(rhs@[i])),
    {
        proof {
            vstd::arithmetic::mul::lemma_mul_basics(self.data@.height as int);
        }
        let m = self.data.sub(&rhs.data);
        assert(m@.entries =~= Seq::new(self@.len(), |i: int| self@[i].sub_spec(rhs@[i])));
        Vector { data: m }
    }

    /// Every entry multiplied by `k`.
    pub fn scl(&self, k: K) -> (r: Self)
        requires
            self.wf(),
        ensures
            r.wf(),
            r@ == Seq::new(self@.len(), |i: int| self@[i].mul_spec(k)),
    {
        let m = self.data.scl(k);
        assert(m@.entries =~= Seq::new(self@.len(), |i: int| self@[i].mul_spec(k)));
        Vector { data: m }
    }

    /// Dot product, accumulated from the left by fused multiply-add; the
    /// sizes must agree.
    pub fn dot(&self, other: &Self) -> (r: K)
        requires
            self.wf(),
            other.wf(),
            self@.len() == other@.len(),
        ensures
            r == dot_spec(self@, other@),
    {
        let n = self.size();
        let mut acc = K::zero();
        let mut i: usize = 0;
        while i < n
            invariant
                self.wf(),
                other.wf(),
                n == self@.len(),
                n == other@.len(),
                i <= n,
                acc == fma_sum(self@, other@, i as nat),
            decreases n - i,
        {
            acc = self.get(i).mul_add(other.get(i), acc);
            i = i + 1;
        }
        acc
    }

    /// `add`, or `ShapeMismatch` when the sizes differ.
    pub fn try_add(&self, rhs: &Self) -> (r: Result<Self, LinalgError>)
        requires
            self.wf(),
            rhs.wf(),
        ensures
            (self@.len() == rhs@.len()) <==> r is Ok,
            r matches Ok(v) ==> v.wf() && v@ == Seq::new(self@.len(), |i: int| self@[i].add_spec(rhs@[i])),
            r matches Err(e) ==> e == LinalgError::ShapeMismatch,
    {
        if self.size() == rhs.size() {
            Ok(self.add(rhs))
        } else {
            Err(LinalgError::ShapeMismatch)
        }
    }

    /// `sub`, or `ShapeMismatch` when the sizes differ.
    pub fn try_sub(&self, rhs: &Self) -> (r: Result<Self, LinalgError>)
        requires
            self.wf(),
            rhs.wf(),
        ensures
            (self@.len() == rhs@.len()) <==> r is Ok,
            r matches Ok(v) ==> v.wf() && v@ == Seq::new(self@.len(), |i: int| self@[i].sub_spec(rhs@[i])),
            r matches Err(e) ==> e == LinalgError::ShapeMismatch,
    {
        if self.size() == rhs.size() {
            Ok(self.sub(rhs))
        } else {
            Err(LinalgError::ShapeMismatch)
        }
    }

    /// `dot`, or `ShapeMismatch` when the sizes differ.
    pub fn try_dot(&self, other: &Self) -> (r: Result<K, LinalgError>)
        requires
            self.wf(),
            other.wf(),
        ensures
            self@.len() == other@.len() ==> r == Ok::<K, LinalgError>(dot_spec(self@, other@)),
            self@.len() != other@.len() ==> r == Err::<K, LinalgError>(LinalgError::ShapeMismatch),
    {
        if self.size() == other.size() {
            Ok(self.dot(other))
        } else {
            Err(LinalgError::ShapeMismatch)
        }
    }

    /// Sum of the absolute values.
    pub fn norm_1(&self) -> (r: K)
        requires
            self.wf(),
        ensures
            r == norm_1_spec(self@),
    {
        let n = self.size();
        let mut acc = K::zero();
        let mut i: usize = 0;
        while i < n
            invariant
                self.wf(),
                n == self@.len(),
                i <= n,
                acc == abs_sum(self@, i as nat),
            decreases n - i,
        {
            acc = acc.add(self.get(i).abs());
            i = i + 1;
        }
        acc
    }

    /// Euclidean norm: the square root of the sum of squares.
    pub fn norm(&self) -> (r: K)
        requires
            self.wf(),
        ensures
            r == norm_spec(self@),
    {
        self.dot(self).sqrt()
    }

    /// Largest absolute value.
    pub fn norm_inf(&self) -> (r: K)
        requires
            self.wf(),
        ensures
            r == norm_inf_spec(self@),
    {
        let n = self.size();
        let mut acc = K::zero();
        let mut i: usize = 0;
        while i < n
            invariant
                self.wf(),
                n == self@.len(),
                i <= n,
                acc == abs_max(self@, i as nat),
            decreases n - i,
        {
            let a = self.get(i).abs();
            if acc.lt(&a) {
                acc = a;
            }
            i = i + 1;
        }
        acc
    }
}

/// Cosine of the angle between `u` and `v`: `dot(u, v) / (norm(u) * norm(v))`.
/// The sizes must agree and the product of the norms must not be zero.
pub fn angle_cos<K: Field>(u: &Vector<K>, v: &Vector<K>) -> (r: K)
    requires
        u.wf(),
        v.wf(),
        u@.len() == v@.len(),
        norm_spec(u@).mul_spec(norm_spec(v@)) != K::zero_spec(),
    ensures
        r == dot_spec(u@, v@).div_spec(norm_spec(u@).mul_spec(norm_spec(v@))),
{
    let d = u.dot(v);
    let n = u.norm().mul(v.norm());
    d.div(n)
}

impl<K: Field> Matrix<K> {
    /// Matrix-vector product; the vector's size must equal the matrix width.
    /// Entry `y` accumulates row `y` against the vector by fused multiply-add.
    pub fn mul_vec(&self, v: &Vector<K>) -> (r: Vector<K>)
        requires
            self@.wf(),
            v.wf(),
            v@.len() == self@.width,
        ensures
            r.wf(),
            r@ == Seq::new(self@.height, |y: int| fma_sum(self@.row(y), v@, self@.width)),
    {
        let (w, h) = self.shape();
        let mut out = Vector::from_elem(K::zero(), h);
        let mut y: usize = 0;
        while y < h
            invariant
                self@.wf(),
                v.wf(),
                out.wf(),
                w == self@.width,
                h == self@.height,
                v@.len() == w,
                out@.len() == h,
                y <= h,
                forall|j: int| 0 <= j < y ==> #[trigger] out@[j] == fma_sum(self@.row(j), v@, w as nat),
            decreases h - y,
        {
            let mut acc = K::zero();
            let mut k: usize = 0;
            while k < w
                invariant
                    self@.wf(),
                    v.wf(),
                    w == self@.width,
                    h == self@.height,
                    v@.len() == w,
                    y < h,
                    k <= w,
                    acc == fma_sum(self@.row(y as int), v@, k as nat),
                decreases w - k,
            {
                acc = self.get(k, y).mul_add(v.get(k), acc);
                k = k + 1;
            }
            out.set(y, acc);
            y = y + 1;
        }
        assert(out@ =~= Seq::new(self@.height, |y: int| fma_sum(self@.row(y), v@, self@.width)));
        out
    }
}

impl<K: Field> Clone for Vector<K> {
    /// A deep copy of the entries.
    fn clone(&self) -> (r: Self)
        ensures
            r@ == self@,
            r.wf() == self.wf(),
    {
        Vector { data: self.data.copy() }
    }
}

impl<K: Field> Matrix<K> {
    /// `mul_vec`, or `ShapeMismatch` when the vector's size is not the width.
    pub fn try_mul_vec(&self, v: &Vector<K>) -> (r: Result<Vector<K>, LinalgError>)
        requires
            self@.wf(),
            v.wf(),
        ensures
            (v@.len() == self@.width) <==> r is Ok,
            r matches Ok(u) ==> u.wf() && u@ == Seq::new(
                self@.height,
                |y: int| fma_sum(self@.row(y), v@, self@.width),
            ),
            r matches Err(e) ==> e == LinalgError::ShapeMismatch,
    {
        if v.size() == self.shape().0 {
            Ok(self.mul_vec(v))
        } else {
            Err(LinalgError::ShapeMismatch)
        }
    }
}

impl<K: Field> PartialEq for Vector<K> {
    fn eq(&self, other: &Self) -> (r: bool) {
        let a = self.data.data();
        let b = other.data.data();
        if a.len() != b.len() {
            return false;
        }
        let mut i: usize = 0;
        while i < a.len()
            invariant
                a@ == self@,
                b@ == other@,
                a@.len() == b@.len(),
                i <= a@.len(),
                forall|j: int| 0 <= j < i ==> a@[j] == b@[j],
            decreases a@.len() - i,
        {
            if !a[i].equals(&b[i]) {
                return false;
            }
            i = i + 1;
        }
        assert(a@ =~= b@);
        true
    }
}

impl<K: Field> vstd::std_specs::cmp::PartialEqSpecImpl for Vector<K> {
    open spec fn obeys_eq_spec() -> bool {
        true
    }

    open spec fn eq_spec(&self, other: &Self) -> bool {
        self@ == other@
    }
}

} // verus!
