//! Dense matrices stored column by column, their mathematical model, and
//! the entry-wise and product operations.

use vstd::prelude::*;
use vstd::arithmetic::div_mod::{
    lemma_fundamental_div_mod,
    lemma_fundamental_div_mod_converse,
    lemma_mod_pos_bound,
    lemma_div_pos_is_pos,
};
use crate::error::LinalgError;
use crate::scalar::Field;

verus! {

/// Mathematical model of a matrix: `width` columns of `height` entries each,
/// stored column by column (entry `(x, y)` at offset `x * height + y`).
pub struct MatrixModel<K> {
    pub width: nat,
    pub height: nat,
    pub entries: Seq<K>,
}

impl<K> MatrixModel<K> {
    pub open spec fn wf(self) -> bool {
        self.entries.len() == self.width * self.height
    }

    pub open spec fn at(self, x: int, y: int) -> K {
        self.entries[x * self.height + y]
    }

    pub open spec fn in_bounds(self, x: int, y: int) -> bool {
        0 <= x < self.width && 0 <= y < self.height
    }

    pub open spec fn is_square(self) -> bool {
        self.width == self.height
    }

    /// Row `y`, from left to right.
    pub open spec fn row(self, y: int) -> Seq<K> {
        Seq::new(self.width, |x: int| self.at(x, y))
    }

    /// Column `x`, from top to bottom.
    pub open spec fn column(self, x: int) -> Seq<K> {
        Seq::new(self.height, |y: int| self.at(x, y))
    }

    /// The same matrix with entry `(x, y)` replaced by `v`.
    pub open spec fn update(self, x: int, y: int, v: K) -> MatrixModel<K> {
        MatrixModel { entries: self.entries.update(x * self.height + y, v), ..self }
    }
}

impl<K: Field> MatrixModel<K> {
    /// Entry-wise sum.
    pub open spec fn plus(self, o: MatrixModel<K>) -> MatrixModel<K> {
        MatrixModel {
            entries: Seq::new(self.entries.len(), |i: int| self.entries[i].add_spec(o.entries[i])),
            ..self
        }
    }

    /// Entry-wise difference.
    pub open spec fn minus(self, o: MatrixModel<K>) -> MatrixModel<K> {
        MatrixModel {
            entries: Seq::new(self.entries.len(), |i: int| self.entries[i].sub_spec(o.entries[i])),
            ..self
        }
    }

    /// Every entry multiplied by `k`.
    pub open spec fn scaled(self, k: K) -> MatrixModel<K> {
        MatrixModel {
            entries: Seq::new(self.entries.len(), |i: int| self.entries[i].mul_spec(k)),
            ..self
        }
    }

    pub open spec fn transposed(self) -> MatrixModel<K> {
        tabulate(self.height, self.width, |x: int, y: int| self.at(y, x))
    }

    /// Sum of the first `n` diagonal entries, from the top left.
    pub open spec fn diagonal_sum(self, n: nat) -> K
        decreases n,
    {
        if n == 0 {
            K::zero_spec()
        } else {
            self.diagonal_sum((n - 1) as nat).add_spec(self.at(n - 1, n - 1))
        }
    }

    pub open spec fn trace(self) -> K {
        self.diagonal_sum(self.width)
    }

    /// Product with `o`: entry `(x, y)` accumulates row `y` of `self` against
    /// column `x` of `o` by fused multiply-add.
    pub open spec fn times(self, o: MatrixModel<K>) -> MatrixModel<K> {
        tabulate(
            o.width,
            self.height,
            |x: int, y: int| fma_sum(self.row(y), o.column(x), self.width),
        )
    }
}

/// The `n` by `n` identity: one on the diagonal, zero elsewhere.
pub open spec fn identity_model<K: Field>(n: nat) -> MatrixModel<K> {
    tabulate(n, n, |x: int, y: int| if x == y { K::one_spec() } else { K::zero_spec() })
}

/// `u[0] * v[0] + ... + u[n-1] * v[n-1]`, accumulated from the left with
/// fused multiply-add starting from zero.
pub open spec fn fma_sum<K: Field>(u: Seq<K>, v: Seq<K>, n: nat) -> K
    decreases n,
{
    if n == 0 {
        K::zero_spec()
    } else {
        u[n - 1].mul_add_spec(v[n - 1], fma_sum(u, v, (n - 1) as nat))
    }
}

/// The model of the given shape whose entry `(x, y)` is `f(x, y)`.
pub open spec fn tabulate<K>(width: nat, height: nat, f: spec_fn(int, int) -> K) -> MatrixModel<K> {
    MatrixModel {
        width,
        height,
        entries: Seq::new(width * height, |i: int| f(i / height as int, i % height as int)),
    }
}

/// Offset `x * h + y` of an in-range position lies inside the buffer and
/// gives back `x` and `y`.
pub proof fn lemma_offset(x: int, y: int, w: int, h: int)
    requires
        0 <= x < w,
        0 <= y < h,
    ensures
        0 <= x * h + y < w * h,
        x * h + h <= w * h,
        (x * h + y) / h == x,
        (x * h + y) % h == y,
{
    assert(0 <= x * h) by (nonlinear_arith)
        requires
            0 <= x,
            0 <= h,
    ;
    assert(x * h + h <= w * h) by (nonlinear_arith)
        requires
            x < w,
            0 <= h,
    ;
    lemma_fundamental_div_mod_converse(x * h + y, h, x, y);
}

/// A flat offset below `w * h` splits into an in-range position.
pub proof fn lemma_split(i: int, w: int, h: int)
    requires
        0 <= i < w * h,
        0 <= w,
        0 <= h,
    ensures
        h > 0,
        0 <= i / h < w,
        0 <= i % h < h,
        (i / h) * h + i % h == i,
{
    if h == 0 {
        assert(w * h == 0) by (nonlinear_arith)
            requires
                h == 0,
        ;
        assert(false);
    }
    lemma_fundamental_div_mod(i, h);
    lemma_mod_pos_bound(i, h);
    lemma_div_pos_is_pos(i, h);
    assert((i / h) * h == h * (i / h)) by (nonlinear_arith);
    if i / h >= w {
        assert((i / h) * h >= w * h) by (nonlinear_arith)
            requires
                i / h >= w,
                h > 0,
        ;
    }
}

/// Replacing one entry leaves every other position as it was.
pub proof fn lemma_update_at<K>(m: MatrixModel<K>, x: int, y: int, v: K, x2: int, y2: int)
    requires
        m.wf(),
        m.in_bounds(x, y),
        m.in_bounds(x2, y2),
    ensures
        m.update(x, y, v).wf(),
        m.update(x, y, v).at(x2, y2) == (if x == x2 && y == y2 { v } else { m.at(x2, y2) }),
{
    lemma_offset(x, y, m.width as int, m.height as int);
    lemma_offset(x2, y2, m.width as int, m.height as int);
}

/// Two well-formed models of one shape that agree at every position are equal.
pub proof fn lemma_ext<K>(a: MatrixModel<K>, b: MatrixModel<K>)
    requires
        a.wf(),
        b.wf(),
        a.width == b.width,
        a.height == b.height,
        forall|x: int, y: int| a.in_bounds(x, y) ==> #[trigger] a.at(x, y) == b.at(x, y),
    ensures
        a == b,
{
    assert forall|i: int| 0 <= i < a.entries.len() implies a.entries[i] == b.entries[i] by {
        lemma_split(i, a.width as int, a.height as int);
        assert(a.at(i / a.height as int, i % a.height as int) == b.at(i / a.height as int, i % a.height as int));
    }
    assert(a.entries =~= b.entries);
}

/// A dense matrix stored column by column.
#[derive(Debug)]
pub struct Matrix<K: Field> {
    pub(crate) shape: (usize, usize),
    pub(crate) data: Vec<K>,
}

impl<K: Field> View for Matrix<K> {
    type V = MatrixModel<K>;

    closed spec fn view(&self) -> MatrixModel<K> {
        MatrixModel { width: self.shape.0 as nat, height: self.shape.1 as nat, entries: self.data@ }
    }
}

impl<K: Field> Matrix<K> {
    /// `(width, height)`.
    pub fn shape(&self) -> (r: (usize, usize))
        ensures
            r.0 == self@.width,
            r.1 == self@.height,
    {
        self.shape
    }

    /// The entries, column by column.
    pub fn data(&self) -> (r: &Vec<K>)
        ensures
            r@ == self@.entries,
    {
        &self.data
    }

    pub fn is_square(&self) -> (r: bool)
        ensures
            r == self@.is_square(),
    {
        self.shape.0 == self.shape.1
    }

    /// Builds a matrix from `H` rows of `W` entries each.
    pub fn from_rows<const W: usize, const H: usize>(values: [[K; W]; H]) -> (r: Self)
        requires
            W * H <= usize::MAX,
        ensures
            r@.wf(),
            r@ == tabulate(W as nat, H as nat, |x: int, y: int| values@[y]@[x]),
    {
        let ghost t = tabulate(W as nat, H as nat, |x: int, y: int| values@[y]@[x]);
        let mut data: Vec<K> = Vec::new();
        let mut x: usize = 0;
        while x < W
            invariant
                x <= W,
                W * H <= usize::MAX,
                data@.len() == x * H,
                forall|i: int|
                    0 <= i < data@.len() ==> #[trigger] data@[i] == values@[i % H as int]@[i / H as int],
            decreases W - x,
        {
            let mut y: usize = 0;
            while y < H
                invariant
                    x < W,
                    y <= H,
                    W * H <= usize::MAX,
                    data@.len() == x * H + y,
                    forall|i: int|
                    0 <= i < data@.len() ==> #[trigger] data@[i] == values@[i % H as int]@[i / H as int],
                decreases H - y,
            {
                proof {
                    lemma_offset(x as int, y as int, W as int, H as int);
                }
                data.push(values[y][x]);
                y = y + 1;
            }
            assert((x + 1) * H == x * H + H) by (nonlinear_arith);
            x = x + 1;
        }
        assert(data@ =~= t.entries);
        Matrix { shape: (W, H), data }
    }

    /// Builds a matrix from `W` columns of `H` entries each.
    pub fn from_columns<const W: usize, const H: usize>(values: [[K; H]; W]) -> (r: Self)
        requires
            W * H <= usize::MAX,
        ensures
            r@.wf(),
            r@ == tabulate(W as nat, H as nat, |x: int, y: int| values@[x]@[y]),
    {
        let ghost t = tabulate(W as nat, H as nat, |x: int, y: int| values@[x]@[y]);
        let mut data: Vec<K> = Vec::new();
        let mut x: usize = 0;
        while x < W
            invariant
                x <= W,
                W * H <= usize::MAX,
                data@.len() == x * H,
                forall|i: int|
                    0 <= i < data@.len() ==> #[trigger] data@[i] == values@[i / H as int]@[i % H as int],
            decreases W - x,
        {
            let mut y: usize = 0;
            while y < H
                invariant
                    x < W,
                    y <= H,
                    W * H <= usize::MAX,
                    data@.len() == x * H + y,
                    forall|i: int|
                        0 <= i < data@.len() ==> #[trigger] data@[i] == values@[i / H as int]@[i % H as int],
                decreases H - y,
            {
                proof {
                    lemma_offset(x as int, y as int, W as int, H as int);
                }
                data.push(values[x][y]);
                y = y + 1;
            }
            assert((x + 1) * H == x * H + H) by (nonlinear_arith);
            x = x + 1;
        }
        assert(data@ =~= t.entries);
        Matrix { shape: (W, H), data }
    }

    /// A `width` by `height` matrix with every entry `value`.
    pub fn from_elem(value: K, width: usize, height: usize) -> (r: Self)
        requires
            width * height <= usize::MAX,
        ensures
            r@.wf(),
            r@ == tabulate(width as nat, height as nat, |x: int, y: int| value),
    {
        let n: usize = width * height;
        let mut data: Vec<K> = Vec::new();
        while data.len() < n
            invariant
                n == width * height,
                data@.len() <= n,
                forall|i: int| 0 <= i < data@.len() ==> #[trigger] data@[i] == value,
            decreases n - data@.len(),
        {
            data.push(value);
        }
        let r = Matrix { shape: (width, height), data };
        assert(r@.entries =~= tabulate(width as nat, height as nat, |x: int, y: int| value).entries);
        r
    }

    /// Entry in column `x`, row `y`.
    pub fn get(&self, x: usize, y: usize) -> (r: K)
        requires
            self@.wf(),
            self@.in_bounds(x as int, y as int),
        ensures
            r == self@.at(x as int, y as int),
    {
        let n = self.data.len();
        proof {
            lemma_offset(x as int, y as int, self@.width as int, self@.height as int);
            assert(x * self.shape.1 + y < n);
        }
        self.data[x * self.shape.1 + y]
    }

    /// Replaces the entry in column `x`, row `y`.
    pub fn set(&mut self, x: usize, y: usize, value: K)
        requires
            old(self)@.wf(),
            old(self)@.in_bounds(x as int, y as int),
        ensures
            final(self)@ == old(self)@.update(x as int, y as int, value),
            final(self)@.wf(),
    {
        let n = self.data.len();
        proof {
            lemma_offset(x as int, y as int, self@.width as int, self@.height as int);
            assert(x * self.shape.1 + y < n);
        }
        let i = x * self.shape.1 + y;
        self.data.set(i, value);
    }

    /// An independent copy.
    pub(crate) fn copy(&self) -> (r: Self)
        ensures
            r@ == self@,
    {
        let mut data: Vec<K> = Vec::new();
        let mut i: usize = 0;
        while i < self.data.len()
            invariant
                i <= self.data@.len(),
                data@ == self.data@.subrange(0, i as int),
            decreases self.data@.len() - i,
        {
            data.push(self.data[i]);
            i = i + 1;
            assert(data@ =~= self.data@.subrange(0, i as int));
        }
        assert(data@ =~= self.data@);
        Matrix { shape: self.shape, data }
    }

    /// Entry-wise sum; the shapes must agree.
    pub fn add(&self, rhs: &Self) -> (r: Self)
        requires
            self@.wf(),
            rhs@.wf(),
            self@.width == rhs@.width,
            self@.height == rhs@.height,
        ensures
            r@.wf(),
            r@ == self@.plus(rhs@),
    {
        let mut data: Vec<K> = Vec::new();
        let mut i: usize = 0;
        while i < self.data.len()
            invariant
                i <= self.data@.len(),
                self.data@.len() == rhs.data@.len(),
                data@.len() == i,
                forall|j: int| 0 <= j < i ==> #[trigger] data@[j] == self.data@[j].add_spec(rhs.data@[j]),
            decreases self.data@.len() - i,
        {
            data.push(self.data[i].add(rhs.data[i]));
            i = i + 1;
        }
        let r = Matrix { shape: self.shape, data };
        assert(r@.entries =~= self@.plus(rhs@).entries);
        r
    }

    /// Entry-wise difference; the shapes must agree.
    pub fn sub(&self, rhs: &Self) -> (r: Self)
        requires
            self@.wf(),
            rhs@.wf(),
            self@.width == rhs@.width,
            self@.height == rhs@.height,
        ensures
            r@.wf(),
            r@ == self@.minus(rhs@),
    {
        let mut data: Vec<K> = Vec::new();
        let mut i: usize = 0;
        while i < self.data.len()
            invariant
                i <= self.data@.len(),
                self.data@.len() == rhs.data@.len(),
                data@.len() == i,
                forall|j: int| 0 <= j < i ==> #[trigger] data@[j] == self.data@[j].sub_spec(rhs.data@[j]),
            decreases self.data@.len() - i,
        {
            data.push(self.data[i].sub(rhs.data[i]));
            i = i + 1;
        }
        let r = Matrix { shape: self.shape, data };
        assert(r@.entries =~= self@.minus(rhs@).entries);
        r
    }

    /// Every entry multiplied by `k`.
    pub fn scl(&self, k: K) -> (r: Self)
        requires
            self@.wf(),
        ensures
            r@.wf(),
            r@ == self@.scaled(k),
    {
        let mut data: Vec<K> = Vec::new();
        let mut i: usize = 0;
        while i < self.data.len()
            invariant
                i <= self.data@.len(),
                data@.len() == i,
                forall|j: int| 0 <= j < i ==> #[trigger] data@[j] == self.data@[j].mul_spec(k),
            decreases self.data@.len() - i,
        {
            data.push(self.data[i].mul(k));
            i = i + 1;
        }
        let r = Matrix { shape: self.shape, data };
        assert(r@.entries =~= self@.scaled(k).entries);
        r
    }

    /// The matrix with rows and columns exchanged.
    pub fn transpose(&self) -> (r: Self)
        requires
            self@.wf(),
        ensures
            r@.wf(),
            r@ == self@.transposed(),
    {
        let (w, h) = self.shape;
        let n = self.data.len();
        assert(h * w == w * h) by (nonlinear_arith);
        let mut data: Vec<K> = Vec::new();
        let mut x: usize = 0;
        while x < h
            invariant
                self@.wf(),
                w == self@.width,
                h == self@.height,
                x <= h,
                h * w <= usize::MAX,
                data@.len() == x * w,
                forall|i: int|
                    0 <= i < data@.len() ==> #[trigger] data@[i] == self@.at(i % w as int, i / w as int),
            decreases h - x,
        {
            let mut y: usize = 0;
            while y < w
                invariant
                    self@.wf(),
                    w == self@.width,
                    h == self@.height,
                    x < h,
                    y <= w,
                    h * w <= usize::MAX,
                    data@.len() == x * w + y,
                    forall|i: int|
                        0 <= i < data@.len() ==> #[trigger] data@[i] == self@.at(i % w as int, i / w as int),
                decreases w - y,
            {
                proof {
                    lemma_offset(x as int, y as int, h as int, w as int);
                }
                data.push(self.get(y, x));
                y = y + 1;
            }
            assert((x + 1) * w == x * w + w) by (nonlinear_arith);
            x = x + 1;
        }
        let r = Matrix { shape: (h, w), data };
        assert(r@.entries =~= self@.transposed().entries);
        r
    }

    /// Sum of the diagonal entries; the matrix must be square.
    pub fn trace(&self) -> (r: K)
        requires
            self@.wf(),
            self@.is_square(),
        ensures
            r == self@.trace(),
    {
        let mut acc = K::zero();
        let mut i: usize = 0;
        while i < self.shape.0
            invariant
                self@.wf(),
                self@.is_square(),
                i <= self@.width,
                acc == self@.diagonal_sum(i as nat),
            decreases self@.width - i,
        {
            acc = acc.add(self.get(i, i));
            i = i + 1;
        }
        acc
    }

    /// Matrix product; the width of `self` must equal the height of `rhs`.
    /// The result has the width of `rhs` and the height of `self`.
    pub fn mul_mat(&self, rhs: &Self) -> (r: Self)
        requires
            self@.wf(),
            rhs@.wf(),
            self@.width == rhs@.height,
            rhs@.width * self@.height <= usize::MAX,
        ensures
            r@.wf(),
            r@ == self@.times(rhs@),
    {
        let (n, h) = self.shape;
        let w = rhs.shape.0;
        let mut data: Vec<K> = Vec::new();
        let mut x: usize = 0;
        while x < w
            invariant
                self@.wf(),
                rhs@.wf(),
                n == self@.width,
                h == self@.height,
                w == rhs@.width,
                n == rhs@.height,
                x <= w,
                w * h <= usize::MAX,
                data@.len() == x * h,
                forall|i: int|
                    0 <= i < data@.len() ==> #[trigger] data@[i] == fma_sum(
                        self@.row(i % h as int),
                        rhs@.column(i / h as int),
                        n as nat,
                    ),
            decreases w - x,
        {
            let mut y: usize = 0;
            while y < h
                invariant
                    self@.wf(),
                    rhs@.wf(),
                    n == self@.width,
                    h == self@.height,
                    w == rhs@.width,
                    n == rhs@.height,
                    x < w,
                    y <= h,
                    w * h <= usize::MAX,
                    data@.len() == x * h + y,
                    forall|i: int|
                        0 <= i < data@.len() ==> #[trigger] data@[i] == fma_sum(
                            self@.row(i % h as int),
                            rhs@.column(i / h as int),
                            n as nat,
                        ),
                decreases h - y,
            {
                let mut acc = K::zero();
                let mut k: usize = 0;
                while k < n
                    invariant
                        self@.wf(),
                        rhs@.wf(),
                        n == self@.width,
                        h == self@.height,
                        w == rhs@.width,
                        n == rhs@.height,
                        x < w,
                        y < h,
                        k <= n,
                        acc == fma_sum(self@.row(y as int), rhs@.column(x as int), k as nat),
                    decreases n - k,
                {
                    acc = self.get(k, y).mul_add(rhs.get(x, k), acc);
                    k = k + 1;
                }
                proof {
                    lemma_offset(x as int, y as int, w as int, h as int);
                }
                data.push(acc);
                y = y + 1;
            }
            assert((x + 1) * h == x * h + h) by (nonlinear_arith);
            x = x + 1;
        }
        let r = Matrix { shape: (w, h), data };
        assert(r@.entries =~= self@.times(rhs@).entries);
        r
    }

    /// The `n` by `n` identity matrix.
    pub fn identity(n: usize) -> (r: Self)
        requires
            n * n <= usize::MAX,
        ensures
            r@.wf(),
            r@ == identity_model::<K>(n as nat),
    {
        let mut m = Matrix::from_elem(K::zero(), n, n);
        let mut i: usize = 0;
        proof {
            assert forall|x: int, y: int| m@.in_bounds(x, y) implies #[trigger] m@.at(x, y) == K::zero_spec() by {
                lemma_offset(x, y, n as int, n as int);
            }
        }
        while i < n
            invariant
                n * n <= usize::MAX,
                m@.wf(),
                m@.width == n,
                m@.height == n,
                i <= n,
                forall|x: int, y: int|
                    m@.in_bounds(x, y) ==> #[trigger] m@.at(x, y) == (if x == y && x < i {
                        K::one_spec()
                    } else {
                        K::zero_spec()
                    }),
            decreases n - i,
        {
            let ghost before = m@;
            m.set(i, i, K::one());
            proof {
                assert forall|x: int, y: int| m@.in_bounds(x, y) implies #[trigger] m@.at(x, y) == (if x == y && x < i + 1 {
                    K::one_spec()
                } else {
                    K::zero_spec()
                }) by {
                    lemma_update_at(before, i as int, i as int, K::one_spec(), x, y);
                }
            }
            i = i + 1;
        }
        proof {
            let t = identity_model::<K>(n as nat);
            assert forall|x: int, y: int| t.in_bounds(x, y) implies #[trigger] m@.at(x, y) == t.at(x, y) by {
                lemma_offset(x, y, n as int, n as int);
            }
            lemma_ext(m@, t);
        }
        m
    }

    /// `get`, or `IndexOutOfBounds` outside the matrix.
    pub fn try_get(&self, x: usize, y: usize) -> (r: Result<K, LinalgError>)
        requires
            self@.wf(),
        ensures
            self@.in_bounds(x as int, y as int) ==> r == Ok::<K, LinalgError>(self@.at(x as int, y as int)),
            !self@.in_bounds(x as int, y as int) ==> r == Err::<K, LinalgError>(LinalgError::IndexOutOfBounds),
    {
        if x < self.shape.0 && y < self.shape.1 {
            Ok(self.get(x, y))
        } else {
            Err(LinalgError::IndexOutOfBounds)
        }
    }

    /// `set`, or `IndexOutOfBounds` (and no change) outside the matrix.
    pub fn try_set(&mut self, x: usize, y: usize, value: K) -> (r: Result<(), LinalgError>)
        requires
            old(self)@.wf(),
        ensures
            final(self)@.wf(),
            old(self)@.in_bounds(x as int, y as int) ==> r is Ok && final(self)@ == old(self)@.update(
                x as int,
                y as int,
                value,
            ),
            !old(self)@.in_bounds(x as int, y as int) ==> r == Err::<(), LinalgError>(LinalgError::IndexOutOfBounds)
                && final(self)@ == old(self)@,
    {
        if x < self.shape.0 && y < self.shape.1 {
            self.set(x, y, value);
            Ok(())
        } else {
            Err(LinalgError::IndexOutOfBounds)
        }
    }

    /// `add`, or `ShapeMismatch` when the shapes differ.
    pub fn try_add(&self, rhs: &Self) -> (r: Result<Self, LinalgError>)
        requires
            self@.wf(),
            rhs@.wf(),
        ensures
            (self@.width == rhs@.width && self@.height == rhs@.height) <==> r is Ok,
            r matches Ok(m) ==> m@.wf() && m@ == self@.plus(rhs@),
            r matches Err(e) ==> e == LinalgError::ShapeMismatch,
    {
        if self.shape.0 == rhs.shape.0 && self.shape.1 == rhs.shape.1 {
            Ok(self.add(rhs))
        } else {
            Err(LinalgError::ShapeMismatch)
        }
    }

    /// `sub`, or `ShapeMismatch` when the shapes differ.
    pub fn try_sub(&self, rhs: &Self) -> (r: Result<Self, LinalgError>)
        requires
            self@.wf(),
            rhs@.wf(),
        ensures
            (self@.width == rhs@.width && self@.height == rhs@.height) <==> r is Ok,
            r matches Ok(m) ==> m@.wf() && m@ == self@.minus(rhs@),
            r matches Err(e) ==> e == LinalgError::ShapeMismatch,
    {
        if self.shape.0 == rhs.shape.0 && self.shape.1 == rhs.shape.1 {
            Ok(self.sub(rhs))
        } else {
            Err(LinalgError::ShapeMismatch)
        }
    }

    /// `mul_mat`, or `ShapeMismatch` when the width of `self` is not the
    /// height of `rhs`.
    pub fn try_mul_mat(&self, rhs: &Self) -> (r: Result<Self, LinalgError>)
        requires
            self@.wf(),
            rhs@.wf(),
            rhs@.width * self@.height <= usize::MAX,
        ensures
            (self@.width == rhs@.height) <==> r is Ok,
            r matches Ok(m) ==> m@.wf() && m@ == self@.times(rhs@),
            r matches Err(e) ==> e == LinalgError::ShapeMismatch,
    {
        if self.shape.0 == rhs.shape.1 {
            Ok(self.mul_mat(rhs))
        } else {
            Err(LinalgError::ShapeMismatch)
        }
    }

    /// `trace`, or `NotSquare`.
    pub fn try_trace(&self) -> (r: Result<K, LinalgError>)
        requires
            self@.wf(),
        ensures
            self@.is_square() ==> r == Ok::<K, LinalgError>(self@.trace()),
            !self@.is_square() ==> r == Err::<K, LinalgError>(LinalgError::NotSquare),
    {
        if self.is_square() {
            Ok(self.trace())
        } else {
            Err(LinalgError::NotSquare)
        }
    }
}

impl<K: Field> Clone for Matrix<K> {
    /// A deep copy of the entries.
    fn clone(&self) -> (r: Self)
        ensures
            r@ == self@,
    {
        self.copy()
    }
}

impl<K: Field> PartialEq for Matrix<K> {
    fn eq(&self, other: &Self) -> (r: bool) {
        if self.shape.0 != other.shape.0 || self.shape.1 != other.shape.1 {
            return false;
        }
        if self.data.len() != other.data.len() {
            return false;
        }
        let mut i: usize = 0;
        while i < self.data.len()
            invariant
                i <= self.data@.len(),
                self.data@.len() == other.data@.len(),
                forall|j: int| 0 <= j < i ==> self.data@[j] == other.data@[j],
            decreases self.data@.len() - i,
        {
            if !self.data[i].equals(&other.data[i]) {
                return false;
            }
            i = i + 1;
        }
        assert(self.data@ =~= other.data@);
        true
    }
}

impl<K: Field> vstd::std_specs::cmp::PartialEqSpecImpl for Matrix<K> {
    open spec fn obeys_eq_spec() -> bool {
        true
    }

    open spec fn eq_spec(&self, other: &Self) -> bool {
        self@ == other@
    }
}

} // verus!
