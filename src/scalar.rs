//! The operations a matrix entry supports, their identities, and their
//! implementation for 64-bit integers.

use vstd::prelude::*;
use vstd::wrapping::i64_specs;
use vstd::arithmetic::div_mod::lemma_fundamental_div_mod_converse;

verus! {

/// Additive identity of a scalar type.
pub trait Zero: Sized {
    spec fn zero_spec() -> Self;

    fn zero() -> (r: Self)
        ensures
            r == Self::zero_spec(),
    ;

    fn is_zero(&self) -> (r: bool)
        ensures
            r == (*self == Self::zero_spec()),
    ;
}

/// Multiplicative identity of a scalar type.
pub trait One: Sized {
    spec fn one_spec() -> Self;

    fn one() -> (r: Self)
        ensures
            r == Self::one_spec(),
    ;

    fn is_one(&self) -> (r: bool)
        ensures
            r == (*self == Self::one_spec()),
    ;
}

/// Absolute value.
pub trait Abs: Sized {
    spec fn abs_spec(self) -> Self;

    fn abs(self) -> (r: Self)
        ensures
            r == self.abs_spec(),
    ;
}

/// Square root.
pub trait Sqrt: Sized {
    spec fn sqrt_spec(self) -> Self;

    fn sqrt(self) -> (r: Self)
        ensures
            r == self.sqrt_spec(),
    ;
}

/// Fused multiply-add: `self * b + c` as one step.
pub trait MulAdd: Copy {
    spec fn mul_add_spec(self, b: Self, c: Self) -> Self;

    fn mul_add(self, b: Self, c: Self) -> (r: Self)
        ensures
            r == self.mul_add_spec(b, c),
    ;
}

/// The operations a matrix entry must support.
pub trait Field: Copy + Zero + One + Abs + Sqrt + MulAdd {
    spec fn add_spec(self, o: Self) -> Self;

    spec fn sub_spec(self, o: Self) -> Self;

    spec fn mul_spec(self, o: Self) -> Self;

    spec fn div_spec(self, o: Self) -> Self;

    spec fn lt_spec(self, o: Self) -> bool;

    fn add(self, o: Self) -> (r: Self)
        ensures
            r == self.add_spec(o),
    ;

    fn sub(self, o: Self) -> (r: Self)
        ensures
            r == self.sub_spec(o),
    ;

    fn mul(self, o: Self) -> (r: Self)
        ensures
            r == self.mul_spec(o),
    ;

    fn div(self, o: Self) -> (r: Self)
        requires
            o != Self::zero_spec(),
        ensures
            r == self.div_spec(o),
    ;

    fn lt(&self, o: &Self) -> (r: bool)
        ensures
            r == self.lt_spec(*o),
    ;

    fn equals(&self, o: &Self) -> (r: bool)
        ensures
            r == (*self == *o),
    ;
}

/// Identities of the scalar operations that the matrix laws rest on. Integers
/// with wrap-around arithmetic satisfy them.
pub trait FieldLaws: Field {
    /// A non-zero value divided by itself is one.
    proof fn lemma_div_self(a: Self)
        requires
            a != Self::zero_spec(),
        ensures
            a.div_spec(a) == Self::one_spec(),
    ;

    proof fn lemma_one_nonzero()
        ensures
            Self::one_spec() != Self::zero_spec(),
    ;

    proof fn lemma_add_commutative(a: Self, b: Self)
        ensures
            a.add_spec(b) == b.add_spec(a),
    ;

    proof fn lemma_add_sub_cancel(a: Self, b: Self)
        ensures
            a.add_spec(b).sub_spec(b) == a,
    ;

    proof fn lemma_sub_add_cancel(a: Self, b: Self)
        ensures
            a.sub_spec(b).add_spec(b) == a,
    ;

    proof fn lemma_sub_self(a: Self)
        ensures
            a.sub_spec(a) == Self::zero_spec(),
    ;

    proof fn lemma_zero_identities(a: Self)
        ensures
            Self::zero_spec().add_spec(a) == a,
            a.sub_spec(Self::zero_spec()) == a,
            a.mul_spec(Self::zero_spec()) == Self::zero_spec(),
            Self::zero_spec().mul_spec(a) == Self::zero_spec(),
    ;

    proof fn lemma_one_identities(a: Self)
        ensures
            a.mul_spec(Self::one_spec()) == a,
            a.div_spec(Self::one_spec()) == a,
    ;

    proof fn lemma_zero_div(a: Self)
        requires
            a != Self::zero_spec(),
        ensures
            Self::zero_spec().div_spec(a) == Self::zero_spec(),
    ;

    proof fn lemma_mul_add_commutative(a: Self, b: Self, c: Self)
        ensures
            a.mul_add_spec(b, c) == b.mul_add_spec(a, c),
    ;

    /// A square root is never below zero.
    proof fn lemma_sqrt_nonnegative(a: Self)
        ensures
            !a.sqrt_spec().lt_spec(Self::zero_spec()),
    ;
}

impl Zero for i64 {
    open spec fn zero_spec() -> i64 {
        0
    }

    fn zero() -> (r: i64) {
        0
    }

    fn is_zero(&self) -> (r: bool) {
        *self == 0
    }
}

impl One for i64 {
    open spec fn one_spec() -> i64 {
        1
    }

    fn one() -> (r: i64) {
        1
    }

    fn is_one(&self) -> (r: bool) {
        *self == 1
    }
}

impl Abs for i64 {
    /// Negative values are negated with wrap-around, so `i64::MIN` maps to itself.
    open spec fn abs_spec(self) -> i64 {
        if self < 0 {
            i64_specs::wrapping_sub(0, self)
        } else {
            self
        }
    }

    fn abs(self) -> (r: i64) {
        if self < 0 {
            0i64.wrapping_sub(self)
        } else {
            self
        }
    }
}

/// `r` is the integer square root of `a`: the largest `r >= 0` with `r * r <= a`.
pub open spec fn is_floor_sqrt(a: int, r: int) -> bool {
    0 <= r && r * r <= a && a < (r + 1) * (r + 1)
}

impl Sqrt for i64 {
    /// The floor of the square root; zero for negative values.
    open spec fn sqrt_spec(self) -> i64 {
        if self <= 0 {
            0
        } else {
            choose|r: i64| is_floor_sqrt(self as int, r as int)
        }
    }

    fn sqrt(self) -> (r: i64) {
        if self <= 0 {
            return 0;
        }
        let mut lo: i64 = 0;
        let mut hi: i64 = 3037000500;
        assert(3037000500 * 3037000500 > i64::MAX) by (nonlinear_arith);
        while lo + 1 < hi
            invariant
                0 <= lo < hi <= 3037000500,
                lo * lo <= self,
                self < hi * hi,
            decreases hi - lo,
        {
            let mid: i64 = lo + (hi - lo) / 2;
            assert(mid * mid <= 3037000499 * 3037000499) by (nonlinear_arith)
                requires
                    0 <= mid <= 3037000499,
            ;
            if mid * mid <= self {
                lo = mid;
            } else {
                hi = mid;
            }
        }
        proof {
            assert(is_floor_sqrt(self as int, lo as int));
            let c = choose|r: i64| is_floor_sqrt(self as int, r as int);
            lemma_floor_sqrt_unique(self as int, lo as int, c as int);
        }
        lo
    }
}

pub proof fn lemma_floor_sqrt_unique(a: int, r: int, s: int)
    requires
        is_floor_sqrt(a, r),
        is_floor_sqrt(a, s),
    ensures
        r == s,
{
    if r < s {
        assert((r + 1) * (r + 1) <= s * s) by (nonlinear_arith)
            requires
                0 <= r + 1 <= s,
        ;
    } else if s < r {
        assert((s + 1) * (s + 1) <= r * r) by (nonlinear_arith)
            requires
                0 <= s + 1 <= r,
        ;
    }
}

impl MulAdd for i64 {
    open spec fn mul_add_spec(self, b: i64, c: i64) -> i64 {
        i64_specs::wrapping_add(i64_specs::wrapping_mul(self, b), c)
    }

    fn mul_add(self, b: i64, c: i64) -> (r: i64) {
        self.wrapping_mul(b).wrapping_add(c)
    }
}

/// Integer entries wrap around on overflow; division truncates toward zero.
impl Field for i64 {
    open spec fn add_spec(self, o: i64) -> i64 {
        i64_specs::wrapping_add(self, o)
    }

    open spec fn sub_spec(self, o: i64) -> i64 {
        i64_specs::wrapping_sub(self, o)
    }

    open spec fn mul_spec(self, o: i64) -> i64 {
        i64_specs::wrapping_mul(self, o)
    }

    open spec fn div_spec(self, o: i64) -> i64 {
        if o == -1 {
            i64_specs::wrapping_sub(0, self)
        } else if self >= 0 {
            (self as int / o as int) as i64
        } else {
            (-((-self) as int / o as int)) as i64
        }
    }

    open spec fn lt_spec(self, o: i64) -> bool {
        self < o
    }

    fn add(self, o: i64) -> (r: i64) {
        self.wrapping_add(o)
    }

    fn sub(self, o: i64) -> (r: i64) {
        self.wrapping_sub(o)
    }

    fn mul(self, o: i64) -> (r: i64) {
        self.wrapping_mul(o)
    }

    fn div(self, o: i64) -> (r: i64) {
        if o == -1 {
            0i64.wrapping_sub(self)
        } else {
            self / o
        }
    }

    fn lt(&self, o: &i64) -> (r: bool) {
        *self < *o
    }

    fn equals(&self, o: &i64) -> (r: bool) {
        *self == *o
    }
}

proof fn lemma_signed_crop_small(a: int)
    requires
        i64::MIN <= a <= i64::MAX,
    ensures
        i64_specs::signed_crop(a) == a,
{
    let m = 0x10000000000000000int;
    if a >= 0 {
        lemma_fundamental_div_mod_converse(a, m, 0, a);
    } else {
        lemma_fundamental_div_mod_converse(a, m, -1, a + m);
    }
}

/// `floor_sqrt(a)` for `a >= 0`, found from `floor_sqrt(a - 1)`.
proof fn lemma_floor_sqrt_exists(a: int) -> (r: int)
    requires
        0 <= a,
    ensures
        is_floor_sqrt(a, r),
    decreases a,
{
    if a == 0 {
        0
    } else {
        let s = lemma_floor_sqrt_exists(a - 1);
        if (s + 1) * (s + 1) <= a {
            assert(a < (s + 2) * (s + 2)) by (nonlinear_arith)
                requires
                    a - 1 < (s + 1) * (s + 1),
                    0 <= s,
            ;
            s + 1
        } else {
            s
        }
    }
}

impl FieldLaws for i64 {
    proof fn lemma_div_self(a: i64) {
        if a != -1 {
            if a > 0 {
                lemma_fundamental_div_mod_converse(a as int, a as int, 1, 0);
            } else {
                assert((-a) / (a as int) == -1) by (nonlinear_arith)
                    requires
                        a < 0,
                ;
            }
        }
    }

    proof fn lemma_one_nonzero() {
    }

    proof fn lemma_add_commutative(a: i64, b: i64) {
    }

    proof fn lemma_add_sub_cancel(a: i64, b: i64) {
    }

    proof fn lemma_sub_add_cancel(a: i64, b: i64) {
    }

    proof fn lemma_sub_self(a: i64) {
    }

    proof fn lemma_zero_identities(a: i64) {
        lemma_signed_crop_small(0);
    }

    proof fn lemma_one_identities(a: i64) {
        assert(a * 1 == a);
        lemma_signed_crop_small(a as int);
        if a < 0 {
            assert((-a) as int / 1 == -a);
        } else {
            assert(a as int / 1 == a);
        }
    }

    proof fn lemma_zero_div(a: i64) {
        if a != -1 {
            assert(0int / (a as int) == 0) by (nonlinear_arith)
                requires
                    a != 0,
            ;
        }
    }

    proof fn lemma_mul_add_commutative(a: i64, b: i64, c: i64) {
        assert(a * b == b * a) by (nonlinear_arith);
    }

    proof fn lemma_sqrt_nonnegative(a: i64) {
        if a > 0 {
            let r = lemma_floor_sqrt_exists(a as int);
            assert(r * r <= a);
            assert(r <= 3037000499) by (nonlinear_arith)
                requires
                    r * r <= 0x7fffffffffffffff,
                    0 <= r,
            ;
            assert(is_floor_sqrt(a as int, (r as i64) as int));
        }
    }
}

} // verus!
