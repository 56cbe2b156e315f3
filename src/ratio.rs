//! Exact fractions with 32-bit parts, usable as matrix entries.

use vstd::prelude::*;
use crate::scalar::{Zero, One, Abs, Sqrt, MulAdd, Field, is_floor_sqrt, lemma_floor_sqrt_unique};

verus! {

pub open spec fn gcd(a: nat, b: nat) -> nat
    decreases b,
{
    if b == 0 {
        a
    } else {
        gcd(b, a % b)
    }
}

pub open spec fn abs_int(a: int) -> nat {
    if a < 0 {
        (-a) as nat
    } else {
        a as nat
    }
}

/// `n / d` in lowest terms with a positive denominator, and zero when `d` is
/// zero. Parts that do not fit in 32 bits are cut to 32 bits.
pub open spec fn ratio_of(n: int, d: int) -> Ratio {
    if d == 0 {
        Ratio { num: 0, den: 1 }
    } else {
        let g = gcd(abs_int(n), abs_int(d)) as int;
        let q = abs_int(n) as int / g;
        Ratio {
            num: (if (n < 0) != (d < 0) { -q } else { q }) as i32,
            den: (abs_int(d) as int / g) as i32,
        }
    }
}

/// An exact fraction `num / den`. Values built by this type's operations are
/// in lowest terms with a positive denominator.
#[derive(Clone, Copy, Debug, PartialEq, Eq, Structural)]
pub struct Ratio {
    pub num: i32,
    pub den: i32,
}

proof fn lemma_gcd_positive(a: nat, b: nat)
    requires
        b > 0,
    ensures
        gcd(a, b) > 0,
    decreases b,
{
    if a % b > 0 {
        lemma_gcd_positive(b, a % b);
    } else {
        assert(gcd(b, 0) == b);
    }
}

const BOUND: i128 = 0x10000000000000000000000000;

fn gcd_exec(a: i128, b: i128) -> (r: i128)
    requires
        0 <= a,
        0 < b,
    ensures
        r == gcd(a as nat, b as nat),
        r > 0,
{
    proof {
        lemma_gcd_positive(a as nat, b as nat);
    }
    let mut x = a;
    let mut y = b;
    while y != 0
        invariant
            0 <= x,
            0 <= y,
            gcd(x as nat, y as nat) == gcd(a as nat, b as nat),
        decreases y,
    {
        let t = x % y;
        x = y;
        y = t;
    }
    x
}

/// `ratio_of(n, d)` for parts well inside the range of `i128`.
fn normalize(n: i128, d: i128) -> (r: Ratio)
    requires
        -BOUND <= n <= BOUND,
        -BOUND <= d <= BOUND,
    ensures
        r == ratio_of(n as int, d as int),
{
    if d == 0 {
        return Ratio { num: 0, den: 1 };
    }
    let an: i128 = if n < 0 { -n } else { n };
    let ad: i128 = if d < 0 { -d } else { d };
    let g = gcd_exec(an, ad);
    let q = an / g;
    let s: i128 = if (n < 0) != (d < 0) { -q } else { q };
    #[verifier::truncate]
    let num = s as i32;
    #[verifier::truncate]
    let den = (ad / g) as i32;
    Ratio { num, den }
}

proof fn lemma_product_bound(a: int, b: int, c: int)
    requires
        -0x80000000 <= a <= 0x80000000,
        -0x80000000 <= b <= 0x80000000,
        -0x80000000 <= c <= 0x80000000,
    ensures
        -0x1000000000000000000000000 <= a * b * c <= 0x1000000000000000000000000,
        -0x1000000000000000000000000 <= a * b <= 0x1000000000000000000000000,
{
    assert(-0x4000000000000000 <= a * b <= 0x4000000000000000) by (nonlinear_arith)
        requires
            -0x80000000 <= a <= 0x80000000,
            -0x80000000 <= b <= 0x80000000,
    ;
    assert(-0x200000000000000000000000 <= a * b * c <= 0x200000000000000000000000) by (nonlinear_arith)
        requires
            -0x4000000000000000 <= a * b <= 0x4000000000000000,
            -0x80000000 <= c <= 0x80000000,
    ;
}

impl Ratio {
    /// `n / d` in lowest terms; zero when `d` is zero.
    pub fn new(n: i32, d: i32) -> (r: Ratio)
        ensures
            r == ratio_of(n as int, d as int),
    {
        normalize(n as i128, d as i128)
    }

    /// The integer `n`.
    pub fn from_int(n: i32) -> (r: Ratio)
        ensures
            r == ratio_of(n as int, 1),
    {
        normalize(n as i128, 1)
    }

    pub fn numer(&self) -> (r: i32)
        ensures
            r == self.num,
    {
        self.num
    }

    pub fn denom(&self) -> (r: i32)
        ensures
            r == self.den,
    {
        self.den
    }
}

impl Zero for Ratio {
    open spec fn zero_spec() -> Ratio {
        Ratio { num: 0, den: 1 }
    }

    fn zero() -> (r: Ratio) {
        Ratio { num: 0, den: 1 }
    }

    fn is_zero(&self) -> (r: bool) {
        self.num == 0 && self.den == 1
    }
}

impl One for Ratio {
    open spec fn one_spec() -> Ratio {
        Ratio { num: 1, den: 1 }
    }

    fn one() -> (r: Ratio) {
        Ratio { num: 1, den: 1 }
    }

    fn is_one(&self) -> (r: bool) {
        self.num == 1 && self.den == 1
    }
}

impl Abs for Ratio {
    open spec fn abs_spec(self) -> Ratio {
        ratio_of(abs_int(self.num as int) as int, self.den as int)
    }

    fn abs(self) -> (r: Ratio) {
        let n: i128 = if self.num < 0 { -(self.num as i128) } else { self.num as i128 };
        normalize(n, self.den as i128)
    }
}

impl Sqrt for Ratio {
    /// The square root rounded down to a multiple of `1 / den`:
    /// `floor(sqrt(num * den)) / den`; zero unless both parts are positive.
    open spec fn sqrt_spec(self) -> Ratio {
        if self.num <= 0 || self.den <= 0 {
            Ratio { num: 0, den: 1 }
        } else {
            ratio_of(
                choose|r: int| #[trigger] is_floor_sqrt(self.num as int * self.den as int, r),
                self.den as int,
            )
        }
    }

    fn sqrt(self) -> (r: Ratio) {
        if self.num <= 0 || self.den <= 0 {
            return Ratio { num: 0, den: 1 };
        }
        proof {
            lemma_product_bound(self.num as int, self.den as int, 1);
        }
        let a: i128 = self.num as i128 * self.den as i128;
        let mut lo: i128 = 0;
        let mut hi: i128 = 0x80000000;
        proof {
            let x = self.num as int;
            let y = self.den as int;
            assert(x * y <= x * 0x7fffffff) by (nonlinear_arith)
                requires
                    0 < x,
                    y <= 0x7fffffff,
            ;
            assert(x * 0x7fffffff <= 0x7fffffff * 0x7fffffff) by (nonlinear_arith)
                requires
                    x <= 0x7fffffff,
            ;
        }
        while lo + 1 < hi
            invariant
                0 <= lo < hi <= 0x80000000,
                lo * lo <= a,
                a < hi * hi,
            decreases hi - lo,
        {
            let mid: i128 = lo + (hi - lo) / 2;
            assert(mid * mid <= 0x80000000 * 0x80000000) by (nonlinear_arith)
                requires
                    0 <= mid <= 0x80000000,
            ;
            if mid * mid <= a {
                lo = mid;
            } else {
                hi = mid;
            }
        }
        proof {
            assert(is_floor_sqrt(a as int, lo as int));
            let c = choose|r: int| #[trigger] is_floor_sqrt(self.num as int * self.den as int, r);
            lemma_floor_sqrt_unique(a as int, lo as int, c);
        }
        normalize(lo, self.den as i128)
    }
}

impl MulAdd for Ratio {
    /// `self * b + c` as one exact fraction, reduced once.
    open spec fn mul_add_spec(self, b: Ratio, c: Ratio) -> Ratio {
        ratio_of(
            self.num * b.num * c.den + c.num * self.den * b.den,
            self.den * b.den * c.den,
        )
    }

    fn mul_add(self, b: Ratio, c: Ratio) -> (r: Ratio) {
        proof {
            lemma_product_bound(self.num as int, b.num as int, c.den as int);
            lemma_product_bound(c.num as int, self.den as int, b.den as int);
            lemma_product_bound(self.den as int, b.den as int, c.den as int);
        }
        let n = self.num as i128 * b.num as i128 * c.den as i128 + c.num as i128 * self.den as i128 * b.den as i128;
        let d = self.den as i128 * b.den as i128 * c.den as i128;
        normalize(n, d)
    }
}

impl Field for Ratio {
    open spec fn add_spec(self, o: Ratio) -> Ratio {
        ratio_of(self.num * o.den + o.num * self.den, self.den * o.den)
    }

    open spec fn sub_spec(self, o: Ratio) -> Ratio {
        ratio_of(self.num * o.den - o.num * self.den, self.den * o.den)
    }

    open spec fn mul_spec(self, o: Ratio) -> Ratio {
        ratio_of(self.num * o.num, self.den * o.den)
    }

    open spec fn div_spec(self, o: Ratio) -> Ratio {
        ratio_of(self.num * o.den, self.den * o.num)
    }

    /// Compares by cross-multiplication, which orders fractions with positive
    /// denominators.
    open spec fn lt_spec(self, o: Ratio) -> bool {
        self.num * o.den < o.num * self.den
    }

    fn add(self, o: Ratio) -> (r: Ratio) {
        proof {
            lemma_product_bound(self.num as int, o.den as int, 1);
            lemma_product_bound(o.num as int, self.den as int, 1);
            lemma_product_bound(self.den as int, o.den as int, 1);
        }
        normalize(
            self.num as i128 * o.den as i128 + o.num as i128 * self.den as i128,
            self.den as i128 * o.den as i128,
        )
    }

    fn sub(self, o: Ratio) -> (r: Ratio) {
        proof {
            lemma_product_bound(self.num as int, o.den as int, 1);
            lemma_product_bound(o.num as int, self.den as int, 1);
            lemma_product_bound(self.den as int, o.den as int, 1);
        }
        normalize(
            self.num as i128 * o.den as i128 - o.num as i128 * self.den as i128,
            self.den as i128 * o.den as i128,
        )
    }

    fn mul(self, o: Ratio) -> (r: Ratio) {
        proof {
            lemma_product_bound(self.num as int, o.num as int, 1);
            lemma_product_bound(self.den as int, o.den as int, 1);
        }
        normalize(self.num as i128 * o.num as i128, self.den as i128 * o.den as i128)
    }

    fn div(self, o: Ratio) -> (r: Ratio) {
        proof {
            lemma_product_bound(self.num as int, o.den as int, 1);
            lemma_product_bound(self.den as int, o.num as int, 1);
        }
        normalize(self.num as i128 * o.den as i128, self.den as i128 * o.num as i128)
    }

    fn lt(&self, o: &Ratio) -> (r: bool) {
        proof {
            lemma_product_bound(self.num as int, o.den as int, 1);
            lemma_product_bound(o.num as int, self.den as int, 1);
        }
        (self.num as i128 * o.den as i128) < (o.num as i128 * self.den as i128)
    }

    fn equals(&self, o: &Ratio) -> (r: bool) {
        self.num == o.num && self.den == o.den
    }
}

} // verus!
