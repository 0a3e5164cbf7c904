//! The scalar type of the library: an exact rational number `n / d` with a
//! positive denominator. All color arithmetic is done on these scalars, so
//! every conversion in the crate is exact and deterministic.

use vstd::prelude::*;
use vstd::arithmetic::div_mod::{
    lemma_fundamental_div_mod, lemma_fundamental_div_mod_converse,
};

verus! {

/// Largest numerator magnitude a color component may carry.
pub const MAX_NUM: i128 = 3_600_000;

/// Largest denominator a color component may carry.
pub const MAX_DEN: i128 = 10_000;

/// An exact rational scalar. The value is `n / d`; `d` is always positive.
#[derive(Clone, Copy, Debug)]
pub struct Scalar {
    pub(crate) n: i128,
    pub(crate) d: i128,
}

/// A fraction of unbounded integers: the mathematical model of a `Scalar`
/// and of every intermediate value of the conversion pipeline.
pub ghost struct Frac {
    pub n: int,
    pub d: int,
}

impl Frac {
    /// Both fractions denote the same number (cross multiplication).
    pub open spec fn eq(self, other: Frac) -> bool {
        self.n * other.d == other.n * self.d
    }

    /// The fraction `self * other`, without reduction.
    pub open spec fn mul(self, other: Frac) -> Frac {
        Frac { n: self.n * other.n, d: self.d * other.d }
    }

    /// The fraction `self + other`, without reduction.
    pub open spec fn add(self, other: Frac) -> Frac {
        Frac { n: self.n * other.d + other.n * self.d, d: self.d * other.d }
    }

    /// The fraction `self - other`, without reduction.
    pub open spec fn sub(self, other: Frac) -> Frac {
        Frac { n: self.n * other.d - other.n * self.d, d: self.d * other.d }
    }

    /// Half of the fraction.
    pub open spec fn half(self) -> Frac {
        Frac { n: self.n, d: 2 * self.d }
    }

    /// Nearest integer, halves rounded away from zero.
    pub open spec fn round(self) -> int {
        if self.n >= 0 {
            (2 * self.n + self.d) / (2 * self.d)
        } else {
            -((-2 * self.n + self.d) / (2 * self.d))
        }
    }
}

impl Scalar {
    /// The numerator of the scalar.
    pub open(crate) spec fn num(self) -> int {
        self.n as int
    }

    /// The denominator of the scalar; always positive.
    pub open(crate) spec fn den(self) -> int {
        self.d as int
    }

    /// The scalar `i / 1`, at the specification level.
    pub open(crate) spec fn spec_int(i: int) -> Scalar {
        Scalar { n: i as i128, d: 1 }
    }

    /// The fraction a scalar denotes.
    pub open(crate) spec fn frac(self) -> Frac {
        Frac { n: self.n as int, d: self.d as int }
    }

    #[verifier::type_invariant]
    pub(crate) open(crate) spec fn inv(self) -> bool {
        0 < self.d
    }

    /// A scalar whose numerator and denominator are small enough for the
    /// conversion pipeline: the bound every component of a color meets.
    pub open(crate) spec fn in_range(self) -> bool {
        &&& -MAX_NUM <= self.num() <= MAX_NUM
        &&& 0 < self.den() <= MAX_DEN
    }

    /// Two scalars denote the same number when they agree after clearing
    /// denominators.
    pub open(crate) spec fn same_value(a: Scalar, b: Scalar) -> bool {
        a.frac().eq(b.frac())
    }

    /// Build the scalar `n / d`.
    pub fn new(n: i64, d: i64) -> (s: Scalar)
        requires
            0 < d,
        ensures
            s.num() == n,
            s.den() == d,
    {
        Scalar { n: n as i128, d: d as i128 }
    }

    /// Build the scalar `i / 1`.
    pub fn from_int(i: i64) -> (s: Scalar)
        ensures
            s.num() == i,
            s.den() == 1,
    {
        Scalar { n: i as i128, d: 1 }
    }

    /// Decide whether two scalars denote the same number.
    pub fn eq_value(&self, other: &Scalar) -> (r: bool)
        requires
            -0x4000_0000_0000_0000 <= self.num() <= 0x4000_0000_0000_0000,
            self.den() <= 0x4000_0000_0000_0000,
            -0x4000_0000_0000_0000 <= other.num() <= 0x4000_0000_0000_0000,
            other.den() <= 0x4000_0000_0000_0000,
        ensures
            r == Scalar::same_value(*self, *other),
    {
        proof {
            use_type_invariant(*self);
            use_type_invariant(*other);
            lemma_mul_bound(self.num(), other.den(), 0x4000_0000_0000_0000, 0x4000_0000_0000_0000);
            lemma_mul_bound(other.num(), self.den(), 0x4000_0000_0000_0000, 0x4000_0000_0000_0000);
        }
        self.n * other.d == other.n * self.d
    }
}

/// Floored remainder: the unique `r` in `[0, m)` congruent to `a` modulo `m`.
pub(crate) fn rem_floor(a: i128, m: i128) -> (r: i128)
    requires
        0 < m <= 0x1_0000_0000_0000_0000_0000_0000,
        -0x1_0000_0000_0000_0000_0000_0000 <= a <= 0x1_0000_0000_0000_0000_0000_0000,
    ensures
        r == a % m,
{
    if a >= 0 {
        a % m
    } else {
        let t = (-a) % m;
        proof {
            let q = (-a as int) / (m as int);
            lemma_fundamental_div_mod(-a as int, m as int);
            lemma_mod_range(-a as int, m as int);
            if t == 0 {
                assert(a == (-q) * (m as int) + 0) by (nonlinear_arith)
                    requires -a as int == (m as int) * q + t, t == 0;
                lemma_fundamental_div_mod_converse(a as int, m as int, -q, 0);
            } else {
                assert(a == (-q - 1) * (m as int) + (m - t)) by (nonlinear_arith)
                    requires -a as int == (m as int) * q + t;
                lemma_fundamental_div_mod_converse(a as int, m as int, -q - 1, m - t);
            }
        }
        if t == 0 {
            0
        } else {
            m - t
        }
    }
}

/// The positive remainder of `a` modulo `b`, for positive `b`: the result
/// lies in `[0, b)` and is congruent to `a` modulo `b`, whatever the sign
/// of `a`.
pub fn mod_positive(a: &Scalar, b: &Scalar) -> (r: Scalar)
    requires
        0 < b.num(),
        -0x1_0000_0000 <= a.num() <= 0x1_0000_0000,
        a.den() <= 0x1_0000_0000,
        b.num() <= 0x1_0000_0000,
        b.den() <= 0x1_0000_0000,
    ensures
        r.num() == (a.num() * b.den()) % (a.den() * b.num()),
        r.den() == a.den() * b.den(),
{
    proof {
        use_type_invariant(*a);
        use_type_invariant(*b);
        lemma_mul_bound(a.num(), b.den(), 0x1_0000_0000, 0x1_0000_0000);
        lemma_mul_bound(a.den(), b.num(), 0x1_0000_0000, 0x1_0000_0000);
        lemma_mul_bound(a.den(), b.den(), 0x1_0000_0000, 0x1_0000_0000);
        lemma_mul_pos(a.den(), b.num());
        lemma_mul_pos(a.den(), b.den());
    }
    let n = rem_floor(a.n * b.d, a.d * b.n);
    Scalar { n, d: a.d * b.d }
}

/// Bound on a product from bounds on its factors.
pub(crate) proof fn lemma_mul_bound(a: int, b: int, m1: int, m2: int) by (nonlinear_arith)
    requires
        -m1 <= a <= m1,
        -m2 <= b <= m2,
        0 <= m1,
        0 <= m2,
    ensures
        -(m1 * m2) <= a * b <= m1 * m2,
{
}

/// A product of positive factors is positive.
pub(crate) proof fn lemma_mul_pos(a: int, b: int) by (nonlinear_arith)
    requires
        0 < a,
        0 < b,
    ensures
        0 < a * b,
{
}

/// Fractions that denote the same number round to the same integer.
pub(crate) proof fn lemma_round_same(a: Frac, b: Frac)
    requires
        0 < a.d,
        0 < b.d,
        a.eq(b),
    ensures
        a.round() == b.round(),
{
    if a.n >= 0 {
        assert(b.n >= 0) by (nonlinear_arith)
            requires a.n >= 0, 0 < a.d, 0 < b.d, a.n * b.d == b.n * a.d;
        assert((2 * a.n + a.d) * (2 * b.d) == (2 * b.n + b.d) * (2 * a.d)) by (nonlinear_arith)
            requires a.n * b.d == b.n * a.d;
        lemma_div_same_of_cross(2 * a.n + a.d, 2 * a.d, 2 * b.n + b.d, 2 * b.d);
    } else {
        assert(b.n < 0) by (nonlinear_arith)
            requires a.n < 0, 0 < a.d, 0 < b.d, a.n * b.d == b.n * a.d;
        assert((-2 * a.n + a.d) * (2 * b.d) == (-2 * b.n + b.d) * (2 * a.d)) by (nonlinear_arith)
            requires a.n * b.d == b.n * a.d;
        lemma_div_same_of_cross(-2 * a.n + a.d, 2 * a.d, -2 * b.n + b.d, 2 * b.d);
    }
}

/// Fractions that denote the same number have the same floor, hence equal
/// Euclidean quotients.
pub(crate) proof fn lemma_div_same_of_cross(n1: int, d1: int, n2: int, d2: int)
    requires
        0 < d1,
        0 < d2,
        n1 * d2 == n2 * d1,
    ensures
        n1 / d1 == n2 / d2,
{
    let q1 = n1 / d1;
    let r1 = n1 % d1;
    lemma_fundamental_div_mod(n1, d1);
    lemma_mod_range(n1, d1);
    lemma_fundamental_div_mod(r1 * d2, d1);
    lemma_mod_range(r1 * d2, d1);
    let s = (r1 * d2) / d1;
    assert(n2 == q1 * d2 + s) by (nonlinear_arith)
        requires
            0 < d1,
            0 < d2,
            n1 * d2 == n2 * d1,
            n1 == d1 * q1 + r1,
            r1 * d2 == d1 * s + (r1 * d2) % d1,
            0 <= (r1 * d2) % d1 < d1,
    ;
    assert(0 <= s < d2) by (nonlinear_arith)
        requires
            0 < d1,
            0 < d2,
            0 <= r1 < d1,
            r1 * d2 == d1 * s + (r1 * d2) % d1,
            0 <= (r1 * d2) % d1 < d1,
    ;
    lemma_fundamental_div_mod_converse(n2, d2, q1, s);
}

/// Upper bound on a quotient from an upper bound on the dividend.
pub(crate) proof fn lemma_div_lt(x: int, d: int, k: int)
    requires
        0 < d,
        0 <= x < k * d,
    ensures
        0 <= x / d < k,
{
    lemma_fundamental_div_mod(x, d);
    lemma_mod_range(x, d);
    assert(0 <= x / d < k) by (nonlinear_arith)
        requires
            x == d * (x / d) + x % d,
            0 <= x % d < d,
            0 <= x < k * d,
            0 < d,
    ;
}

/// The Euclidean remainder lies in `[0, m)`.
pub(crate) proof fn lemma_mod_range(a: int, m: int) by (nonlinear_arith)
    requires
        0 < m,
    ensures
        0 <= a % m < m,
{
}

} // verus!
