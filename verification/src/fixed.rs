//! Saturating fixed-point numbers.
//!
//! Every real quantity of the simulation (a coordinate, a mass, a time, an
//! angle) is a [`Fixed`]: a count of millionths held in an `i64`. Results are
//! clamped to `[-LIMIT, LIMIT]`; a value on or beyond a rail is not finite.

use vstd::prelude::*;

verus! {

/// Raw value of the number one.
pub const ONE: i64 = 1_000_000;

/// The rails: every computed raw value lies in `[-LIMIT, LIMIT]`.
pub const LIMIT: i64 = 0x4000_0000_0000_0000;

/// `x` clamped to the rails.
pub open spec fn sat(x: int) -> int {
    if x < -LIMIT {
        -(LIMIT as int)
    } else if x > LIMIT {
        LIMIT as int
    } else {
        x
    }
}

/// Magnitude of an integer.
pub open spec fn mag(x: int) -> int {
    if x < 0 {
        -x
    } else {
        x
    }
}

/// Quotient of `n` by `d`, rounded toward zero.
pub open spec fn quot(n: int, d: int) -> int
    recommends
        d != 0,
{
    if (n < 0) == (d < 0) {
        mag(n) / mag(d)
    } else {
        -(mag(n) / mag(d))
    }
}

/// Remainder of `n` by `d` that goes with [`quot`]: it has the sign of `n`.
pub open spec fn rem(n: int, d: int) -> int
    recommends
        d != 0,
{
    n - quot(n, d) * d
}

/// Raw product of two raw values.
pub open spec fn mul_raw(a: int, b: int) -> int {
    sat(quot(a * b, ONE as int))
}

/// Raw quotient of two raw values.
pub open spec fn div_raw(a: int, b: int) -> int
    recommends
        b != 0,
{
    sat(quot(a * ONE, b))
}

/// `r` is the integer square root of `n`.
pub open spec fn is_isqrt(n: int, r: int) -> bool {
    0 <= r && r * r <= n && n < (r + 1) * (r + 1)
}

/// The integer square root of `n`: the largest `r` with `r * r <= n`
/// (zero for a negative `n`).
pub open spec fn isqrt(n: int) -> int {
    if n <= 0 {
        0
    } else {
        choose|r: int| is_isqrt(n, r)
    }
}

/// Raw square root of a raw value (zero for a negative one).
pub open spec fn sqrt_raw(a: int) -> int {
    isqrt(a * ONE)
}

/// A multiple of `d` divides by `d` without a remainder.
pub proof fn lemma_quot_exact(a: int, d: int)
    requires
        d != 0,
    ensures
        quot(a * d, d) == a,
{
    let n = a * d;
    assert(mag(n) == mag(a) * mag(d)) by (nonlinear_arith)
        requires
            n == a * d,
    ;
    assert((mag(a) * mag(d)) / mag(d) == mag(a)) by (nonlinear_arith)
        requires
            mag(d) > 0,
    ;
    assert((n < 0) == (d < 0) ==> a >= 0) by (nonlinear_arith)
        requires
            n == a * d,
            d != 0,
    ;
    assert((n < 0) != (d < 0) ==> a <= 0) by (nonlinear_arith)
        requires
            n == a * d,
            d != 0,
    ;
}

/// Multiplying by one changes nothing, and by minus one only the sign.
pub proof fn lemma_mul_raw_one(a: int)
    ensures
        mul_raw(a, ONE as int) == sat(a),
        mul_raw(ONE as int, a) == sat(a),
        mul_raw(a, -(ONE as int)) == sat(-a),
        mul_raw(-(ONE as int), a) == sat(-a),
        mul_raw(a, 0) == 0,
        mul_raw(0, a) == 0,
{
    lemma_quot_exact(a, ONE as int);
    lemma_quot_exact(-a, ONE as int);
    assert(a * ONE == ONE * a && a * (-(ONE as int)) == (-a) * ONE && (-(ONE as int)) * a == (-a)
        * ONE) by (nonlinear_arith);
    assert(a * 0 == 0 && 0 * a == 0) by (nonlinear_arith);
}

/// A product with a factor of magnitude at most one is at most as large as
/// the other factor.
pub proof fn lemma_mul_raw_bound(a: int, b: int)
    requires
        -ONE <= b <= ONE,
    ensures
        mag(mul_raw(a, b)) <= mag(a),
        mag(mul_raw(b, a)) <= mag(a),
{
    let n = a * b;
    assert(mag(n) <= mag(a) * ONE) by (nonlinear_arith)
        requires
            n == a * b,
            -1_000_000 <= b <= 1_000_000,
            ONE == 1_000_000,
    ;
    assert(mag(n) / (ONE as int) <= mag(a)) by (nonlinear_arith)
        requires
            0 <= mag(n) <= mag(a) * 1_000_000,
            ONE == 1_000_000,
    ;
    assert(b * a == a * b) by (nonlinear_arith);
}

/// A product with a factor of magnitude at most one is off the exact product
/// by less than one raw unit: what the rounding toward zero drops.
pub proof fn lemma_mul_raw_near(a: int, b: int)
    requires
        -LIMIT <= a <= LIMIT,
        -ONE <= b <= ONE,
    ensures
        -ONE < mul_raw(a, b) * ONE - a * b < ONE,
        -ONE < mul_raw(b, a) * ONE - a * b < ONE,
{
    let n = a * b;
    lemma_mul_raw_bound(a, b);
    assert(b * a == n) by (nonlinear_arith)
        requires
            n == a * b,
    ;
    let q = mag(n) / (ONE as int);
    assert(0 <= mag(n) - q * ONE < ONE && q >= 0) by (nonlinear_arith)
        requires
            q == mag(n) / 1_000_000,
            mag(n) >= 0,
            ONE == 1_000_000,
    ;
    assert(mag(n) <= mag(a) * ONE) by (nonlinear_arith)
        requires
            n == a * b,
            -1_000_000 <= b <= 1_000_000,
            ONE == 1_000_000,
    ;
    assert(q <= mag(a));
    assert(quot(n, ONE as int) == q || quot(n, ONE as int) == -q);
    assert(mul_raw(a, b) == quot(n, ONE as int));
    assert(mul_raw(b, a) == quot(n, ONE as int));
    if n >= 0 {
        assert(mul_raw(a, b) * ONE == q * ONE);
    } else {
        assert(mul_raw(a, b) * ONE == -(q * ONE));
    }
}

/// A quotient times the divisor is off the dividend by less than the
/// divisor: what the rounding toward zero drops.
pub proof fn lemma_quot_near(n: int, d: int)
    requires
        d > 0,
    ensures
        -d < n - quot(n, d) * d < d,
{
    let q = mag(n) / d;
    assert(0 <= mag(n) - q * d < d) by (nonlinear_arith)
        requires
            q == mag(n) / d,
            mag(n) >= 0,
            d > 0,
    ;
    if n < 0 {
        assert((-q) * d == -(q * d)) by (nonlinear_arith);
    }
}

/// A product of two raw values that are not negative is not negative.
pub proof fn lemma_mul_raw_sign(a: int, b: int)
    requires
        a >= 0,
        b >= 0,
    ensures
        mul_raw(a, b) >= 0,
{
    let n = a * b;
    assert(n >= 0) by (nonlinear_arith)
        requires
            n == a * b,
            a >= 0,
            b >= 0,
    ;
    assert(n / (ONE as int) >= 0) by (nonlinear_arith)
        requires
            n >= 0,
            ONE == 1_000_000,
    ;
}

/// A product changes its sign with the sign of a factor.
pub proof fn lemma_mul_raw_odd(a: int, b: int)
    ensures
        mul_raw(a, -b) == -mul_raw(a, b),
        mul_raw(-a, b) == -mul_raw(a, b),
{
    let n = a * b;
    assert(a * (-b) == -n && (-a) * b == -n) by (nonlinear_arith)
        requires
            n == a * b,
    ;
}

/// A number that is not zero, divided by itself, is one.
pub proof fn lemma_div_raw_self(a: int)
    requires
        a != 0,
    ensures
        div_raw(a, a) == ONE,
        div_raw(a, -a) == -ONE,
{
    lemma_quot_exact(ONE as int, a);
    lemma_quot_exact(-(ONE as int), -a);
    assert(a * ONE == ONE * a && a * ONE == (-(ONE as int)) * (-a)) by (nonlinear_arith);
}

/// A square root is never negative.
pub proof fn lemma_isqrt_nonnegative(n: int)
    ensures
        isqrt(n) >= 0,
{
    if n > 0 {
        // some integer squares around n: the binary search below finds it
        lemma_isqrt_exists(n);
    }
}

/// Every positive integer has a square root.
pub proof fn lemma_isqrt_exists(n: int)
    requires
        n > 0,
    ensures
        is_isqrt(n, isqrt(n)),
    decreases n,
{
    // from the square root r of n - 1: that of n is r or r + 1
    if n == 1 {
        assert(is_isqrt(1, 1)) by (nonlinear_arith);
        lemma_isqrt_is(1, 1);
    } else {
        lemma_isqrt_exists(n - 1);
        let r = isqrt(n - 1);
        if n < (r + 1) * (r + 1) {
            assert(is_isqrt(n, r));
            lemma_isqrt_is(n, r);
        } else {
            assert(n == (r + 1) * (r + 1));
            assert((r + 1) * (r + 1) < (r + 2) * (r + 2)) by (nonlinear_arith)
                requires
                    r >= 0,
            ;
            assert(is_isqrt(n, r + 1));
            lemma_isqrt_is(n, r + 1);
        }
    }
}

/// The square root of a square is the magnitude.
pub proof fn lemma_isqrt_square(a: int)
    ensures
        isqrt(a * a) == mag(a),
{
    let m = mag(a);
    assert(m * m == a * a) by (nonlinear_arith)
        requires
            m == a || m == -a,
    ;
    assert(m * m < (m + 1) * (m + 1)) by (nonlinear_arith)
        requires
            m >= 0,
    ;
    lemma_isqrt_is(a * a, m);
}

/// A square is monotone on the non-negative integers.
pub proof fn lemma_square_monotone(a: int, b: int)
    requires
        0 <= a <= b,
    ensures
        a * a <= b * b,
{
    assert(a * a <= b * b) by (nonlinear_arith)
        requires
            0 <= a <= b,
    ;
}

/// At most one integer is the square root of `n`.
pub proof fn lemma_isqrt_unique(n: int, r: int, s: int)
    requires
        is_isqrt(n, r),
        is_isqrt(n, s),
    ensures
        r == s,
{
    if r < s {
        lemma_square_monotone(r + 1, s);
    } else if s < r {
        lemma_square_monotone(s + 1, r);
    }
}

/// An integer that squares around `n` is its square root.
pub proof fn lemma_isqrt_is(n: int, r: int)
    requires
        is_isqrt(n, r),
    ensures
        isqrt(n) == r,
{
    if n <= 0 {
        assert(r * r >= 0) by (nonlinear_arith);
        assert(r == 0) by (nonlinear_arith)
            requires
                0 <= r,
                r * r <= 0,
        ;
    } else {
        let c = choose|c: int| is_isqrt(n, c);
        lemma_isqrt_unique(n, r, c);
    }
}

/// The largest `r` with `r * r <= n`.
pub fn isqrt_u128(n: u128) -> (r: u64)
    ensures
        r == isqrt(n as int),
        is_isqrt(n as int, r as int),
{
    let mut lo: u128 = 0;
    let mut hi: u128 = 0x1_0000_0000_0000_0000;
    assert(0x1_0000_0000_0000_0000int * 0x1_0000_0000_0000_0000int
        == 0x1_0000_0000_0000_0000_0000_0000_0000_0000int) by (nonlinear_arith);
    while hi - lo > 1
        invariant
            lo < hi <= 0x1_0000_0000_0000_0000,
            lo * lo <= n,
            n < hi * hi,
        decreases hi - lo,
    {
        let mid: u128 = lo + (hi - lo) / 2;
        assert(mid * mid < 0x1_0000_0000_0000_0000_0000_0000_0000_0000) by (nonlinear_arith)
            requires
                0 <= mid < 0x1_0000_0000_0000_0000,
        ;
        if mid * mid <= n {
            lo = mid;
        } else {
            hi = mid;
        }
    }
    proof {
        lemma_isqrt_is(n as int, lo as int);
    }
    lo as u64
}

/// Magnitude of a 128-bit integer that is not the least one.
fn mag_i128(x: i128) -> (r: u128)
    requires
        x > i128::MIN,
    ensures
        r == mag(x as int),
{
    if x < 0 {
        (-x) as u128
    } else {
        x as u128
    }
}

/// A magnitude with a sign, clamped to the rails.
fn sat_signed(m: u128, negative: bool) -> (r: i64)
    ensures
        r == sat(if negative { -(m as int) } else { m as int }),
{
    if m >= 0x4000_0000_0000_0000 {
        if negative {
            -LIMIT
        } else {
            LIMIT
        }
    } else if negative {
        -(m as i64)
    } else {
        m as i64
    }
}

/// A 128-bit integer clamped to the rails.
pub fn sat_i128(x: i128) -> (r: i64)
    ensures
        r == sat(x as int),
{
    if x < -(LIMIT as i128) {
        -LIMIT
    } else if x > LIMIT as i128 {
        LIMIT
    } else {
        x as i64
    }
}

/// `n / d` rounded toward zero, clamped to the rails.
pub fn sat_quot(n: i128, d: i128) -> (r: i64)
    requires
        d != 0,
        n > i128::MIN,
        d > i128::MIN,
    ensures
        r == sat(quot(n as int, d as int)),
{
    let q: u128 = mag_i128(n) / mag_i128(d);
    sat_signed(q, (n < 0) != (d < 0))
}

/// A fixed-point number: `raw` millionths.
#[derive(Clone, Copy, Debug, PartialEq, Eq, Structural)]
pub struct Fixed {
    pub raw: i64,
}

impl View for Fixed {
    type V = int;

    open spec fn view(&self) -> int {
        self.raw as int
    }
}

impl Fixed {
    /// Strictly between the rails.
    pub open spec fn finite(self) -> bool {
        -LIMIT < self.raw < LIMIT
    }

    /// The number with the raw value `raw`, which lies between the rails.
    pub open spec fn of(raw: int) -> Fixed {
        Fixed { raw: raw as i64 }
    }

    /// `self + other`, clamped to the rails.
    pub open spec fn sum(self, other: Fixed) -> Fixed {
        Fixed::of(sat(self@ + other@))
    }

    /// `self - other`, clamped to the rails.
    pub open spec fn diff(self, other: Fixed) -> Fixed {
        Fixed::of(sat(self@ - other@))
    }

    /// `-self`, clamped to the rails.
    pub open spec fn negated(self) -> Fixed {
        Fixed::of(sat(-self@))
    }

    /// `self * other`, rounded toward zero and clamped to the rails.
    pub open spec fn prod(self, other: Fixed) -> Fixed {
        Fixed::of(mul_raw(self@, other@))
    }

    /// `self / other`, rounded toward zero and clamped to the rails.
    pub open spec fn ratio(self, other: Fixed) -> Fixed
        recommends
            other@ != 0,
    {
        Fixed::of(div_raw(self@, other@))
    }

    /// The number with the given raw value.
    pub fn new(raw: i64) -> (r: Fixed)
        ensures
            r.raw == raw,
    {
        Fixed { raw }
    }

    pub fn zero() -> (r: Fixed)
        ensures
            r.raw == 0,
    {
        Fixed { raw: 0 }
    }

    pub fn one() -> (r: Fixed)
        ensures
            r.raw == ONE,
    {
        Fixed { raw: ONE }
    }

    /// The whole number `n`.
    pub fn from_int(n: i32) -> (r: Fixed)
        ensures
            r@ == n * ONE,
    {
        Fixed { raw: (n as i64) * ONE }
    }

    /// The fraction `num / den`, rounded toward zero.
    pub fn from_ratio(num: i64, den: i64) -> (r: Fixed)
        requires
            den != 0,
        ensures
            r@ == div_raw(num as int, den as int),
    {
        assert(-0x8000_0000_0000_0000 * 1_000_000 <= num * 1_000_000 <= 0x8000_0000_0000_0000
            * 1_000_000) by (nonlinear_arith)
            requires
                -0x8000_0000_0000_0000 <= num <= 0x8000_0000_0000_0000,
        ;
        Fixed { raw: sat_quot((num as i128) * (ONE as i128), den as i128) }
    }

    pub fn is_finite(&self) -> (r: bool)
        ensures
            r == self.finite(),
    {
        -LIMIT < self.raw && self.raw < LIMIT
    }

    pub fn plus(self, other: Fixed) -> (r: Fixed)
        ensures
            r@ == sat(self@ + other@),
            r == self.sum(other),
    {
        Fixed { raw: sat_i128(self.raw as i128 + other.raw as i128) }
    }

    pub fn minus(self, other: Fixed) -> (r: Fixed)
        ensures
            r@ == sat(self@ - other@),
            r == self.diff(other),
    {
        Fixed { raw: sat_i128(self.raw as i128 - other.raw as i128) }
    }

    pub fn neg(self) -> (r: Fixed)
        ensures
            r@ == sat(-self@),
            r == self.negated(),
    {
        Fixed { raw: sat_i128(-(self.raw as i128)) }
    }

    pub fn abs(self) -> (r: Fixed)
        ensures
            r@ == sat(mag(self@)),
    {
        if self.raw < 0 {
            self.neg()
        } else {
            Fixed { raw: sat_i128(self.raw as i128) }
        }
    }

    pub fn times(self, other: Fixed) -> (r: Fixed)
        ensures
            r@ == mul_raw(self@, other@),
            r == self.prod(other),
    {
        let a: i64 = self.raw;
        let b: i64 = other.raw;
        assert(-0x4000_0000_0000_0000_0000_0000_0000_0000 <= a * b
            <= 0x4000_0000_0000_0000_0000_0000_0000_0000) by (nonlinear_arith)
            requires
                -0x8000_0000_0000_0000 <= a <= 0x8000_0000_0000_0000,
                -0x8000_0000_0000_0000 <= b <= 0x8000_0000_0000_0000,
        ;
        Fixed { raw: sat_quot((a as i128) * (b as i128), ONE as i128) }
    }

    /// `self / other`, rounded toward zero.
    pub fn over(self, other: Fixed) -> (r: Fixed)
        requires
            other@ != 0,
        ensures
            r@ == div_raw(self@, other@),
            r == self.ratio(other),
    {
        let a: i64 = self.raw;
        assert(-0x8000_0000_0000_0000 * 1_000_000 <= a * 1_000_000 <= 0x8000_0000_0000_0000
            * 1_000_000) by (nonlinear_arith)
            requires
                -0x8000_0000_0000_0000 <= a <= 0x8000_0000_0000_0000,
        ;
        Fixed { raw: sat_quot((a as i128) * (ONE as i128), other.raw as i128) }
    }

    /// The square root, rounded down; zero for a negative number.
    pub fn sqrt(self) -> (r: Fixed)
        ensures
            r@ == sqrt_raw(self@),
    {
        if self.raw <= 0 {
            assert(self@ * ONE <= 0) by (nonlinear_arith)
                requires
                    self@ <= 0,
            ;
            Fixed { raw: 0 }
        } else {
            let a: i64 = self.raw;
            assert(0 < a * 1_000_000 <= 0x8000_0000_0000_0000 * 1_000_000) by (nonlinear_arith)
                requires
                    0 < a <= 0x8000_0000_0000_0000,
            ;
            let n: u128 = (a as u128) * (ONE as u128);
            let r: u64 = isqrt_u128(n);
            assert(r < 0x4000_0000_0000_0000) by (nonlinear_arith)
                requires
                    r * r <= n,
                    n <= 0x8000_0000_0000_0000 * 1_000_000,
                    0 <= r,
            ;
            Fixed { raw: r as i64 }
        }
    }

    /// The smaller of two numbers.
    pub open spec fn lesser(self, other: Fixed) -> Fixed {
        if self@ <= other@ {
            self
        } else {
            other
        }
    }

    /// The larger of two numbers.
    pub open spec fn greater(self, other: Fixed) -> Fixed {
        if self@ >= other@ {
            self
        } else {
            other
        }
    }

    /// `self` held between `lo` and `hi`; `lo` where the two cross.
    pub open spec fn clamped(self, lo: Fixed, hi: Fixed) -> Fixed {
        self.lesser(hi).greater(lo)
    }

    pub fn min(self, other: Fixed) -> (r: Fixed)
        ensures
            r == self.lesser(other),
    {
        if self.raw <= other.raw {
            self
        } else {
            other
        }
    }

    pub fn max(self, other: Fixed) -> (r: Fixed)
        ensures
            r == self.greater(other),
    {
        if self.raw >= other.raw {
            self
        } else {
            other
        }
    }

    pub fn clamp(self, lo: Fixed, hi: Fixed) -> (r: Fixed)
        ensures
            r == self.clamped(lo, hi),
    {
        self.min(hi).max(lo)
    }
}

} // verus!
