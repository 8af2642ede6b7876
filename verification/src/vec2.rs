//! Points and displacements in the plane, in fixed-point coordinates.

use crate::fixed::{
    isqrt, isqrt_u128, mag, mul_raw, quot, sat, sat_i128, sat_quot, Fixed, ONE,
};
use vstd::prelude::*;

verus! {

/// Largest value a squared distance is reported as.
pub const DIST2_MAX: u128 = 0xffff_ffff_ffff_ffff_ffff_ffff_ffff_ffff;

/// A point or a displacement.
#[derive(Clone, Copy, Debug, PartialEq, Eq, Structural)]
pub struct Vec2 {
    pub x: Fixed,
    pub y: Fixed,
}

/// Squared raw length of the displacement `(dx, dy)`.
pub open spec fn norm2(dx: int, dy: int) -> int {
    dx * dx + dy * dy
}

/// Squared raw distance between two points.
pub open spec fn dist2(a: Vec2, b: Vec2) -> int {
    norm2(a.x@ - b.x@, a.y@ - b.y@)
}

/// Squared raw distance as it is reported: capped at [`DIST2_MAX`].
pub open spec fn dist2_capped(a: Vec2, b: Vec2) -> int {
    if dist2(a, b) > DIST2_MAX {
        DIST2_MAX as int
    } else {
        dist2(a, b)
    }
}

/// `a + b` on both coordinates.
pub open spec fn vec_plus(a: Vec2, b: Vec2) -> Vec2 {
    Vec2 { x: Fixed { raw: sat(a.x@ + b.x@) as i64 }, y: Fixed { raw: sat(a.y@ + b.y@) as i64 } }
}

/// `a - b` on both coordinates.
pub open spec fn vec_minus(a: Vec2, b: Vec2) -> Vec2 {
    Vec2 { x: Fixed { raw: sat(a.x@ - b.x@) as i64 }, y: Fixed { raw: sat(a.y@ - b.y@) as i64 } }
}

/// `v` with both coordinates multiplied by the raw factor `k`.
pub open spec fn vec_scale(v: Vec2, k: int) -> Vec2 {
    Vec2 { x: Fixed { raw: mul_raw(v.x@, k) as i64 }, y: Fixed { raw: mul_raw(v.y@, k) as i64 } }
}

/// The scalar product of `a` and `b`, raw.
pub open spec fn vec_dot(a: Vec2, b: Vec2) -> int {
    sat(mul_raw(a.x@, b.x@) + mul_raw(a.y@, b.y@))
}

/// A squared distance is never negative and is zero from a point to itself.
pub proof fn lemma_dist2_basics(a: Vec2, b: Vec2)
    ensures
        dist2(a, b) >= 0,
        dist2(a, a) == 0,
        dist2(a, b) == dist2(b, a),
        dist2(a, b) == 0 ==> a == b,
{
    let dx = a.x@ - b.x@;
    let dy = a.y@ - b.y@;
    assert(dx * dx >= 0 && dy * dy >= 0) by (nonlinear_arith);
    assert(dx * dx == (-dx) * (-dx) && dy * dy == (-dy) * (-dy)) by (nonlinear_arith);
    assert(dx != 0 ==> dx * dx > 0) by (nonlinear_arith);
    assert(dy != 0 ==> dy * dy > 0) by (nonlinear_arith);
}

/// Between finite points the squared distance is below the cap.
pub proof fn lemma_dist2_finite(a: Vec2, b: Vec2)
    requires
        a.finite(),
        b.finite(),
    ensures
        0 <= dist2(a, b) < 0x8000_0000_0000_0000_0000_0000_0000_0000,
        dist2_capped(a, b) == dist2(a, b),
{
    let dx = a.x@ - b.x@;
    let dy = a.y@ - b.y@;
    assert(0 <= dx * dx < 0x4000_0000_0000_0000_0000_0000_0000_0000) by (nonlinear_arith)
        requires
            -0x8000_0000_0000_0000 < dx < 0x8000_0000_0000_0000,
    ;
    assert(0 <= dy * dy < 0x4000_0000_0000_0000_0000_0000_0000_0000) by (nonlinear_arith)
        requires
            -0x8000_0000_0000_0000 < dy < 0x8000_0000_0000_0000,
    ;
}

/// No coordinate of a normalised displacement is beyond one.
pub proof fn lemma_unit_bound(v: Vec2)
    ensures
        -ONE <= v.unit().x@ <= ONE,
        -ONE <= v.unit().y@ <= ONE,
{
    let x = v.x@;
    let y = v.y@;
    let n = norm2(x, y);
    assert(n >= 0 && n >= x * x && n >= y * y) by (nonlinear_arith)
        requires
            n == x * x + y * y,
    ;
    let len = isqrt(n);
    if n > 0 {
        crate::fixed::lemma_isqrt_exists(n);
    }
    if len != 0 {
        // the root of the whole is at least the magnitude of each part
        assert(mag(x) <= len) by (nonlinear_arith)
            requires
                x * x <= n,
                n < (len + 1) * (len + 1),
                len >= 0,
        ;
        assert(mag(y) <= len) by (nonlinear_arith)
            requires
                y * y <= n,
                n < (len + 1) * (len + 1),
                len >= 0,
        ;
        assert(mag(x * ONE) / len <= ONE && mag(x * ONE) >= 0) by (nonlinear_arith)
            requires
                mag(x) <= len,
                len > 0,
                ONE == 1_000_000,
        ;
        assert(mag(y * ONE) / len <= ONE && mag(y * ONE) >= 0) by (nonlinear_arith)
            requires
                mag(y) <= len,
                len > 0,
                ONE == 1_000_000,
        ;
        assert(mag(x * ONE) / len >= 0 && mag(y * ONE) / len >= 0) by (nonlinear_arith)
            requires
                len > 0,
                mag(x * ONE) >= 0,
                mag(y * ONE) >= 0,
        ;
    }
}

/// How far the squared length of `line` is from one, in squared raw units.
pub open spec fn off_unit(line: Vec2) -> int {
    mag(norm2(line.x@, line.y@) - ONE * ONE)
}

/// The arithmetic of a normalised displacement: with the root `len` of the
/// squared length of `(x, y)`, and `(lx, ly)` the displacement times the unit
/// `t` over `len`, each rounded by less than one, the squared length of
/// `(lx, ly)` is the nearer to that of the unit the longer the displacement.
proof fn lemma_nearly_unit_arith(t: int, len: int, x: int, y: int, lx: int, ly: int)
    requires
        t > 0,
        len > 0,
        len * len <= x * x + y * y < (len + 1) * (len + 1),
        -len < x * t - lx * len < len,
        -len < y * t - ly * len < len,
    ensures
        mag(lx * lx + ly * ly - t * t) * len <= 2 * (t * t) + 4 * (t * len) + 2 * len,
{
    let rx = x * t - lx * len;
    let ry = y * t - ly * len;
    let n = x * x + y * y;
    let nn = lx * lx + ly * ly;
    let l2 = len * len;
    let tt = t * t;
    let ax = lx * len;
    let ay = ly * len;
    let bx = x * t;
    let by = y * t;
    let xr = x * rx;
    let yr = y * ry;
    assert(ax * ax == bx * bx - 2 * (bx * rx) + rx * rx) by (nonlinear_arith)
        requires
            ax == bx - rx,
    ;
    assert(ay * ay == by * by - 2 * (by * ry) + ry * ry) by (nonlinear_arith)
        requires
            ay == by - ry,
    ;
    assert(ax * ax == (lx * lx) * l2 && bx * bx == (x * x) * tt && bx * rx == t * xr)
        by (nonlinear_arith)
        requires
            ax == lx * len,
            bx == x * t,
            l2 == len * len,
            tt == t * t,
            xr == x * rx,
    ;
    assert(ay * ay == (ly * ly) * l2 && by * by == (y * y) * tt && by * ry == t * yr)
        by (nonlinear_arith)
        requires
            ay == ly * len,
            by == y * t,
            l2 == len * len,
            tt == t * t,
            yr == y * ry,
    ;
    let d = (nn - tt) * l2;
    assert(d == (lx * lx) * l2 + (ly * ly) * l2 - tt * l2) by (nonlinear_arith)
        requires
            d == (nn - tt) * l2,
            nn == lx * lx + ly * ly,
    ;
    let over = n - l2;
    assert((x * x) * tt + (y * y) * tt - tt * l2 == tt * over) by (nonlinear_arith)
        requires
            over == x * x + y * y - l2,
    ;
    assert(d == tt * over - 2 * (t * xr) - 2 * (t * yr) + rx * rx + ry * ry);
    assert(0 <= over <= 2 * len) by (nonlinear_arith)
        requires
            over == n - l2,
            l2 == len * len,
            l2 <= n < (len + 1) * (len + 1),
    ;
    assert(0 <= tt * over <= 2 * (tt * len)) by (nonlinear_arith)
        requires
            0 <= over <= 2 * len,
            tt == t * t,
    ;
    assert(-len <= x <= len && -len <= y <= len) by (nonlinear_arith)
        requires
            x * x + y * y < (len + 1) * (len + 1),
            len > 0,
    ;
    assert(mag(t * xr) <= t * l2 && 0 <= rx * rx <= l2) by (nonlinear_arith)
        requires
            xr == x * rx,
            -len <= x <= len,
            -len < rx < len,
            l2 == len * len,
            t > 0,
    ;
    assert(mag(t * yr) <= t * l2 && 0 <= ry * ry <= l2) by (nonlinear_arith)
        requires
            yr == y * ry,
            -len <= y <= len,
            -len < ry < len,
            l2 == len * len,
            t > 0,
    ;
    assert(mag(d) <= 2 * (tt * len) + 4 * (t * l2) + 2 * l2);
    let m = mag(nn - tt);
    assert(mag(d) == m * len * len) by (nonlinear_arith)
        requires
            d == (nn - tt) * l2,
            l2 == len * len,
            m == mag(nn - tt),
    ;
    assert(m * len <= 2 * tt + 4 * (t * len) + 2 * len) by (nonlinear_arith)
        requires
            m * len * len <= 2 * (tt * len) + 4 * (t * l2) + 2 * l2,
            l2 == len * len,
            len > 0,
    ;
}

/// A normalised displacement has nearly the length one, the nearer the
/// longer the displacement is: with the raw length `len` of `v`, the squared
/// length of `v.unit()` is off that of the unit by no more than
/// `2 * ONE * ONE / len + 4 * ONE + 2`.
pub proof fn lemma_unit_is_nearly_one(v: Vec2)
    requires
        isqrt(norm2(v.x@, v.y@)) > 0,
    ensures
        off_unit(v.unit()) * isqrt(norm2(v.x@, v.y@)) <= 2 * (ONE * ONE) + 4 * (ONE * isqrt(
            norm2(v.x@, v.y@),
        )) + 2 * isqrt(norm2(v.x@, v.y@)),
{
    let x = v.x@;
    let y = v.y@;
    let n = norm2(x, y);
    let len = isqrt(n);
    crate::fixed::lemma_isqrt_exists(n);
    lemma_unit_bound(v);
    crate::fixed::lemma_quot_near(x * ONE, len);
    crate::fixed::lemma_quot_near(y * ONE, len);
    let lx = quot(x * ONE, len);
    let ly = quot(y * ONE, len);
    assert(-len <= x <= len && -len <= y <= len) by (nonlinear_arith)
        requires
            x * x + y * y < (len + 1) * (len + 1),
            len > 0,
    ;
    assert(-ONE <= lx <= ONE) by (nonlinear_arith)
        requires
            -len < x * ONE - lx * len < len,
            -len <= x <= len,
            len > 0,
    ;
    assert(-ONE <= ly <= ONE) by (nonlinear_arith)
        requires
            -len < y * ONE - ly * len < len,
            -len <= y <= len,
            len > 0,
    ;
    assert(v.unit().x@ == lx && v.unit().y@ == ly);
    lemma_nearly_unit_arith(ONE as int, len, x, y, lx, ly);
}

/// `a * a` for the magnitude of a difference of two raw values.
fn square_of_difference(a: i64, b: i64) -> (r: u128)
    ensures
        r == (a - b) * (a - b),
{
    let d: i128 = a as i128 - b as i128;
    let m: u128 = if d < 0 {
        (-d) as u128
    } else {
        d as u128
    };
    assert(m * m <= 0xffff_ffff_ffff_ffff * 0xffff_ffff_ffff_ffff && m * m == d * d)
        by (nonlinear_arith)
        requires
            0 <= m <= 0xffff_ffff_ffff_ffff,
            m == d || m == -d,
    ;
    m * m
}

impl Vec2 {
    /// Both coordinates strictly between the rails.
    pub open spec fn finite(self) -> bool {
        self.x.finite() && self.y.finite()
    }

    /// The point at zero.
    pub open spec fn origin() -> Vec2 {
        Vec2 { x: Fixed { raw: 0 }, y: Fixed { raw: 0 } }
    }

    /// The displacement `self` normalised: scaled to length one. The zero
    /// displacement has no direction and gives the unit vector along x.
    pub open spec fn unit(self) -> Vec2 {
        let len = isqrt(norm2(self.x@, self.y@));
        if len == 0 {
            Vec2 { x: Fixed { raw: ONE }, y: Fixed { raw: 0 } }
        } else {
            Vec2 {
                x: Fixed { raw: sat(quot(self.x@ * ONE, len)) as i64 },
                y: Fixed { raw: sat(quot(self.y@ * ONE, len)) as i64 },
            }
        }
    }

    pub fn new(x: Fixed, y: Fixed) -> (r: Vec2)
        ensures
            r.x == x,
            r.y == y,
    {
        Vec2 { x, y }
    }

    pub fn zero() -> (r: Vec2)
        ensures
            r.x@ == 0,
            r.y@ == 0,
    {
        Vec2 { x: Fixed::zero(), y: Fixed::zero() }
    }

    pub fn is_finite(&self) -> (r: bool)
        ensures
            r == self.finite(),
    {
        self.x.is_finite() && self.y.is_finite()
    }

    pub fn is_zero(&self) -> (r: bool)
        ensures
            r == (self.x@ == 0 && self.y@ == 0),
    {
        self.x.raw == 0 && self.y.raw == 0
    }

    pub fn plus(self, other: Vec2) -> (r: Vec2)
        ensures
            r.x@ == sat(self.x@ + other.x@),
            r.y@ == sat(self.y@ + other.y@),
    {
        Vec2 { x: self.x.plus(other.x), y: self.y.plus(other.y) }
    }

    pub fn minus(self, other: Vec2) -> (r: Vec2)
        ensures
            r.x@ == sat(self.x@ - other.x@),
            r.y@ == sat(self.y@ - other.y@),
    {
        Vec2 { x: self.x.minus(other.x), y: self.y.minus(other.y) }
    }

    pub fn neg(self) -> (r: Vec2)
        ensures
            r.x@ == sat(-self.x@),
            r.y@ == sat(-self.y@),
    {
        Vec2 { x: self.x.neg(), y: self.y.neg() }
    }

    /// Each coordinate multiplied by `k`.
    pub fn scale(self, k: Fixed) -> (r: Vec2)
        ensures
            r.x@ == mul_raw(self.x@, k@),
            r.y@ == mul_raw(self.y@, k@),
    {
        Vec2 { x: self.x.times(k), y: self.y.times(k) }
    }

    /// `self` turned a quarter turn counter-clockwise.
    pub fn perp(self) -> (r: Vec2)
        ensures
            r.x@ == sat(-self.y@),
            r.y == self.x,
    {
        Vec2 { x: self.y.neg(), y: self.x }
    }

    /// The scalar product.
    pub fn dot(self, other: Vec2) -> (r: Fixed)
        ensures
            r@ == sat(mul_raw(self.x@, other.x@) + mul_raw(self.y@, other.y@)),
    {
        self.x.times(other.x).plus(self.y.times(other.y))
    }

    /// Squared raw distance to `other`, capped at [`DIST2_MAX`].
    pub fn distance_squared(self, other: Vec2) -> (r: u128)
        ensures
            r == dist2_capped(self, other),
    {
        let dx2: u128 = square_of_difference(self.x.raw, other.x.raw);
        let dy2: u128 = square_of_difference(self.y.raw, other.y.raw);
        if dx2 > DIST2_MAX - dy2 {
            DIST2_MAX
        } else {
            dx2 + dy2
        }
    }

    /// The length, rounded down.
    pub fn length(self) -> (r: Fixed)
        ensures
            r@ == sat(isqrt(norm2(self.x@, self.y@))),
    {
        let n: u128 = self.length_squared_raw();
        let root: u64 = isqrt_u128(n);
        Fixed { raw: sat_i128(root as i128) }
    }

    /// Squared raw length; it always fits.
    fn length_squared_raw(self) -> (r: u128)
        ensures
            r == norm2(self.x@, self.y@),
    {
        let x2: u128 = square_of_difference(self.x.raw, 0);
        let y2: u128 = square_of_difference(self.y.raw, 0);
        assert(x2 <= 0x8000_0000_0000_0000 * 0x8000_0000_0000_0000) by (nonlinear_arith)
            requires
                x2 == self.x.raw * self.x.raw,
                -0x8000_0000_0000_0000 <= self.x.raw <= 0x8000_0000_0000_0000,
        ;
        assert(y2 <= 0x8000_0000_0000_0000 * 0x8000_0000_0000_0000) by (nonlinear_arith)
            requires
                y2 == self.y.raw * self.y.raw,
                -0x8000_0000_0000_0000 <= self.y.raw <= 0x8000_0000_0000_0000,
        ;
        x2 + y2
    }

    /// `self` scaled to length one; the unit vector along x for the zero
    /// displacement, which has no direction.
    pub fn normalize(self) -> (r: Vec2)
        ensures
            r == self.unit(),
    {
        let n: u128 = self.length_squared_raw();
        let len: u64 = isqrt_u128(n);
        if len == 0 {
            Vec2 { x: Fixed::one(), y: Fixed::zero() }
        } else {
            let x: i64 = self.x.raw;
            let y: i64 = self.y.raw;
            assert(-0x8000_0000_0000_0000 * 1_000_000 <= x * 1_000_000 <= 0x8000_0000_0000_0000
                * 1_000_000) by (nonlinear_arith)
                requires
                    -0x8000_0000_0000_0000 <= x <= 0x8000_0000_0000_0000,
            ;
            assert(-0x8000_0000_0000_0000 * 1_000_000 <= y * 1_000_000 <= 0x8000_0000_0000_0000
                * 1_000_000) by (nonlinear_arith)
                requires
                    -0x8000_0000_0000_0000 <= y <= 0x8000_0000_0000_0000,
            ;
            Vec2 {
                x: Fixed { raw: sat_quot((x as i128) * (ONE as i128), len as i128) },
                y: Fixed { raw: sat_quot((y as i128) * (ONE as i128), len as i128) },
            }
        }
    }
}

} // verus!
