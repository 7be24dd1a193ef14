//! The rotation engine: quaternions over fixed-point scalars.
//!
//! A `Quat` holds four raw fixed-point components (see [`crate::fixed`]); its
//! view is the mathematical quadruple of raw integers, and every operation's
//! contract states the result exactly as a spec-level quadruple.

use vstd::prelude::*;
use crate::fixed::{SCALE, mag, tdiv, fmul, fdiv, trunc_div, mul_fx, div_fx};
use crate::fixed::{lemma_tdiv_mag, lemma_mag_mul, lemma_fmul_mag, lemma_fmul_square_nonneg};

verus! {

/// A quaternion of raw fixed-point components: the value of each field is
/// `field / SCALE`. Used both as a rotation operator (then kept near unit
/// norm) and as an embedded 3-D point (`w == 0`, not normalized).
#[derive(Debug, PartialEq, Eq, Structural, Clone, Copy)]
pub struct Quat {
    pub w: i64,
    pub i: i64,
    pub j: i64,
    pub k: i64,
}

/// A plain 3-D point, the vector part of a transformed quaternion, in raw
/// fixed-point coordinates.
#[derive(Debug, PartialEq, Eq, Structural, Clone, Copy)]
pub struct Point {
    pub x: i64,
    pub y: i64,
    pub z: i64,
}

/// The mathematical view of a quaternion: its four raw components as
/// unbounded integers.
pub ghost struct Quatv {
    pub w: int,
    pub i: int,
    pub j: int,
    pub k: int,
}

impl View for Quat {
    type V = Quatv;

    open spec fn view(&self) -> Quatv {
        Quatv { w: self.w as int, i: self.i as int, j: self.j as int, k: self.k as int }
    }
}

/// All four components have magnitude at most `m`.
pub open spec fn in_magv(q: Quatv, m: int) -> bool {
    mag(q.w) <= m && mag(q.i) <= m && mag(q.j) <= m && mag(q.k) <= m
}

/// The Hamilton product over fixed-point scalars (each elementary product
/// rounds toward zero).
pub open spec fn qmul(a: Quatv, b: Quatv) -> Quatv {
    Quatv {
        w: fmul(a.w, b.w) - fmul(a.i, b.i) - fmul(a.j, b.j) - fmul(a.k, b.k),
        i: fmul(a.w, b.i) + fmul(a.i, b.w) + fmul(a.j, b.k) - fmul(a.k, b.j),
        j: fmul(a.w, b.j) - fmul(a.i, b.k) + fmul(a.j, b.w) + fmul(a.k, b.i),
        k: fmul(a.w, b.k) + fmul(a.i, b.j) - fmul(a.j, b.i) + fmul(a.k, b.w),
    }
}

/// Component-wise sum.
pub open spec fn qadd(a: Quatv, b: Quatv) -> Quatv {
    Quatv { w: a.w + b.w, i: a.i + b.i, j: a.j + b.j, k: a.k + b.k }
}

/// The squared norm as a fixed-point value: the sum of the four fixed-point
/// squares (each square rounds toward zero).
pub open spec fn qsum_sq(q: Quatv) -> int {
    fmul(q.w, q.w) + fmul(q.i, q.i) + fmul(q.j, q.j) + fmul(q.k, q.k)
}

/// The squared norm in raw units squared, computed exactly (no rounding);
/// `SCALE * sqrt_floor(norm2_raw(q))` approximates `SCALE^2` times the
/// Euclidean norm of the quaternion's value.
pub open spec fn norm2_raw(q: Quatv) -> int {
    q.w * q.w + q.i * q.i + q.j * q.j + q.k * q.k
}

/// The multiplicative inverse: the conjugate scaled by the reciprocal of the
/// fixed-point squared norm.
pub open spec fn qinv(q: Quatv) -> Quatv {
    let factor = fdiv(SCALE as int, qsum_sq(q));
    Quatv {
        w: fmul(q.w, factor),
        i: fmul(-q.i, factor),
        j: fmul(-q.j, factor),
        k: fmul(-q.k, factor),
    }
}

/// The sandwich product `t * q * t^-1` that rotates an embedded point `q` by
/// the orientation `t`. Kept opaque: callers of the projection pipeline need
/// the name, not the algebra.
#[verifier::opaque]
pub open spec fn qtransform(q: Quatv, t: Quatv) -> Quatv {
    qmul(qmul(t, q), qinv(t))
}

/// `r` is the integer square root of `n` rounded down.
pub open spec fn is_sqrt_floor(n: int, r: int) -> bool {
    0 <= r && r * r <= n && n < (r + 1) * (r + 1)
}

/// The integer square root of `n`, rounded down (well defined for `n >= 0`
/// by [`lemma_sqrt_floor_exists`] and [`lemma_sqrt_floor_unique`]).
pub open spec fn sqrt_floor(n: int) -> int {
    choose|r: int| is_sqrt_floor(n, r)
}

/// Every nonnegative integer has a floor square root.
pub proof fn lemma_sqrt_floor_exists(n: nat)
    ensures
        is_sqrt_floor(n as int, sqrt_floor(n as int)),
    decreases n,
{
    if n == 0 {
        assert(is_sqrt_floor(0, 0));
    } else {
        lemma_sqrt_floor_exists((n - 1) as nat);
        let r = sqrt_floor(n - 1);
        if n < (r + 1) * (r + 1) {
            assert(is_sqrt_floor(n as int, r));
        } else {
            assert(n == (r + 1) * (r + 1));
            assert(((r + 1) + 1) * ((r + 1) + 1) > (r + 1) * (r + 1)) by (nonlinear_arith)
                requires
                    r >= 0;
            assert(is_sqrt_floor(n as int, r + 1));
        }
    }
}

/// The floor square root is unique.
pub proof fn lemma_sqrt_floor_unique(n: int, r: int)
    requires
        is_sqrt_floor(n, r),
    ensures
        sqrt_floor(n) == r,
{
    let s = sqrt_floor(n);
    assert(is_sqrt_floor(n, s));
    assert(!(s < r) && !(r < s)) by (nonlinear_arith)
        requires
            is_sqrt_floor(n, r),
            is_sqrt_floor(n, s);
}

/// Normalization: each component divided by the raw norm, so the result's
/// Euclidean norm is 1 up to the fixed-point rounding.
pub open spec fn qnorm(q: Quatv) -> Quatv {
    let s = sqrt_floor(norm2_raw(q));
    Quatv { w: fdiv(q.w, s), i: fdiv(q.i, s), j: fdiv(q.j, s), k: fdiv(q.k, s) }
}

/// The orientation quaternion built from the cosines and sines of three
/// half-angles (the closed-form Euler-angle combination).
pub open spec fn qeuler(cx: int, sx: int, cy: int, sy: int, cz: int, sz: int) -> Quatv {
    Quatv {
        w: fmul(fmul(cx, cy), cz) + fmul(fmul(sx, sy), sz),
        i: fmul(fmul(sx, cy), cz) - fmul(fmul(cx, sy), sz),
        j: fmul(fmul(cx, sy), cz) + fmul(fmul(sx, cy), sz),
        k: fmul(fmul(cx, cy), sz) - fmul(fmul(sx, sy), cz),
    }
}

/// The identity rotation, 1 in fixed point.
pub open spec fn qident() -> Quatv {
    Quatv { w: SCALE as int, i: 0, j: 0, k: 0 }
}

/// Bounded inputs give a bounded Hamilton product: each elementary product
/// is at most `ma * mb / SCALE`, and each component sums four of them.
pub proof fn lemma_qmul_mag(a: Quatv, b: Quatv, ma: int, mb: int)
    requires
        0 <= ma,
        0 <= mb,
        in_magv(a, ma),
        in_magv(b, mb),
    ensures
        in_magv(qmul(a, b), 4 * (ma * mb / (SCALE as int))),
{
    lemma_fmul_mag(a.w, b.w, ma, mb);
    lemma_fmul_mag(a.w, b.i, ma, mb);
    lemma_fmul_mag(a.w, b.j, ma, mb);
    lemma_fmul_mag(a.w, b.k, ma, mb);
    lemma_fmul_mag(a.i, b.w, ma, mb);
    lemma_fmul_mag(a.i, b.i, ma, mb);
    lemma_fmul_mag(a.i, b.j, ma, mb);
    lemma_fmul_mag(a.i, b.k, ma, mb);
    lemma_fmul_mag(a.j, b.w, ma, mb);
    lemma_fmul_mag(a.j, b.i, ma, mb);
    lemma_fmul_mag(a.j, b.j, ma, mb);
    lemma_fmul_mag(a.j, b.k, ma, mb);
    lemma_fmul_mag(a.k, b.w, ma, mb);
    lemma_fmul_mag(a.k, b.i, ma, mb);
    lemma_fmul_mag(a.k, b.j, ma, mb);
    lemma_fmul_mag(a.k, b.k, ma, mb);
    vstd::arithmetic::mul::lemma_mul_nonnegative(ma, mb);
    vstd::arithmetic::div_mod::lemma_div_pos_is_pos(ma * mb, SCALE as int);
}

impl Quat {
    /// Builds a quaternion from four raw fixed-point components; the result
    /// carries no unit-norm obligation.
    pub fn new(w: i64, i: i64, j: i64, k: i64) -> (r: Quat)
        ensures
            r@ == (Quatv { w: w as int, i: i as int, j: j as int, k: k as int }),
    {
        Quat { w, i, j, k }
    }

    /// The standard non-commutative Hamilton product.
    pub fn multiply(self, rhs: Quat) -> (r: Quat)
        requires
            in_magv(self@, 0x1000_0000),
            in_magv(rhs@, 0x1000_0000),
        ensures
            r@ == qmul(self@, rhs@),
            in_magv(r@, 0x400_0000_0000),
    {
        proof {
            lemma_qmul_mag(self@, rhs@, 0x1000_0000, 0x1000_0000);
        }
        let ww = mul28(self.w, rhs.w);
        let ii = mul28(self.i, rhs.i);
        let jj = mul28(self.j, rhs.j);
        let kk = mul28(self.k, rhs.k);
        let w = ww - ii - jj - kk;
        let i = mul28(self.w, rhs.i) + mul28(self.i, rhs.w) + mul28(self.j, rhs.k) - mul28(
            self.k,
            rhs.j,
        );
        let j = mul28(self.w, rhs.j) - mul28(self.i, rhs.k) + mul28(self.j, rhs.w) + mul28(
            self.k,
            rhs.i,
        );
        let k = mul28(self.w, rhs.k) + mul28(self.i, rhs.j) - mul28(self.j, rhs.i) + mul28(
            self.k,
            rhs.w,
        );
        Quat { w, i, j, k }
    }

    /// Component-wise sum, the additive part of the quaternion algebra.
    pub fn add_quat(self, rhs: Quat) -> (r: Quat)
        requires
            in_magv(self@, 0x2000_0000_0000_0000),
            in_magv(rhs@, 0x2000_0000_0000_0000),
        ensures
            r@ == qadd(self@, rhs@),
    {
        Quat { w: self.w + rhs.w, i: self.i + rhs.i, j: self.j + rhs.j, k: self.k + rhs.k }
    }

    /// The squared norm as a fixed-point value.
    pub fn sum_square(self) -> (r: i64)
        requires
            in_magv(self@, 0x3FFF_FFFF),
        ensures
            r == qsum_sq(self@),
            r >= 0,
    {
        proof {
            lemma_fmul_square_nonneg(self@.w);
            lemma_fmul_square_nonneg(self@.i);
            lemma_fmul_square_nonneg(self@.j);
            lemma_fmul_square_nonneg(self@.k);
            lemma_fmul_mag(self@.w, self@.w, 0x3FFF_FFFF, 0x3FFF_FFFF);
            lemma_fmul_mag(self@.i, self@.i, 0x3FFF_FFFF, 0x3FFF_FFFF);
            lemma_fmul_mag(self@.j, self@.j, 0x3FFF_FFFF, 0x3FFF_FFFF);
            lemma_fmul_mag(self@.k, self@.k, 0x3FFF_FFFF, 0x3FFF_FFFF);
            lemma_mag_mul(self@.w, self@.w);
            lemma_mag_mul(self@.i, self@.i);
            lemma_mag_mul(self@.j, self@.j);
            lemma_mag_mul(self@.k, self@.k);
            mul_le(mag(self@.w), 0x3FFF_FFFF, mag(self@.w), 0x3FFF_FFFF);
            mul_le(mag(self@.i), 0x3FFF_FFFF, mag(self@.i), 0x3FFF_FFFF);
            mul_le(mag(self@.j), 0x3FFF_FFFF, mag(self@.j), 0x3FFF_FFFF);
            mul_le(mag(self@.k), 0x3FFF_FFFF, mag(self@.k), 0x3FFF_FFFF);
        }
        mul_fx(self.w, self.w) + mul_fx(self.i, self.i) + mul_fx(self.j, self.j) + mul_fx(
            self.k,
            self.k,
        )
    }

    /// The multiplicative inverse: conjugate scaled by the reciprocal of the
    /// squared norm. For a unit quaternion this is the conjugate.
    pub fn inverse(self) -> (r: Quat)
        requires
            in_magv(self@, 0x3FFF_FFFF),
            qsum_sq(self@) >= 1,
        ensures
            r@ == qinv(self@),
            in_magv(self@, 0x20000) && qsum_sq(self@) >= 0x4000 ==> in_magv(r@, 0x80000),
    {
        let n2 = self.sum_square();
        let factor = div_fx(SCALE, n2);
        proof {
            assert(mag((SCALE * SCALE) as int) == 0x1_0000_0000);
            lemma_tdiv_mag((SCALE * SCALE) as int, n2 as int, 0x1_0000_0000);
            assert(mag(factor as int) <= 0x1_0000_0000);
            bound_prod(self@.w, factor as int, 0x3FFF_FFFF, 0x1_0000_0000);
            bound_prod(-self@.i, factor as int, 0x3FFF_FFFF, 0x1_0000_0000);
            bound_prod(-self@.j, factor as int, 0x3FFF_FFFF, 0x1_0000_0000);
            bound_prod(-self@.k, factor as int, 0x3FFF_FFFF, 0x1_0000_0000);
            if in_magv(self@, 0x20000) && qsum_sq(self@) >= 0x4000 {
                vstd::arithmetic::div_mod::lemma_div_is_ordered_by_denominator(
                    0x1_0000_0000,
                    0x4000,
                    n2 as int,
                );
                assert(mag(factor as int) <= 0x40000);
                lemma_fmul_mag(self@.w, factor as int, 0x20000, 0x40000);
                lemma_fmul_mag(-self@.i, factor as int, 0x20000, 0x40000);
                lemma_fmul_mag(-self@.j, factor as int, 0x20000, 0x40000);
                lemma_fmul_mag(-self@.k, factor as int, 0x20000, 0x40000);
            }
        }
        Quat {
            w: mul_fx(self.w, factor),
            i: mul_fx(-self.i, factor),
            j: mul_fx(-self.j, factor),
            k: mul_fx(-self.k, factor),
        }
    }

    /// Scales the quaternion so its Euclidean norm is 1 up to the rounding
    /// of the format, by dividing each component by the integer square root
    /// of the exact raw squared norm.
    pub fn normalize(self) -> (r: Quat)
        requires
            in_magv(self@, 0x3FFF_FFFF),
            norm2_raw(self@) >= 1,
        ensures
            r@ == qnorm(self@),
            in_magv(r@, SCALE as int),
    {
        proof {
            square_fits(self@.w);
            square_fits(self@.i);
            square_fits(self@.j);
            square_fits(self@.k);
        }
        let n = self.w * self.w + self.i * self.i + self.j * self.j + self.k * self.k;
        let s = isqrt(n);
        proof {
            assert(s >= 1) by (nonlinear_arith)
                requires
                    is_sqrt_floor(n as int, s as int),
                    n >= 1;
            lemma_sqrt_floor_unique(n as int, s as int);
            assert(self@.w * self@.w >= 0) by (nonlinear_arith);
            assert(self@.i * self@.i >= 0) by (nonlinear_arith);
            assert(self@.j * self@.j >= 0) by (nonlinear_arith);
            assert(self@.k * self@.k >= 0) by (nonlinear_arith);
            unit_comp_bound(self@.w, n as int, s as int);
            unit_comp_bound(self@.i, n as int, s as int);
            unit_comp_bound(self@.j, n as int, s as int);
            unit_comp_bound(self@.k, n as int, s as int);
        }
        Quat {
            w: div_fx(self.w, s),
            i: div_fx(self.i, s),
            j: div_fx(self.j, s),
            k: div_fx(self.k, s),
        }
    }

    /// Rotates this embedded-point quaternion by the orientation `tf` via
    /// the sandwich product `tf * self * tf^-1`. The vector part of the
    /// result is the rotated point; the real part is the rounding residue
    /// of a mathematical zero.
    pub fn tranform(self, tf: Quat) -> (r: Quat)
        requires
            in_magv(self@, 0x20_0000),
            in_magv(tf@, 0x2_0000),
            qsum_sq(tf@) >= 0x4000,
        ensures
            r@ == qtransform(self@, tf@),
            in_magv(r@, 0x2000_0000),
    {
        proof {
            reveal(qtransform);
            lemma_qmul_mag(tf@, self@, 0x2_0000, 0x20_0000);
            assert(4 * ((0x2_0000int * 0x20_0000) / (SCALE as int)) == 0x100_0000);
        }
        let q1 = tf.multiply(self);
        let inv = tf.inverse();
        proof {
            lemma_qmul_mag(q1@, inv@, 0x100_0000, 0x80000);
            assert(4 * ((0x100_0000int * 0x80000) / (SCALE as int)) == 0x2000_0000);
        }
        q1.multiply(inv)
    }

    /// Advances the orientation from the cosines and sines of the three
    /// accumulated half-angles (each a fixed-point value in `[-1, 1]`,
    /// computed by the caller since the trigonometry is transcendental):
    /// the closed-form Euler combination replaces the previous state, then
    /// is re-normalized against rounding drift. A combination whose raw
    /// norm rounds to zero (impossible for exact cosine/sine pairs) leaves
    /// the orientation unchanged.
    pub fn increment(&mut self, cx: i64, sx: i64, cy: i64, sy: i64, cz: i64, sz: i64)
        requires
            mag(cx as int) <= 0x2_0000,
            mag(sx as int) <= 0x2_0000,
            mag(cy as int) <= 0x2_0000,
            mag(sy as int) <= 0x2_0000,
            mag(cz as int) <= 0x2_0000,
            mag(sz as int) <= 0x2_0000,
        ensures
            ({
                let c = qeuler(cx as int, sx as int, cy as int, sy as int, cz as int, sz as int);
                if norm2_raw(c) >= 1 {
                    final(self)@ == qnorm(c) && in_magv(final(self)@, SCALE as int)
                } else {
                    *final(self) == *old(self)
                }
            }),
    {
        let cxy = euler_prod(cx, cy);
        let sxy = euler_prod(sx, sy);
        let sxcy = euler_prod(sx, cy);
        let cxsy = euler_prod(cx, sy);
        let w = euler_prod2(cxy, cz) + euler_prod2(sxy, sz);
        let i = euler_prod2(sxcy, cz) - euler_prod2(cxsy, sz);
        let j = euler_prod2(cxsy, cz) + euler_prod2(sxcy, sz);
        let k = euler_prod2(cxy, sz) - euler_prod2(sxy, cz);
        let c = Quat { w, i, j, k };
        proof {
            square_fits(c@.w);
            square_fits(c@.i);
            square_fits(c@.j);
            square_fits(c@.k);
        }
        let n = c.w * c.w + c.i * c.i + c.j * c.j + c.k * c.k;
        if n >= 1 {
            *self = c.normalize();
        }
    }

    /// Extracts the vector part as a 3-D point, discarding the real part.
    pub fn point(self) -> (r: Point)
        ensures
            r.x == self.i,
            r.y == self.j,
            r.z == self.k,
    {
        Point { x: self.i, y: self.j, z: self.k }
    }
}

/// The integer square root, rounded down, by binary search.
fn isqrt(n: i64) -> (r: i64)
    requires
        n >= 0,
    ensures
        is_sqrt_floor(n as int, r as int),
{
    let mut lo: i64 = 0;
    let mut hi: i64 = 0x1_0000_0000;
    proof {
        assert(0x1_0000_0000i64 * 0x1_0000_0000 > n as int) by (nonlinear_arith)
            requires
                n <= 0x7FFF_FFFF_FFFF_FFFFi64;
    }
    while lo + 1 < hi
        invariant
            0 <= lo < hi <= 0x1_0000_0000,
            lo * lo <= n,
            (n as int) < (hi as int) * (hi as int),
        decreases hi - lo,
    {
        let mid = lo + (hi - lo) / 2;
        if mid <= n / mid {
            proof {
                assert(mid * mid <= n) by (nonlinear_arith)
                    requires
                        mid >= 1,
                        n >= 0,
                        mid <= n as int / mid as int;
            }
            lo = mid;
        } else {
            proof {
                assert(n < mid * mid) by (nonlinear_arith)
                    requires
                        mid >= 1,
                        n >= 0,
                        mid > n as int / mid as int;
            }
            hi = mid;
        }
    }
    lo
}

/// A fixed-point product of two half-angle scalars (trigonometric range,
/// with slack), exact contract plus the bound the Euler combination needs.
fn euler_prod(a: i64, b: i64) -> (r: i64)
    requires
        mag(a as int) <= 0x2_0000,
        mag(b as int) <= 0x2_0000,
    ensures
        r == fmul(a as int, b as int),
        mag(r as int) <= 0x4_0000,
{
    proof {
        bound_prod(a as int, b as int, 0x2_0000, 0x2_0000);
        lemma_fmul_mag(a as int, b as int, 0x2_0000, 0x2_0000);
    }
    mul_fx(a, b)
}

/// The second-level product of the Euler combination.
fn euler_prod2(a: i64, b: i64) -> (r: i64)
    requires
        mag(a as int) <= 0x4_0000,
        mag(b as int) <= 0x2_0000,
    ensures
        r == fmul(a as int, b as int),
        mag(r as int) <= 0x8_0000,
{
    proof {
        bound_prod(a as int, b as int, 0x4_0000, 0x2_0000);
        lemma_fmul_mag(a as int, b as int, 0x4_0000, 0x2_0000);
    }
    mul_fx(a, b)
}

/// Fixed-point product with both factors bounded by `0x1000_0000`.
fn mul28(a: i64, b: i64) -> (r: i64)
    requires
        mag(a as int) <= 0x1000_0000,
        mag(b as int) <= 0x1000_0000,
    ensures
        r == fmul(a as int, b as int),
        mag(r as int) <= 0x100_0000_0000,
{
    proof {
        bound_prod(a as int, b as int, 0x1000_0000, 0x1000_0000);
        lemma_fmul_mag(a as int, b as int, 0x1000_0000, 0x1000_0000);
    }
    mul_fx(a, b)
}

/// A component of a quaternion, divided by the integer square root of the
/// squared norm it contributes to, is at most one scale unit: the
/// normalized component has magnitude at most 1.0.
proof fn unit_comp_bound(c: int, n: int, s: int)
    requires
        c * c <= n,
        is_sqrt_floor(n, s),
        s >= 1,
    ensures
        mag(fdiv(c, s)) <= SCALE as int,
{
    assert(-s <= c <= s) by (nonlinear_arith)
        requires
            c * c <= n,
            n < (s + 1) * (s + 1),
            s >= 0;
    lemma_mag_mul(c, SCALE as int);
    mul_le(mag(c), s, SCALE as int, SCALE as int);
    lemma_tdiv_mag(c * SCALE, s, s * (SCALE as int));
    vstd::arithmetic::div_mod::lemma_div_multiples_vanish(SCALE as int, s);
}

/// A square of a component bounded by `0x3FFF_FFFF` stays well inside `i64`.
proof fn square_fits(a: int)
    requires
        mag(a) <= 0x3FFF_FFFF,
    ensures
        0 <= a * a <= 0x1000_0000_0000_0000,
{
    assert(0 <= a * a <= 0x1000_0000_0000_0000) by (nonlinear_arith)
        requires
            -0x3FFF_FFFF <= a <= 0x3FFF_FFFF;
}

/// Bounded factors give a bounded product.
proof fn bound_prod(a: int, b: int, ma: int, mb: int)
    requires
        0 <= ma,
        0 <= mb,
        mag(a) <= ma,
        mag(b) <= mb,
    ensures
        mag(a * b) <= ma * mb,
{
    lemma_mag_mul(a, b);
    mul_le(mag(a), ma, mag(b), mb);
}

/// Multiplication of nonnegative integers is monotone in both arguments.
proof fn mul_le(a: int, ma: int, b: int, mb: int)
    requires
        0 <= a <= ma,
        0 <= b <= mb,
    ensures
        a * b <= ma * mb,
{
    assert(a * b <= ma * mb) by (nonlinear_arith)
        requires
            0 <= a <= ma,
            0 <= b <= mb;
}

} // verus!
