//! The algebraic laws of the engine, stated and proved once and for all:
//! inverse correctness, non-commutativity, preservation of length by the
//! exact sandwich product, the identity rotation, and the depth-test
//! properties of the rasterizer.

use vstd::prelude::*;
use crate::fixed::{SCALE, fdiv, tdiv, mag, lemma_mag_mul};
use crate::fixed::{lemma_fmul_comm, lemma_fmul_neg, lemma_fmul_one, lemma_fmul_zero};
use crate::quat::{Quatv, qmul, qinv, qident, qnorm, qtransform, qsum_sq, norm2_raw};
use crate::quat::{is_sqrt_floor, sqrt_floor, lemma_sqrt_floor_exists};
use crate::raster::plot;

verus! {

/// The exact (unrounded) Hamilton product over the mathematical integers:
/// the reference the fixed-point product approximates.
pub open spec fn emul(a: Quatv, b: Quatv) -> Quatv {
    Quatv {
        w: a.w * b.w - a.i * b.i - a.j * b.j - a.k * b.k,
        i: a.w * b.i + a.i * b.w + a.j * b.k - a.k * b.j,
        j: a.w * b.j - a.i * b.k + a.j * b.w + a.k * b.i,
        k: a.w * b.k + a.i * b.j - a.j * b.i + a.k * b.w,
    }
}

/// The conjugate: vector part negated. For a unit quaternion it is the
/// exact inverse.
pub open spec fn econj(a: Quatv) -> Quatv {
    Quatv { w: a.w, i: -a.i, j: -a.j, k: -a.k }
}

/// The reciprocal of the fixed-point unit is the unit itself.
proof fn lemma_fdiv_one_one()
    ensures
        fdiv(SCALE as int, SCALE as int) == SCALE as int,
{
    assert(mag(0x1_0000_0000int) == 0x1_0000_0000int);
    assert(mag(0x10000int) == 0x10000int);
    assert(0x1_0000_0000int / 0x10000int == 0x10000int);
    assert(tdiv(0x1_0000_0000int, 0x10000int) == 0x10000int);
    assert((SCALE as int) * (SCALE as int) == 0x1_0000_0000int);
}

/// A unit quaternion times its inverse is the identity: for any quaternion
/// whose fixed-point squared norm is exactly one, the fixed-point product
/// with its inverse is exactly the identity quaternion — the truncations
/// cancel because rounding toward zero is an odd function.
pub proof fn lemma_multiply_inverse_is_identity(q: Quatv)
    requires
        qsum_sq(q) == SCALE as int,
    ensures
        qmul(q, qinv(q)) == qident(),
{
    lemma_fdiv_one_one();
    lemma_fmul_one(q.w);
    lemma_fmul_one(-q.i);
    lemma_fmul_one(-q.j);
    lemma_fmul_one(-q.k);
    assert(qinv(q) == Quatv { w: q.w, i: -q.i, j: -q.j, k: -q.k });
    lemma_fmul_neg(q.w, q.i);
    lemma_fmul_neg(q.w, q.j);
    lemma_fmul_neg(q.w, q.k);
    lemma_fmul_neg(q.i, q.i);
    lemma_fmul_neg(q.i, q.j);
    lemma_fmul_neg(q.i, q.k);
    lemma_fmul_neg(q.j, q.i);
    lemma_fmul_neg(q.j, q.j);
    lemma_fmul_neg(q.j, q.k);
    lemma_fmul_neg(q.k, q.i);
    lemma_fmul_neg(q.k, q.j);
    lemma_fmul_neg(q.k, q.k);
    lemma_fmul_comm(q.w, q.i);
    lemma_fmul_comm(q.w, q.j);
    lemma_fmul_comm(q.w, q.k);
    lemma_fmul_comm(q.i, q.j);
    lemma_fmul_comm(q.i, q.k);
    lemma_fmul_comm(q.j, q.k);
}

/// Quaternion multiplication is not commutative: two quaternions whose
/// products differ in both orders exist (the basis elements i and j, whose
/// products are k and -k).
pub proof fn lemma_multiply_not_commutative()
    ensures
        exists|a: Quatv, b: Quatv| qmul(a, b) != qmul(b, a),
{
    let a = Quatv { w: 0, i: SCALE as int, j: 0, k: 0 };
    let b = Quatv { w: 0, i: 0, j: SCALE as int, k: 0 };
    lemma_fmul_one(SCALE as int);
    lemma_fmul_zero(0);
    lemma_fmul_zero(SCALE as int);
    assert(qmul(a, b).k == SCALE as int);
    assert(qmul(b, a).k == -(SCALE as int));
    assert(qmul(a, b) != qmul(b, a));
}

/// The exact squared norm is multiplicative over the exact Hamilton product
/// (Euler's four-square identity).
pub proof fn lemma_norm2_multiplicative(a: Quatv, b: Quatv)
    ensures
        norm2_raw(emul(a, b)) == norm2_raw(a) * norm2_raw(b),
{
    four_square(a.w, a.i, a.j, a.k, b.w, b.i, b.j, b.k);
}

/// Euler's four-square identity over plain integers, assembled from the
/// square expansions of the four components, the distribution of the right
/// side, and the pairwise cancellation of the cross monomials.
#[verifier::rlimit(50)]
proof fn four_square(p: int, q: int, r: int, s: int, t: int, u: int, v: int, w: int)
    ensures
        (p * t - q * u - r * v - s * w) * (p * t - q * u - r * v - s * w) + (p * u + q * t + r * w
            - s * v) * (p * u + q * t + r * w - s * v) + (p * v - q * w + r * t + s * u) * (p * v
            - q * w + r * t + s * u) + (p * w + q * v - r * u + s * t) * (p * w + q * v - r * u + s
            * t) == (p * p + q * q + r * r + s * s) * (t * t + u * u + v * v + w * w),
{
    sq_pmmm(p * t, q * u, r * v, s * w);
    sq_pppm(p * u, q * t, r * w, s * v);
    sq_pmpp(p * v, q * w, r * t, s * u);
    sq_ppmp(p * w, q * v, r * u, s * t);
    dist44(p * p, q * q, r * r, s * s, t * t, u * u, v * v, w * w);
    sqm(p, t);
    sqm(p, u);
    sqm(p, v);
    sqm(p, w);
    sqm(q, t);
    sqm(q, u);
    sqm(q, v);
    sqm(q, w);
    sqm(r, t);
    sqm(r, u);
    sqm(r, v);
    sqm(r, w);
    sqm(s, t);
    sqm(s, u);
    sqm(s, v);
    sqm(s, w);
    swap(p, t, q, u);
    swap(p, t, r, v);
    swap(p, t, s, w);
    swap(q, u, r, v);
    swap(q, u, s, w);
    swap(r, v, s, w);
    swap(p, u, r, w);
    swap(p, u, s, v);
    swap(q, t, r, w);
    swap(q, t, s, v);
    swap(p, v, q, w);
    swap(r, t, s, u);
}

/// Expansion of `(A - B - C - D)^2` into squares and cross products.
proof fn sq_pmmm(a: int, b: int, c: int, d: int)
    by (nonlinear_arith)
    ensures
        (a - b - c - d) * (a - b - c - d) == a * a + b * b + c * c + d * d - 2 * (a * b) - 2 * (a
            * c) - 2 * (a * d) + 2 * (b * c) + 2 * (b * d) + 2 * (c * d),
{
}

/// Expansion of `(A + B + C - D)^2` into squares and cross products.
proof fn sq_pppm(a: int, b: int, c: int, d: int)
    by (nonlinear_arith)
    ensures
        (a + b + c - d) * (a + b + c - d) == a * a + b * b + c * c + d * d + 2 * (a * b) + 2 * (a
            * c) - 2 * (a * d) + 2 * (b * c) - 2 * (b * d) - 2 * (c * d),
{
}

/// Expansion of `(A - B + C + D)^2` into squares and cross products.
proof fn sq_pmpp(a: int, b: int, c: int, d: int)
    by (nonlinear_arith)
    ensures
        (a - b + c + d) * (a - b + c + d) == a * a + b * b + c * c + d * d - 2 * (a * b) + 2 * (a
            * c) + 2 * (a * d) - 2 * (b * c) - 2 * (b * d) + 2 * (c * d),
{
}

/// Expansion of `(A + B - C + D)^2` into squares and cross products.
proof fn sq_ppmp(a: int, b: int, c: int, d: int)
    by (nonlinear_arith)
    ensures
        (a + b - c + d) * (a + b - c + d) == a * a + b * b + c * c + d * d + 2 * (a * b) - 2 * (a
            * c) + 2 * (a * d) - 2 * (b * c) + 2 * (b * d) - 2 * (c * d),
{
}

/// Distribution of a product of two four-term sums.
#[verifier::rlimit(100)]
proof fn dist44(
    a1: int,
    a2: int,
    a3: int,
    a4: int,
    b1: int,
    b2: int,
    b3: int,
    b4: int,
)
    by (nonlinear_arith)
    ensures
        (a1 + a2 + a3 + a4) * (b1 + b2 + b3 + b4) == a1 * b1 + a1 * b2 + a1 * b3 + a1 * b4 + a2
            * b1 + a2 * b2 + a2 * b3 + a2 * b4 + a3 * b1 + a3 * b2 + a3 * b3 + a3 * b4 + a4 * b1
            + a4 * b2 + a4 * b3 + a4 * b4,
{
}

/// The square of a product is the product of the squares.
proof fn sqm(a: int, b: int)
    by (nonlinear_arith)
    ensures
        (a * b) * (a * b) == (a * a) * (b * b),
{
}

/// Swapping the second factors of two products preserves the monomial.
proof fn swap(a: int, b: int, c: int, d: int)
    by (nonlinear_arith)
    ensures
        (a * b) * (c * d) == (a * d) * (c * b),
{
}

/// Conjugation preserves the exact squared norm.
pub proof fn lemma_conj_norm2(a: Quatv)
    ensures
        norm2_raw(econj(a)) == norm2_raw(a),
{
    assert((-a.i) * (-a.i) == a.i * a.i) by (nonlinear_arith);
    assert((-a.j) * (-a.j) == a.j * a.j) by (nonlinear_arith);
    assert((-a.k) * (-a.k) == a.k * a.k) by (nonlinear_arith);
}

/// Rotation preserves length: under the exact sandwich product, the squared
/// norm of the rotated point is the point's squared norm scaled by the
/// square of the operator's squared norm — so a unit operator preserves the
/// Euclidean length of any embedded point exactly. The fixed-point
/// transform realizes this identity up to its rounding.
pub proof fn lemma_rotation_preserves_norm(t: Quatv, p: Quatv)
    ensures
        norm2_raw(emul(emul(t, p), econj(t))) == norm2_raw(t) * norm2_raw(p) * norm2_raw(t),
{
    lemma_norm2_multiplicative(t, p);
    lemma_norm2_multiplicative(emul(t, p), econj(t));
    lemma_conj_norm2(t);
}

/// The identity rotation is a no-op: transforming any quaternion by the
/// identity returns it unchanged, exactly, including every rounding step.
pub proof fn lemma_identity_transform(p: Quatv)
    ensures
        qtransform(p, qident()) == p,
{
    reveal(qtransform);
    let id = qident();
    lemma_fmul_one(SCALE as int);
    lemma_fmul_zero(0);
    assert(qsum_sq(id) == SCALE as int);
    lemma_fdiv_one_one();
    assert(qinv(id) == id);
    lemma_fmul_one(p.w);
    lemma_fmul_one(p.i);
    lemma_fmul_one(p.j);
    lemma_fmul_one(p.k);
    lemma_fmul_zero(p.w);
    lemma_fmul_zero(p.i);
    lemma_fmul_zero(p.j);
    lemma_fmul_zero(p.k);
    assert(qmul(id, p) == p);
    assert(qmul(p, id) == p);
}

/// A truncating division misses its dividend by less than the divisor:
/// `|a - tdiv(a, b) * b| < b`.
proof fn tdiv_rem(a: int, b: int)
    requires
        b > 0,
    ensures
        mag(a - tdiv(a, b) * b) < b,
{
    vstd::arithmetic::div_mod::lemma_fundamental_div_mod(mag(a), b);
    vstd::arithmetic::div_mod::lemma_mod_division_less_than_divisor(mag(a), b);
    let quo = mag(a) / b;
    if a >= 0 {
        assert(quo * b == b * quo) by (nonlinear_arith);
    } else {
        assert((-quo) * b == -(b * quo)) by (nonlinear_arith);
    }
}

/// One component of a normalization: the rounding error `e` of the scaled
/// division, the expansion of the squared component, and the bounds the
/// error terms obey.
proof fn comp_facts(c: int, n: int, s: int)
    requires
        c * c <= n,
        is_sqrt_floor(n, s),
        s >= 1,
    ensures
        (fdiv(c, s) * fdiv(c, s)) * (s * s) == (c * c) * ((SCALE as int) * (SCALE as int)) - 2 * (
        SCALE as int) * (c * (c * (SCALE as int) - fdiv(c, s) * s)) + (c * (SCALE as int) - fdiv(
            c,
            s,
        ) * s) * (c * (SCALE as int) - fdiv(c, s) * s),
        mag(c * (c * (SCALE as int) - fdiv(c, s) * s)) < s * s,
        0 <= (c * (SCALE as int) - fdiv(c, s) * s) * (c * (SCALE as int) - fdiv(c, s) * s) < s * s,
{
    let d = fdiv(c, s);
    let e = c * (SCALE as int) - d * s;
    tdiv_rem(c * (SCALE as int), s);
    assert(mag(e) < s);
    assert(-s <= c <= s) by (nonlinear_arith)
        requires
            c * c <= n,
            n < (s + 1) * (s + 1),
            s >= 0;
    lemma_mag_mul(c, e);
    assert(mag(c) * mag(e) < s * s) by (nonlinear_arith)
        requires
            0 <= mag(c) <= s,
            0 <= mag(e) <= s - 1,
            s >= 1;
    assert((d * d) * (s * s) == (d * s) * (d * s)) by (nonlinear_arith);
    assert(d * s == c * (SCALE as int) - e);
    assert((c * (SCALE as int) - e) * (c * (SCALE as int) - e) == (c * c) * ((SCALE as int) * (
    SCALE as int)) - 2 * (SCALE as int) * (c * e) + e * e) by (nonlinear_arith);
    assert(0 <= e * e && e * e < s * s) by (nonlinear_arith)
        requires
            mag(e) <= s - 1,
            s >= 1;
}

/// Unit norm after normalization: for any quaternion whose Euclidean norm
/// is at least one half, the raw squared norm of the normalized result is
/// within a few parts in four thousand of exactly one — each component's
/// rounding error is below one raw unit, so the squared errors stay below
/// `16 * SCALE + 24` raw-squared units. (A nonzero quaternion far below the
/// threshold keeps too few significant bits for the bound: all-ones raw
/// components normalize to norm-squared 2.)
pub proof fn lemma_normalize_unit_norm(q: Quatv)
    requires
        norm2_raw(q) >= 0x4000_0000,
    ensures
        norm2_raw(qnorm(q)) > (SCALE as int) * (SCALE as int) - 8 * (SCALE as int),
        norm2_raw(qnorm(q)) < (SCALE as int) * (SCALE as int) + 16 * (SCALE as int) + 24,
{
    let sc = SCALE as int;
    assert(q.w * q.w >= 0) by (nonlinear_arith);
    assert(q.i * q.i >= 0) by (nonlinear_arith);
    assert(q.j * q.j >= 0) by (nonlinear_arith);
    assert(q.k * q.k >= 0) by (nonlinear_arith);
    let n = q.w * q.w + q.i * q.i + q.j * q.j + q.k * q.k;
    assert(n == norm2_raw(q));
    lemma_sqrt_floor_exists(n as nat);
    let s = sqrt_floor(n);
    assert(s + 1 > 32768) by (nonlinear_arith)
        requires
            (s + 1) * (s + 1) > 0x4000_0000,
            s >= 0;
    assert(s >= 32768);
    comp_facts(q.w, n, s);
    comp_facts(q.i, n, s);
    comp_facts(q.j, n, s);
    comp_facts(q.k, n, s);
    let dw = fdiv(q.w, s);
    let di = fdiv(q.i, s);
    let dj = fdiv(q.j, s);
    let dk = fdiv(q.k, s);
    let xw = q.w * (q.w * sc - dw * s);
    let xi = q.i * (q.i * sc - di * s);
    let xj = q.j * (q.j * sc - dj * s);
    let xk = q.k * (q.k * sc - dk * s);
    let ew = (q.w * sc - dw * s) * (q.w * sc - dw * s);
    let ei = (q.i * sc - di * s) * (q.i * sc - di * s);
    let ej = (q.j * sc - dj * s) * (q.j * sc - dj * s);
    let ek = (q.k * sc - dk * s) * (q.k * sc - dk * s);
    let t = dw * dw + di * di + dj * dj + dk * dk;
    assert(norm2_raw(qnorm(q)) == t);
    assert(t * (s * s) == (dw * dw) * (s * s) + (di * di) * (s * s) + (dj * dj) * (s * s) + (dk
        * dk) * (s * s)) by (nonlinear_arith)
        requires
            t == dw * dw + di * di + dj * dj + dk * dk;
    assert(n * (sc * sc) == (q.w * q.w) * (sc * sc) + (q.i * q.i) * (sc * sc) + (q.j * q.j) * (sc
        * sc) + (q.k * q.k) * (sc * sc)) by (nonlinear_arith)
        requires
            n == q.w * q.w + q.i * q.i + q.j * q.j + q.k * q.k;
    assert(t * (s * s) == n * (sc * sc) - 2 * sc * xw - 2 * sc * xi - 2 * sc * xj - 2 * sc * xk
        + ew + ei + ej + ek);
    // Each cross term has magnitude below s^2 and each squared error sits
    // in [0, s^2), so the whole deviation is at most 8 * sc * s^2 + 4 * s^2.
    assert(xw < s * s && xi < s * s && xj < s * s && xk < s * s);
    assert(-(s * s) < xw && -(s * s) < xi && -(s * s) < xj && -(s * s) < xk);
    assert(ew >= 0 && ei >= 0 && ej >= 0 && ek >= 0);
    assert(ew < s * s && ei < s * s && ej < s * s && ek < s * s);
    assert(t * (s * s) > n * (sc * sc) - 8 * sc * (s * s)) by (nonlinear_arith)
        requires
            sc == 0x10000,
            t * (s * s) == n * (sc * sc) - 2 * sc * xw - 2 * sc * xi - 2 * sc * xj - 2 * sc * xk
                + ew + ei + ej + ek,
            xw < s * s && xi < s * s && xj < s * s && xk < s * s,
            ew >= 0 && ei >= 0 && ej >= 0 && ek >= 0;
    assert(t * (s * s) < n * (sc * sc) + 8 * sc * (s * s) + 4 * (s * s)) by (nonlinear_arith)
        requires
            sc == 0x10000,
            t * (s * s) == n * (sc * sc) - 2 * sc * xw - 2 * sc * xi - 2 * sc * xj - 2 * sc * xk
                + ew + ei + ej + ek,
            -(s * s) < xw && -(s * s) < xi && -(s * s) < xj && -(s * s) < xk,
            ew < s * s && ei < s * s && ej < s * s && ek < s * s;
    assert((s + 1) * (s + 1) == s * s + 2 * s + 1) by (nonlinear_arith);
    assert(n * (sc * sc) >= (s * s) * (sc * sc)) by (nonlinear_arith)
        requires
            n >= s * s;
    assert(n * (sc * sc) < (s * s) * (sc * sc) + (2 * s + 1) * (sc * sc)) by (nonlinear_arith)
        requires
            sc == 0x10000,
            n < s * s + 2 * s + 1;
    assert(t * (s * s) > (sc * sc - 8 * sc) * (s * s)) by (nonlinear_arith)
        requires
            t * (s * s) > (s * s) * (sc * sc) - 8 * sc * (s * s);
    assert(t > sc * sc - 8 * sc) by (nonlinear_arith)
        requires
            t * (s * s) > (sc * sc - 8 * sc) * (s * s),
            s >= 1;
    // The leftover linear-in-s terms are swallowed by 8 * sc * s^2 + 20 * s^2
    // once s is at least half a scale unit.
    assert(s * s >= 32768 * s) by (nonlinear_arith)
        requires
            s >= 32768;
    assert(2 * s * (sc * sc) + sc * sc <= 8 * sc * (s * s) + 20 * (s * s) - 1) by (nonlinear_arith)
        requires
            sc == 0x10000,
            s >= 32768,
            s * s >= 32768 * s;
    assert(t * (s * s) < (sc * sc + 16 * sc + 24) * (s * s)) by (nonlinear_arith)
        requires
            t * (s * s) < (s * s) * (sc * sc) + 2 * s * (sc * sc) + sc * sc + 8 * sc * (s * s) + 4
                * (s * s),
            2 * s * (sc * sc) + sc * sc <= 8 * sc * (s * s) + 20 * (s * s) - 1;
    assert(t < sc * sc + 16 * sc + 24) by (nonlinear_arith)
        requires
            t * (s * s) < (sc * sc + 16 * sc + 24) * (s * s),
            s >= 1;
}

/// Plotting is idempotent: plotting the same point and tag twice into any
/// buffer pair leaves exactly the state of plotting it once — the second
/// write fails the strict depth test against its own depth.
pub proof fn lemma_plot_idempotent(s: Seq<char>, d: Seq<i64>, lin: int, ooz: i64, ch: char)
    ensures
        ({
            let (s1, d1) = plot(s, d, lin, ooz, ch);
            plot(s1, d1, lin, ooz, ch) == (s1, d1)
        }),
{
    reveal(plot);
}

/// The nearer point wins: when two points fall on the same in-range cell
/// with inverse depths `ooz1 < ooz2`, and the nearer one beats the stored
/// depth, then after plotting both — in either order — the cell holds the
/// nearer point's tag and depth.
pub proof fn lemma_nearer_wins(
    s: Seq<char>,
    d: Seq<i64>,
    lin: int,
    ooz1: i64,
    ch1: char,
    ooz2: i64,
    ch2: char,
)
    requires
        0 <= lin < d.len(),
        s.len() == d.len(),
        ooz1 < ooz2,
        d[lin] < ooz2,
    ensures
        ({
            let (s1, d1) = plot(s, d, lin, ooz1, ch1);
            let (s12, d12) = plot(s1, d1, lin, ooz2, ch2);
            s12[lin] == ch2 && d12[lin] == ooz2
        }),
        ({
            let (s2, d2) = plot(s, d, lin, ooz2, ch2);
            let (s21, d21) = plot(s2, d2, lin, ooz1, ch1);
            s21[lin] == ch2 && d21[lin] == ooz2
        }),
{
    reveal(plot);
}

} // verus!
