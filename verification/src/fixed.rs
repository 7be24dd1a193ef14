//! Binary fixed-point scalars: an `i64` raw value stands for `raw / SCALE`.
//!
//! Multiplication and division round toward zero, exactly as the hardware
//! float-to-int conversion the format replaces. The spec functions `tmul`
//! and `tdiv` pin every executable result down to an `int` expression.

use vstd::prelude::*;

verus! {

/// Raw units per 1.0: the fixed-point scale factor.
pub const SCALE: i64 = 65536;

/// Magnitude (absolute value) of a mathematical integer.
pub open spec fn mag(a: int) -> int {
    if a < 0 {
        -a
    } else {
        a
    }
}

/// Division truncating toward zero (the rounding of Rust's `/` and of
/// float-to-int casts), defined for `b != 0` via magnitudes, which makes
/// the sign behaviour explicit: Euclidean division on the magnitudes,
/// negated when the signs differ.
pub open spec fn tdiv(a: int, b: int) -> int {
    if (a < 0) != (b < 0) {
        -(mag(a) / mag(b))
    } else {
        mag(a) / mag(b)
    }
}

/// Fixed-point product: the exact integer product, scaled back down with
/// truncation toward zero.
pub open spec fn fmul(a: int, b: int) -> int {
    tdiv(a * b, SCALE as int)
}

/// Fixed-point quotient: the dividend scaled up, divided with truncation
/// toward zero.
pub open spec fn fdiv(a: int, b: int) -> int {
    tdiv(a * SCALE, b)
}

/// Truncating division of `a` by a positive divisor, the building block of
/// the fixed-point operations.
pub fn trunc_div(a: i64, b: i64) -> (r: i64)
    requires
        b > 0,
        a > i64::MIN,
    ensures
        r == tdiv(a as int, b as int),
        mag(r as int) == mag(a as int) / (b as int),
{
    if a >= 0 {
        a / b
    } else {
        -((-a) / b)
    }
}

/// Fixed-point multiplication: exact product scaled down, truncating toward
/// zero. The caller bounds the product so the intermediate fits an `i64`.
pub fn mul_fx(a: i64, b: i64) -> (r: i64)
    requires
        mag(a * b) <= 0x4000_0000_0000_0000,
    ensures
        r == fmul(a as int, b as int),
        mag(r as int) == mag(a * b) / (SCALE as int),
{
    let p: i64 = a * b;
    trunc_div(p, SCALE)
}

/// Fixed-point division, truncating toward zero; the divisor may have either
/// sign but not be zero.
pub fn div_fx(a: i64, b: i64) -> (r: i64)
    requires
        b != 0,
        b > i64::MIN,
        mag(a as int) < 0x4000_0000_0000,
    ensures
        r == fdiv(a as int, b as int),
        mag(r as int) == mag(a * SCALE) / mag(b as int),
{
    let p: i64 = a * SCALE;
    if b > 0 {
        trunc_div(p, b)
    } else {
        let r: i64 = trunc_div(p, -b);
        proof {
            assert(tdiv(p as int, b as int) == -tdiv(p as int, -b as int));
        }
        -r
    }
}

/// Fixed-point multiplication through a 128-bit intermediate, for products
/// whose unscaled value overflows an `i64` but whose scaled result fits.
pub fn mul_fx_wide(a: i64, b: i64) -> (r: i64)
    requires
        mag(a as int * b as int) <= 0x7FFF_FFFF_FFFF_FFFF * (SCALE as int),
    ensures
        r == fmul(a as int, b as int),
        mag(r as int) == mag(a as int * b as int) / (SCALE as int),
{
    proof {
        assert(mag(a as int * b as int) <= 0x4000_0000_0000_0000_0000_0000_0000_0000int)
            by (nonlinear_arith)
            requires
                -0x8000_0000_0000_0000 <= a <= 0x7FFF_FFFF_FFFF_FFFF,
                -0x8000_0000_0000_0000 <= b <= 0x7FFF_FFFF_FFFF_FFFF;
        lemma_tdiv_mag(
            a as int * b as int,
            SCALE as int,
            0x7FFF_FFFF_FFFF_FFFF * (SCALE as int),
        );
    }
    let p: i128 = (a as i128) * (b as i128);
    let q: i128 = if p >= 0 {
        p / (SCALE as i128)
    } else {
        -((-p) / (SCALE as i128))
    };
    q as i64
}

/// Truncating division by a positive divisor never grows a magnitude bound:
/// `mag(a) <= m` gives `mag(tdiv(a, b)) <= m / b`.
pub proof fn lemma_tdiv_mag(a: int, b: int, m: int)
    requires
        b > 0,
        mag(a) <= m,
    ensures
        mag(tdiv(a, b)) == mag(a) / b,
        mag(tdiv(a, b)) <= m / b,
        mag(tdiv(a, b)) >= 0,
{
    vstd::arithmetic::div_mod::lemma_div_pos_is_pos(mag(a), b);
    vstd::arithmetic::div_mod::lemma_div_is_ordered(mag(a), m, b);
}

/// Magnitudes multiply: `mag(a * b) == mag(a) * mag(b)`.
pub proof fn lemma_mag_mul(a: int, b: int)
    ensures
        mag(a * b) == mag(a) * mag(b),
{
    assert(mag(a * b) == mag(a) * mag(b)) by (nonlinear_arith);
}

/// A bound on both factors bounds a fixed-point product:
/// `mag(fmul(a, b)) <= ma * mb / SCALE`.
pub proof fn lemma_fmul_mag(a: int, b: int, ma: int, mb: int)
    requires
        mag(a) <= ma,
        mag(b) <= mb,
    ensures
        mag(fmul(a, b)) <= ma * mb / (SCALE as int),
{
    lemma_mag_mul(a, b);
    assert(mag(a) * mag(b) <= ma * mb) by (nonlinear_arith)
        requires
            0 <= mag(a) <= ma,
            0 <= mag(b) <= mb;
    lemma_tdiv_mag(a * b, SCALE as int, ma * mb);
}

/// Fixed-point multiplication commutes.
pub proof fn lemma_fmul_comm(a: int, b: int)
    ensures
        fmul(a, b) == fmul(b, a),
{
    assert(a * b == b * a) by (nonlinear_arith);
}

/// Negating one factor negates a fixed-point product exactly, because the
/// rounding truncates toward zero (an odd function).
pub proof fn lemma_fmul_neg(a: int, b: int)
    ensures
        fmul(a, -b) == -fmul(a, b),
        fmul(-a, b) == -fmul(a, b),
{
    assert(a * (-b) == -(a * b)) by (nonlinear_arith);
    assert((-a) * b == -(a * b)) by (nonlinear_arith);
}

/// Multiplying by the fixed-point unit (`SCALE`, the value 1.0) is exact.
pub proof fn lemma_fmul_one(a: int)
    ensures
        fmul(a, SCALE as int) == a,
        fmul(SCALE as int, a) == a,
{
    lemma_fmul_comm(a, SCALE as int);
    assert(mag(a * SCALE) == mag(a) * SCALE) by (nonlinear_arith);
    vstd::arithmetic::div_mod::lemma_div_multiples_vanish(mag(a), SCALE as int);
    assert(mag(a) * SCALE == SCALE * mag(a)) by (nonlinear_arith);
}

/// Multiplying by zero gives zero.
pub proof fn lemma_fmul_zero(a: int)
    ensures
        fmul(a, 0) == 0,
        fmul(0, a) == 0,
{
    assert(a * 0 == 0) by (nonlinear_arith);
    assert(0 * a == 0) by (nonlinear_arith);
}

/// A fixed-point square is nonnegative.
pub proof fn lemma_fmul_square_nonneg(a: int)
    ensures
        fmul(a, a) >= 0,
        mag(fmul(a, a)) == fmul(a, a),
{
    assert(a * a >= 0) by (nonlinear_arith);
    lemma_tdiv_mag(a * a, SCALE as int, mag(a * a));
}

} // verus!
