//! Saturating fixed-point arithmetic with six decimal places, stored in `i64`.
//!
//! Every operation widens to `i128`, so no intermediate can overflow, and the
//! result is saturated back into the `i64` range. Division rounds toward
//! zero, as `/` does on machine integers.

use vstd::prelude::*;

verus! {

/// Number of ticks that represent one unit: a value `v` stands for the
/// rational `v / FX_SCALE`.
pub const FX_SCALE: i64 = 1_000_000;

/// One, as a fixed-point value.
pub const FX_ONE: i64 = 1_000_000;

/// One half, as a fixed-point value.
pub const FX_HALF: i64 = 500_000;

/// Four, as a fixed-point value.
pub const FX_FOUR: i64 = 4_000_000;

/// Clamp a mathematical integer into the `i64` range.
pub open spec fn sat64(x: int) -> i64 {
    if x < i64::MIN {
        i64::MIN
    } else if x > i64::MAX {
        i64::MAX
    } else {
        x as i64
    }
}

/// Division rounding toward zero, the rounding `/` uses on machine integers.
pub open spec fn tdiv(a: int, b: int) -> int {
    if a >= 0 {
        a / b
    } else {
        -((-a) / b)
    }
}

/// Saturating fixed-point addition.
pub open spec fn fx_add(a: i64, b: i64) -> i64 {
    sat64(a + b)
}

/// Saturating fixed-point subtraction.
pub open spec fn fx_sub(a: i64, b: i64) -> i64 {
    sat64(a - b)
}

/// Saturating fixed-point negation.
pub open spec fn fx_neg(a: i64) -> i64 {
    sat64(-a)
}

/// Saturating fixed-point multiplication: the wide product is rescaled by
/// `FX_SCALE`, rounding toward zero.
pub open spec fn fx_mul(a: i64, b: i64) -> i64 {
    sat64(tdiv(a * b, FX_SCALE as int))
}

/// Saturating fixed-point division by a positive divisor: the numerator is
/// prescaled by `FX_SCALE`, rounding toward zero.
pub open spec fn fx_div(a: i64, b: i64) -> i64 {
    if b <= 0 {
        0
    } else {
        sat64(tdiv(a * FX_SCALE, b as int))
    }
}

/// Half of a fixed-point value, rounding toward zero.
pub open spec fn fx_half(a: i64) -> i64 {
    sat64(tdiv(a as int, 2))
}

/// The product of nonnegative fixed-point values is nonnegative.
pub proof fn lemma_fx_mul_nonneg(a: i64, b: i64)
    requires
        a >= 0,
        b >= 0,
    ensures
        fx_mul(a, b) >= 0,
{
    assert(a as int * b as int >= 0) by (nonlinear_arith)
        requires
            a >= 0,
            b >= 0,
    ;
    vstd::arithmetic::div_mod::lemma_div_pos_is_pos(a as int * b as int, FX_SCALE as int);
}

/// Multiplying by fixed-point one is the identity.
pub proof fn lemma_fx_mul_one(w: i64)
    ensures
        fx_mul(FX_ONE, w) == w,
        fx_mul(w, FX_ONE) == w,
{
    if w >= 0 {
        vstd::arithmetic::div_mod::lemma_div_multiples_vanish(w as int, FX_SCALE as int);
    } else {
        vstd::arithmetic::div_mod::lemma_div_multiples_vanish(-(w as int), FX_SCALE as int);
    }
}

/// Multiplying by zero gives zero.
pub proof fn lemma_fx_mul_zero(w: i64)
    ensures
        fx_mul(0, w) == 0,
        fx_mul(w, 0) == 0,
{
    vstd::arithmetic::div_mod::lemma_div_multiples_vanish(0, FX_SCALE as int);
}

/// Dividing by fixed-point one is the identity.
pub proof fn lemma_fx_div_one(w: i64)
    ensures
        fx_div(w, FX_ONE) == w,
{
    if w >= 0 {
        vstd::arithmetic::div_mod::lemma_div_multiples_vanish(w as int, FX_SCALE as int);
    } else {
        vstd::arithmetic::div_mod::lemma_div_multiples_vanish(-(w as int), FX_SCALE as int);
    }
}

/// Saturate a wide intermediate into the `i64` range.
pub fn clamp_wide(x: i128) -> (r: i64)
    ensures
        r == sat64(x as int),
{
    if x > i64::MAX as i128 {
        i64::MAX
    } else if x < i64::MIN as i128 {
        i64::MIN
    } else {
        x as i64
    }
}

/// Fixed-point addition.
pub fn fadd(a: i64, b: i64) -> (r: i64)
    ensures
        r == fx_add(a, b),
{
    clamp_wide(a as i128 + b as i128)
}

/// Fixed-point subtraction.
pub fn fsub(a: i64, b: i64) -> (r: i64)
    ensures
        r == fx_sub(a, b),
{
    clamp_wide(a as i128 - b as i128)
}

/// Fixed-point negation.
pub fn fneg(a: i64) -> (r: i64)
    ensures
        r == fx_neg(a),
{
    clamp_wide(-(a as i128))
}

/// Fixed-point multiplication.
pub fn fmul(a: i64, b: i64) -> (r: i64)
    ensures
        r == fx_mul(a, b),
{
    proof {
        assert(i64::MIN as int * i64::MAX as int <= a as int * b as int
            <= i64::MIN as int * i64::MIN as int) by (nonlinear_arith)
            requires
                i64::MIN <= a <= i64::MAX,
                i64::MIN <= b <= i64::MAX,
        ;
    }
    let w: i128 = (a as i128) * (b as i128);
    clamp_wide(w / (FX_SCALE as i128))
}

/// Fixed-point division by a positive divisor.
pub fn fdiv(a: i64, b: i64) -> (r: i64)
    requires
        b > 0,
    ensures
        r == fx_div(a, b),
{
    proof {
        assert(i64::MIN as int * FX_SCALE as int <= a as int * FX_SCALE as int
            <= i64::MAX as int * FX_SCALE as int) by (nonlinear_arith)
            requires
                i64::MIN <= a <= i64::MAX,
        ;
    }
    let w: i128 = (a as i128) * (FX_SCALE as i128);
    clamp_wide(w / (b as i128))
}

/// Half of a fixed-point value.
pub fn fhalf(a: i64) -> (r: i64)
    ensures
        r == fx_half(a),
{
    clamp_wide((a as i128) / 2)
}

} // verus!
