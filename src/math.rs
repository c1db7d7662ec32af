//! Integer and fixed-point arithmetic backed by `cosmwasm_std`'s `Uint128`
//! and `Decimal`. A decimal is carried as its atomics: the value times
//! `DECIMAL_FRACTIONAL`.
use cosmwasm_std::{Decimal, Uint128};
use vstd::prelude::*;

verus! {

/// The scale of a fixed-point decimal: `1.0` has this many atomics.
pub const DECIMAL_FRACTIONAL: u128 = 1_000_000_000_000_000_000;

/// `value * numerator / denominator` in exact integer arithmetic, floored.
pub open spec fn ratio_of(value: int, numerator: int, denominator: int) -> int {
    value * numerator / denominator
}

/// `value * numerator / denominator` in exact integer arithmetic, rounded up.
pub open spec fn ceil_ratio_of(value: int, numerator: int, denominator: int) -> int {
    (value * numerator + denominator - 1) / denominator
}

/// Relies on `Uint128::checked_mul_ceil` with the fraction `(numerator, denominator)`:
/// the 256-bit quotient rounded up; an error on a zero denominator or a result
/// past `u128::MAX`.
#[verifier::external_body]
pub(crate) fn checked_mul_ceil(value: u128, numerator: u128, denominator: u128) -> (r: Option<u128>)
    ensures
        denominator == 0 ==> r is None,
        denominator > 0 && ceil_ratio_of(value as int, numerator as int, denominator as int) <= u128::MAX
            ==> r == Some(ceil_ratio_of(value as int, numerator as int, denominator as int) as u128),
        denominator > 0 && ceil_ratio_of(value as int, numerator as int, denominator as int) > u128::MAX
            ==> r is None,
{
    match Uint128::new(value).checked_mul_ceil((numerator, denominator)) {
        Ok(v) => Some(v.u128()),
        Err(_) => None,
    }
}

/// Relies on `Uint128::checked_multiply_ratio`: the floored quotient of the
/// 256-bit product, an error on a zero denominator or a result past `u128::MAX`.
#[verifier::external_body]
pub(crate) fn checked_multiply_ratio(value: u128, numerator: u128, denominator: u128) -> (r: Option<u128>)
    ensures
        denominator == 0 ==> r is None,
        denominator > 0 && ratio_of(value as int, numerator as int, denominator as int) <= u128::MAX
            ==> r == Some(ratio_of(value as int, numerator as int, denominator as int) as u128),
        denominator > 0 && ratio_of(value as int, numerator as int, denominator as int) > u128::MAX
            ==> r is None,
{
    match Uint128::new(value).checked_multiply_ratio(numerator, denominator) {
        Ok(v) => Some(v.u128()),
        Err(_) => None,
    }
}

/// Relies on `Decimal::checked_from_ratio`: the atomics of `numerator / denominator`,
/// that is `numerator * DECIMAL_FRACTIONAL / denominator` floored; an error on a
/// zero denominator or an overflow.
#[verifier::external_body]
pub(crate) fn decimal_from_ratio(numerator: u128, denominator: u128) -> (r: Option<u128>)
    ensures
        denominator == 0 ==> r is None,
        denominator > 0 && ratio_of(numerator as int, DECIMAL_FRACTIONAL as int, denominator as int) <= u128::MAX
            ==> r == Some(ratio_of(numerator as int, DECIMAL_FRACTIONAL as int, denominator as int) as u128),
        denominator > 0 && ratio_of(numerator as int, DECIMAL_FRACTIONAL as int, denominator as int) > u128::MAX
            ==> r is None,
{
    match Decimal::checked_from_ratio(numerator, denominator) {
        Ok(d) => Some(d.atomics().u128()),
        Err(_) => None,
    }
}

/// Relies on `Decimal::checked_mul`: the atomics of the product of two decimals,
/// `a * b / DECIMAL_FRACTIONAL` floored over a 256-bit product; an error when
/// that exceeds `u128::MAX`.
#[verifier::external_body]
pub(crate) fn decimal_mul(a: u128, b: u128) -> (r: Option<u128>)
    ensures
        ratio_of(a as int, b as int, DECIMAL_FRACTIONAL as int) <= u128::MAX
            ==> r == Some(ratio_of(a as int, b as int, DECIMAL_FRACTIONAL as int) as u128),
        ratio_of(a as int, b as int, DECIMAL_FRACTIONAL as int) > u128::MAX ==> r is None,
{
    match Decimal::raw(a).checked_mul(Decimal::raw(b)) {
        Ok(d) => Some(d.atomics().u128()),
        Err(_) => None,
    }
}

/// Relies on `Uint128 * Decimal`: `value * d / DECIMAL_FRACTIONAL` floored over a
/// 256-bit product; it panics when that exceeds `u128::MAX`, which `requires` excludes.
#[verifier::external_body]
pub(crate) fn mul_decimal(value: u128, d: u128) -> (r: u128)
    requires
        ratio_of(value as int, d as int, DECIMAL_FRACTIONAL as int) <= u128::MAX,
    ensures
        r == ratio_of(value as int, d as int, DECIMAL_FRACTIONAL as int),
{
    (Uint128::new(value) * Decimal::raw(d)).u128()
}

/// A floored ratio whose factor is at most its divisor stays within the value.
pub proof fn lemma_ratio_bounded(value: int, numerator: int, denominator: int)
    requires
        value >= 0,
        0 <= numerator <= denominator,
        denominator > 0,
    ensures
        0 <= ratio_of(value, numerator, denominator) <= value,
{
    assert(value * numerator <= value * denominator) by (nonlinear_arith)
        requires value >= 0, numerator <= denominator;
    assert(value * numerator >= 0) by (nonlinear_arith)
        requires value >= 0, numerator >= 0;
    assert((value * denominator) / denominator == value) by (nonlinear_arith)
        requires denominator > 0;
    assert(value * numerator / denominator <= value * denominator / denominator) by (nonlinear_arith)
        requires value * numerator <= value * denominator, denominator > 0;
    assert(value * numerator / denominator >= 0) by (nonlinear_arith)
        requires value * numerator >= 0, denominator > 0;
}

/// A floored ratio whose factor is at least its divisor is at least the value.
pub proof fn lemma_ratio_at_least(value: int, numerator: int, denominator: int)
    requires
        value >= 0,
        numerator >= denominator,
        denominator > 0,
    ensures
        ratio_of(value, numerator, denominator) >= value,
{
    assert(value * numerator >= value * denominator) by (nonlinear_arith)
        requires value >= 0, numerator >= denominator;
    assert((value * denominator) / denominator == value) by (nonlinear_arith)
        requires denominator > 0;
    assert(value * numerator / denominator >= value * denominator / denominator) by (nonlinear_arith)
        requires value * numerator >= value * denominator, denominator > 0;
}

/// A 64-bit quantity as decimal atomics, divided by a positive integer, fits in 128 bits.
pub proof fn lemma_u64_decimal_fits(x: u64, denominator: int)
    requires
        denominator > 0,
    ensures
        0 <= ratio_of(x as int, DECIMAL_FRACTIONAL as int, denominator) <= u128::MAX,
{
    let f = DECIMAL_FRACTIONAL as int;
    assert(x * f <= 18_446_744_073_709_551_615int * f) by (nonlinear_arith)
        requires x <= 18_446_744_073_709_551_615int, f > 0;
    assert(x * f >= 0) by (nonlinear_arith)
        requires x >= 0, f > 0;
    assert((x * f) / denominator <= x * f) by (nonlinear_arith)
        requires x * f >= 0, denominator > 0;
    assert((x * f) / denominator >= 0) by (nonlinear_arith)
        requires x * f >= 0, denominator > 0;
}

/// A rounded-up ratio covers the exact product, and stays within the value when
/// its factor is at most its divisor.
pub proof fn lemma_ceil_ratio_bounds(value: int, numerator: int, denominator: int)
    requires
        value >= 0,
        numerator >= 0,
        denominator > 0,
    ensures
        ceil_ratio_of(value, numerator, denominator) * denominator >= value * numerator,
        ceil_ratio_of(value, numerator, denominator) >= 0,
        numerator <= denominator ==> ceil_ratio_of(value, numerator, denominator) <= value,
        numerator >= denominator ==> ceil_ratio_of(value, numerator, denominator) >= value,
{
    let c = ceil_ratio_of(value, numerator, denominator);
    let x = value * numerator;
    assert(x >= 0) by (nonlinear_arith) requires value >= 0, numerator >= 0, x == value * numerator;
    assert(c * denominator >= x) by (nonlinear_arith)
        requires c == (x + denominator - 1) / denominator, denominator > 0;
    assert(c >= 0) by (nonlinear_arith)
        requires c == (x + denominator - 1) / denominator, denominator > 0, x >= 0;
    if numerator <= denominator {
        assert(x <= value * denominator) by (nonlinear_arith)
            requires value >= 0, numerator <= denominator, x == value * numerator;
        assert(c <= value) by (nonlinear_arith)
            requires c == (x + denominator - 1) / denominator, denominator > 0, x <= value * denominator;
    }
    if numerator >= denominator {
        assert(x >= value * denominator) by (nonlinear_arith)
            requires value >= 0, numerator >= denominator, x == value * numerator;
        assert(c >= value) by (nonlinear_arith)
            requires c * denominator >= x, denominator > 0, x >= value * denominator;
    }
}

} // verus!
