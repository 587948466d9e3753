//! Fixed-point decimals with 18 fractional digits, held as `u128` atomics.
use cosmwasm_std::{Decimal, Uint128};
use vstd::prelude::*;

verus! {

/// The atomics of the decimal 1.0.
pub const DECIMAL_FRACTIONAL: u128 = 1_000_000_000_000_000_000;

/// `power × fraction`, rounded down, where `fraction` is given by its atomics.
pub open spec fn spec_mul_floor(power: u128, fraction: u128) -> int {
    (power as int) * (fraction as int) / (DECIMAL_FRACTIONAL as int)
}

/// The integer part of a decimal given by its atomics.
pub open spec fn spec_floor(value: u128) -> int {
    (value as int) / (DECIMAL_FRACTIONAL as int)
}

/// Absolute difference of two decimals.
pub open spec fn spec_abs_diff(a: u128, b: u128) -> int {
    if a >= b {
        a - b
    } else {
        b - a
    }
}

/// Relies on `Uint128 * Decimal` of cosmwasm-std: the product rounded down,
/// computed through a 256-bit intermediate; it panics only when the result
/// does not fit in 128 bits.
#[verifier::external_body]
fn mul_floor_ext(power: u128, fraction: u128) -> (r: u128)
    requires
        spec_mul_floor(power, fraction) <= u128::MAX,
    ensures
        r == spec_mul_floor(power, fraction),
{
    (Uint128::new(power) * Decimal::raw(fraction)).u128()
}

/// `power × fraction` rounded down, for a fraction in `[0, 1]`.
pub fn mul_floor(power: u128, fraction: u128) -> (r: u128)
    requires
        fraction <= DECIMAL_FRACTIONAL,
    ensures
        r == spec_mul_floor(power, fraction),
        r <= power,
{
    proof {
        assert((power as int) * (fraction as int) <= (power as int) * (DECIMAL_FRACTIONAL as int))
            by (nonlinear_arith)
            requires
                fraction <= DECIMAL_FRACTIONAL,
        ;
        assert((power as int) * (DECIMAL_FRACTIONAL as int) / (DECIMAL_FRACTIONAL as int)
            == power as int) by (nonlinear_arith);
        vstd::arithmetic::div_mod::lemma_div_is_ordered(
            (power as int) * (fraction as int),
            (power as int) * (DECIMAL_FRACTIONAL as int),
            DECIMAL_FRACTIONAL as int,
        );
    }
    mul_floor_ext(power, fraction)
}

/// Relies on `Decimal::to_uint_floor` of cosmwasm-std: the atomics divided by
/// 10^18.
#[verifier::external_body]
pub(crate) fn to_uint_floor(value: u128) -> (r: u128)
    ensures
        r == spec_floor(value),
{
    Decimal::raw(value).to_uint_floor().u128()
}

/// Absolute difference of two decimals.
pub fn abs_diff(a: u128, b: u128) -> (r: u128)
    ensures
        r == spec_abs_diff(a, b),
{
    if a >= b {
        a - b
    } else {
        b - a
    }
}

} // verus!
