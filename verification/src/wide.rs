//! Products of two wide integers, which need twice the width.

use vstd::prelude::*;

verus! {

/// Two to the power of sixty-four.
pub const HALF: u128 = 0x1_0000_0000_0000_0000;

/// The number that a high and a low part of the integer width make up.
pub open spec fn wide(high: u128, low: u128) -> int {
    high * 0x1_0000_0000_0000_0000_0000_0000_0000_0000 + low
}

/// The product of two numbers below two to the power of sixty-four.
fn half_product(x: u128, y: u128) -> (p: u128)
    requires
        x < HALF,
        y < HALF,
    ensures
        p == x * y,
{
    assert(x * y <= (HALF - 1) * (HALF - 1)) by (nonlinear_arith)
        requires
            x <= HALF - 1,
            y <= HALF - 1,
    ;
    x * y
}

/// The product of two integers, in a high and a low part.
pub fn wide_product(a: u128, b: u128) -> (r: (u128, u128))
    ensures
        wide(r.0, r.1) == a * b,
{
    let a_high = a / HALF;
    let a_low = a % HALF;
    let b_high = b / HALF;
    let b_low = b % HALF;
    let low_low = half_product(a_low, b_low);
    let low_high = half_product(a_low, b_high);
    let high_low = half_product(a_high, b_low);
    let high_high = half_product(a_high, b_high);
    assert(a * b == high_high * HALF * HALF + (low_high + high_low) * HALF + low_low) by (
        nonlinear_arith)
        requires
            a == a_high * HALF + a_low,
            b == b_high * HALF + b_low,
            low_low == a_low * b_low,
            low_high == a_low * b_high,
            high_low == a_high * b_low,
            high_high == a_high * b_high,
    ;
    assert(a * b < 0x1_0000_0000_0000_0000_0000_0000_0000_0000
        * 0x1_0000_0000_0000_0000_0000_0000_0000_0000) by (nonlinear_arith)
        requires
            a < 0x1_0000_0000_0000_0000_0000_0000_0000_0000,
            b < 0x1_0000_0000_0000_0000_0000_0000_0000_0000,
    ;
    let digit0 = low_low % HALF;
    let sum1 = low_low / HALF + low_high % HALF + high_low % HALF;
    let digit1 = sum1 % HALF;
    let sum2 = low_high / HALF + high_low / HALF + high_high % HALF + sum1 / HALF;
    let digit2 = sum2 % HALF;
    let digit3 = high_high / HALF + sum2 / HALF;
    let low = digit1 * HALF + digit0;
    let high = digit3 * HALF + digit2;
    (high, low)
}

} // verus!
