//! Integer powers that report what does not fit.

use crate::rational::{fits, ArithmeticError};
use vstd::arithmetic::power::{lemma0_pow, lemma1_pow, lemma_pow0, lemma_pow_increases, pow};
use vstd::math::abs;
use vstd::prelude::*;

verus! {

/// The magnitude of a power is the power of the magnitude.
pub proof fn lemma_pow_magnitude(b: int, e: nat)
    ensures
        abs(pow(b, e)) == pow(abs(b) as int, e),
    decreases e,
{
    reveal(pow);
    if e != 0 {
        lemma_pow_magnitude(b, (e - 1) as nat);
        let p = pow(b, (e - 1) as nat);
        assert(abs(b * p) == abs(b) * abs(p)) by (nonlinear_arith);
    }
}

/// A power of minus one is one where the exponent is even, minus one where
/// it is odd.
pub proof fn lemma_pow_minus_one(e: nat)
    ensures
        pow(-1, e) == if e % 2 == 0 {
            1int
        } else {
            -1int
        },
    decreases e,
{
    reveal(pow);
    if e != 0 {
        lemma_pow_minus_one((e - 1) as nat);
    }
}

/// Once a power of a base other than zero has left the range, every later
/// power of it is outside too.
pub proof fn lemma_pow_stays_outside(b: int, e1: nat, e2: nat)
    requires
        b != 0,
        e1 <= e2,
        !fits(pow(b, e1)),
    ensures
        !fits(pow(b, e2)),
{
    lemma_pow_magnitude(b, e1);
    lemma_pow_magnitude(b, e2);
    lemma_pow_increases(abs(b), e1, e2);
}

/// `base` to the power `exponent`, where it fits.
pub fn integer_power(base: i128, exponent: u128) -> (r: Result<i128, ArithmeticError>)
    requires
        fits(base as int),
    ensures
        r == if fits(pow(base as int, exponent as nat)) {
            Ok::<i128, ArithmeticError>(pow(base as int, exponent as nat) as i128)
        } else {
            Err(ArithmeticError::Overflow)
        },
{
    proof {
        lemma_pow0(base as int);
    }
    if exponent == 0 {
        return Ok(1);
    }
    if base == 0 {
        proof {
            lemma0_pow(exponent as nat);
        }
        return Ok(0);
    }
    if base == 1 {
        proof {
            lemma1_pow(exponent as nat);
        }
        return Ok(1);
    }
    if base == -1 {
        proof {
            lemma_pow_minus_one(exponent as nat);
        }
        return Ok(if exponent % 2 == 0 { 1 } else { -1 });
    }
    let mut power: i128 = 1;
    let mut done: u128 = 0;
    while done < exponent
        invariant
            done <= exponent,
            base != 0,
            fits(base as int),
            power == pow(base as int, done as nat),
            fits(power as int),
        decreases exponent - done,
    {
        proof {
            reveal(pow);
            assert(pow(base as int, (done + 1) as nat) == base * pow(base as int, done as nat));
            assert(base * power == power * base) by (nonlinear_arith);
        }
        match power.checked_mul(base) {
            Some(next) if next != i128::MIN => {
                power = next;
            },
            _ => {
                proof {
                    lemma_pow_stays_outside(base as int, (done + 1) as nat, exponent as nat);
                }
                return Err(ArithmeticError::Overflow);
            },
        }
        done = done + 1;
    }
    Ok(power)
}

} // verus!
