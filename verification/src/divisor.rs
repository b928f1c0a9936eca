//! Divisibility and greatest common divisors of natural numbers.

use vstd::arithmetic::div_mod::{
    lemma_fundamental_div_mod, lemma_mod_multiples_basic, lemma_small_mod,
};
use vstd::prelude::*;

verus! {

/// `d` divides `n`: `n` is a multiple of `d`. Only zero is a multiple of zero.
pub open spec fn divides(d: nat, n: nat) -> bool {
    if d == 0 {
        n == 0
    } else {
        n % d == 0
    }
}

/// `g` is the greatest common divisor of `a` and `b`: it divides both, and
/// every number that divides both divides `g`. Of zero and zero it is zero.
pub open spec fn is_gcd(g: nat, a: nat, b: nat) -> bool {
    &&& divides(g, a)
    &&& divides(g, b)
    &&& forall|d: nat| #[trigger] divides(d, a) && divides(d, b) ==> divides(d, g)
}

/// The greatest common divisor, by Euclid's recursion.
pub open spec fn gcd(a: nat, b: nat) -> nat
    decreases b,
{
    if b == 0 {
        a
    } else {
        gcd(b, a % b)
    }
}

/// A multiple of `d` is divisible by `d`.
pub proof fn lemma_divides_multiple(d: nat, k: nat)
    ensures
        divides(d, d * k),
{
    if d != 0 {
        lemma_mod_multiples_basic(k as int, d as int);
        assert(d * k == k * d) by (nonlinear_arith);
    } else {
        assert(d * k == 0) by (nonlinear_arith)
            requires
                d == 0,
        ;
    }
}

/// What `d` divides is `d` times the quotient.
pub proof fn lemma_divides_quotient(d: nat, n: nat)
    requires
        divides(d, n),
        d != 0,
    ensures
        n == d * (n / d),
{
    lemma_fundamental_div_mod(n as int, d as int);
}

/// What divides `a` and `b` divides the remainder of `a` by `b`, and what
/// divides `b` and that remainder divides `a`.
pub proof fn lemma_divides_remainder(d: nat, a: nat, b: nat)
    requires
        b != 0,
        divides(d, b),
    ensures
        divides(d, a) <==> divides(d, a % b),
{
    lemma_fundamental_div_mod(a as int, b as int);
    let q = a / b;
    let r = a % b;
    assert(a == b * q + r);
    if d != 0 {
        lemma_divides_quotient(d, b);
        let kb = b / d;
        if divides(d, a) {
            lemma_divides_quotient(d, a);
            let ka = a / d;
            assert(ka >= kb * q) by (nonlinear_arith)
                requires
                    a == d * ka,
                    b == d * kb,
                    a == b * q + r,
                    d > 0,
                    r >= 0,
            ;
            assert(r == d * ((ka - kb * q) as nat)) by (nonlinear_arith)
                requires
                    a == d * ka,
                    b == d * kb,
                    a == b * q + r,
                    ka >= kb * q,
            ;
            lemma_divides_multiple(d, (ka - kb * q) as nat);
        }
        if divides(d, r) {
            lemma_divides_quotient(d, r);
            let kr = r / d;
            assert(a == d * (kb * q + kr)) by (nonlinear_arith)
                requires
                    r == d * kr,
                    b == d * kb,
                    a == b * q + r,
            ;
            lemma_divides_multiple(d, kb * q + kr);
        }
    }
}

/// Euclid's recursion yields the greatest common divisor.
pub proof fn lemma_gcd_is_gcd(a: nat, b: nat)
    ensures
        is_gcd(gcd(a, b), a, b),
    decreases b,
{
    if b == 0 {
        if a != 0 {
            lemma_mod_multiples_basic(1, a as int);
        }
    } else {
        let g = gcd(b, a % b);
        lemma_gcd_is_gcd(b, a % b);
        lemma_divides_remainder(g, a, b);
        assert forall|d: nat| #[trigger] divides(d, a) && divides(d, b) implies divides(d, g) by {
            lemma_divides_remainder(d, a, b);
        }
    }
}

/// Two numbers that divide each other are equal.
pub proof fn lemma_divides_antisymmetric(x: nat, y: nat)
    requires
        divides(x, y),
        divides(y, x),
    ensures
        x == y,
{
    if x != 0 && y != 0 {
        if x < y {
            lemma_small_mod(x, y);
        } else if y < x {
            lemma_small_mod(y, x);
        }
    }
}

/// A pair of numbers has one greatest common divisor.
pub proof fn lemma_is_gcd_unique(g: nat, h: nat, a: nat, b: nat)
    requires
        is_gcd(g, a, b),
        is_gcd(h, a, b),
    ensures
        g == h,
{
    lemma_divides_antisymmetric(g, h);
}

/// Dividing two numbers, not both zero, by their greatest common divisor
/// leaves two numbers whose greatest common divisor is one.
pub proof fn lemma_gcd_cancels(a: nat, b: nat)
    requires
        b != 0,
    ensures
        gcd(a, b) != 0,
        a % gcd(a, b) == 0,
        b % gcd(a, b) == 0,
        b / gcd(a, b) != 0,
        gcd(a / gcd(a, b), b / gcd(a, b)) == 1,
{
    let g = gcd(a, b);
    lemma_gcd_is_gcd(a, b);
    lemma_divides_quotient(g, a);
    lemma_divides_quotient(g, b);
    let x = a / g;
    let y = b / g;
    assert(y != 0) by (nonlinear_arith)
        requires
            b == g * y,
            b != 0,
    ;
    let h = gcd(x, y);
    lemma_gcd_is_gcd(x, y);
    lemma_divides_quotient(h, x);
    lemma_divides_quotient(h, y);
    let hg = h * g;
    assert(a == hg * (x / h)) by (nonlinear_arith)
        requires
            a == g * x,
            x == h * (x / h),
            hg == h * g,
    ;
    assert(b == hg * (y / h)) by (nonlinear_arith)
        requires
            b == g * y,
            y == h * (y / h),
            hg == h * g,
    ;
    lemma_divides_multiple(hg, x / h);
    lemma_divides_multiple(hg, y / h);
    assert(divides(hg, g));
    assert(hg != 0) by (nonlinear_arith)
        requires
            hg == h * g,
            h != 0,
            g != 0,
    ;
    lemma_divides_quotient(hg, g);
    assert(h == 1) by (nonlinear_arith)
        requires
            g == hg * (g / hg),
            hg == h * g,
            g != 0,
            h != 0,
    ;
}

/// The greatest common divisor of two numbers is a sum of multiples of the
/// two: the pair that comes back holds the two factors.
pub proof fn lemma_gcd_is_combination(a: nat, b: nat) -> (c: (int, int))
    ensures
        a * c.0 + b * c.1 == gcd(a, b),
    decreases b,
{
    if b == 0 {
        (1, 0)
    } else {
        let (x, y) = lemma_gcd_is_combination(b, a % b);
        let q = (a / b) as int;
        lemma_fundamental_div_mod(a as int, b as int);
        assert(a * y + b * (x - q * y) == b * x + (a % b) * y) by (nonlinear_arith)
            requires
                a == b * q + (a % b),
        ;
        (y, x - q * y)
    }
}

/// What divides a product and shares no divisor with one factor divides the
/// other factor.
pub proof fn lemma_coprime_divides(a: nat, b: nat, c: nat)
    requires
        gcd(a, b) == 1,
        b != 0,
        divides(b, a * c),
    ensures
        divides(b, c),
{
    let (x, y) = lemma_gcd_is_combination(a, b);
    lemma_divides_quotient(b, a * c);
    let k = ((a * c) / b) as int;
    let m = k * x + c * y;
    assert(c == m * b) by (nonlinear_arith)
        requires
            a * x + b * y == 1,
            a * c == b * k,
            m == k * x + c * y,
    ;
    lemma_mod_multiples_basic(m, b as int);
}

/// The greatest common divisor of two numbers exceeds neither, where the
/// number is not zero.
pub proof fn lemma_gcd_bounded(a: nat, b: nat)
    ensures
        a != 0 ==> gcd(a, b) <= a,
        b != 0 ==> gcd(a, b) <= b,
{
    let g = gcd(a, b);
    lemma_gcd_is_gcd(a, b);
    if a != 0 && g > a {
        lemma_small_mod(a, g);
    }
    if b != 0 && g > b {
        lemma_small_mod(b, g);
    }
}

/// Calls `gcd::binary_u128`, the outside crate's binary algorithm on two
/// `u128` values. Trusted: the result is the greatest common divisor of the
/// arguments, and zero where both are zero.
#[verifier::external_body]
fn binary_gcd(u: u128, v: u128) -> (g: u128)
    ensures
        is_gcd(g as nat, u as nat, v as nat),
{
    ::gcd::binary_u128(u, v)
}

/// The greatest common divisor of two machine integers.
pub fn greatest_common_divisor(a: u128, b: u128) -> (g: u128)
    ensures
        g == gcd(a as nat, b as nat),
{
    let g = binary_gcd(a, b);
    proof {
        lemma_gcd_is_gcd(a as nat, b as nat);
        lemma_is_gcd_unique(g as nat, gcd(a as nat, b as nat), a as nat, b as nat);
    }
    g
}

} // verus!
