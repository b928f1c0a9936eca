//! The order of exact values.

use crate::divisor::{lemma_coprime_divides, lemma_divides_antisymmetric, lemma_divides_multiple};
use crate::rational::{magnitude, Rational};
use crate::wide::{wide, wide_product};
use std::cmp::Ordering;
use vstd::math::abs;
use vstd::prelude::*;

verus! {

/// How the product `a * b` stands to the product `c * d`.
fn product_order(a: u128, b: u128, c: u128, d: u128) -> (o: Ordering)
    ensures
        o matches Ordering::Less <==> a * b < c * d,
        o matches Ordering::Equal <==> a * b == c * d,
        o matches Ordering::Greater <==> a * b > c * d,
{
    let (left_high, left_low) = wide_product(a, b);
    let (right_high, right_low) = wide_product(c, d);
    if left_high < right_high {
        Ordering::Less
    } else if left_high > right_high {
        Ordering::Greater
    } else if left_low < right_low {
        Ordering::Less
    } else if left_low > right_low {
        Ordering::Greater
    } else {
        Ordering::Equal
    }
}

impl Rational {
    /// How this value stands to another: as the numerator of each times the
    /// denominator of the other do. No product is too wide for this.
    pub fn cmp(&self, other: &Rational) -> (o: Ordering)
        ensures
            o matches Ordering::Less <==> self.num() * other.den() < other.num() * self.den(),
            o matches Ordering::Equal <==> self.num() * other.den() == other.num() * self.den(),
            o matches Ordering::Greater <==> self.num() * other.den() > other.num() * self.den(),
            o matches Ordering::Equal <==> *self == *other,
    {
        proof {
            use_type_invariant(self);
            use_type_invariant(other);
            if self.num() * other.den() == other.num() * self.den() {
                self.lemma_one_representation(*other);
            }
        }
        let n = self.numerator();
        let d = self.denominator();
        let m = other.numerator();
        let e = other.denominator();
        proof {
            lemma_product_sign(self.num(), other.den());
            lemma_product_sign(other.num(), self.den());
        }
        if n < 0 && m >= 0 {
            Ordering::Less
        } else if n >= 0 && m < 0 {
            Ordering::Greater
        } else if n >= 0 {
            product_order(magnitude(n), magnitude(e), magnitude(m), magnitude(d))
        } else {
            proof {
                lemma_product_negated(self.num(), other.den());
                lemma_product_negated(other.num(), self.den());
            }
            product_order(magnitude(m), magnitude(d), magnitude(n), magnitude(e))
        }
    }
}

impl Rational {
    /// This value is below another: the order that `cmp` computes.
    pub open spec fn below(self, other: Rational) -> bool {
        self.num() * other.den() < other.num() * self.den()
    }

    /// Two values in lowest terms that stand for the same fraction are the
    /// same value: the order calls no two different values equal.
    pub proof fn lemma_one_representation(self, other: Rational)
        requires
            self.valid(),
            other.valid(),
            self.num() * other.den() == other.num() * self.den(),
        ensures
            self == other,
    {
        let a = abs(self.num());
        let b = abs(self.den());
        let c = abs(other.num());
        let d = abs(other.den());
        assert(a * d == c * b) by (nonlinear_arith)
            requires
                self.num() * other.den() == other.num() * self.den(),
                a == abs(self.num()),
                b == self.den(),
                c == abs(other.num()),
                d == other.den(),
                b > 0,
                d > 0,
        ;
        assert(c * b == b * c && a * d == d * a) by (nonlinear_arith);
        lemma_divides_multiple(b, c);
        lemma_coprime_divides(a, b, d);
        lemma_divides_multiple(d, a);
        lemma_coprime_divides(c, d, b);
        lemma_divides_antisymmetric(b, d);
        assert(self.num() == other.num()) by (nonlinear_arith)
            requires
                self.num() * other.den() == other.num() * self.den(),
                self.den() == other.den(),
                self.den() > 0,
        ;
        self.lemma_parts(other);
    }

    /// Of two values, one is below the other or they are the same value, and
    /// only one of the three holds.
    pub proof fn lemma_order_is_total(self, other: Rational)
        requires
            self.valid(),
            other.valid(),
        ensures
            self.below(other) || other.below(self) || self == other,
            !(self.below(other) && other.below(self)),
            !(self.below(other) && self == other),
    {
        if !self.below(other) && !other.below(self) {
            self.lemma_one_representation(other);
        }
    }

    /// What is below a value that is below a third is below the third.
    pub proof fn lemma_order_is_transitive(self, middle: Rational, other: Rational)
        requires
            self.valid(),
            middle.valid(),
            other.valid(),
            self.below(middle),
            middle.below(other),
        ensures
            self.below(other),
    {
        let (a, b) = (self.num(), self.den());
        let (c, d) = (middle.num(), middle.den());
        let (e, f) = (other.num(), other.den());
        assert(a * d * f < c * b * f) by (nonlinear_arith)
            requires
                a * d < c * b,
                f > 0,
        ;
        assert(c * f * b < e * d * b) by (nonlinear_arith)
            requires
                c * f < e * d,
                b > 0,
        ;
        assert(c * b * f == c * f * b && a * d * f == (a * f) * d && e * d * b == (e * b) * d)
            by (nonlinear_arith);
        assert(a * f < e * b) by (nonlinear_arith)
            requires
                (a * f) * d < (e * b) * d,
                d > 0,
        ;
    }
}

/// A product with a positive factor has the sign of the other factor.
proof fn lemma_product_sign(x: int, y: int)
    requires
        y > 0,
    ensures
        x < 0 ==> x * y < 0,
        x >= 0 ==> x * y >= 0,
{
    assert(x < 0 ==> x * y < 0) by (nonlinear_arith)
        requires
            y > 0,
    ;
    assert(x >= 0 ==> x * y >= 0) by (nonlinear_arith)
        requires
            y > 0,
    ;
}

/// Turning the sign of a factor turns the sign of the product.
proof fn lemma_product_negated(x: int, y: int)
    ensures
        (-x) * y == -(x * y),
{
    assert((-x) * y == -(x * y)) by (nonlinear_arith);
}

} // verus!
