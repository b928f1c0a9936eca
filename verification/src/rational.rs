//! Exact fractions over wide integers, kept in lowest terms.

use crate::approx::Approx;
use crate::ast::BinaryOp;
use crate::decimal::{decimal_digits, push_decimal};
use crate::divisor::{gcd, greatest_common_divisor, lemma_gcd_bounded, lemma_gcd_cancels};
use crate::power::{integer_power, lemma_pow_magnitude};
use vstd::arithmetic::div_mod::{lemma_div_multiples_vanish, lemma_fundamental_div_mod};
use vstd::arithmetic::power::{lemma_pow_positive, pow};
use vstd::math::abs;
use vstd::prelude::*;
use vstd::string::StringExecFns;

verus! {

/// Why an exact operation has no result.
#[derive(Clone, Copy, PartialEq, Eq, Structural, Debug)]
pub enum ArithmeticError {
    /// The divisor is the rational zero.
    DivisionByZero,
    /// A product or sum that the operation forms does not fit the integer width.
    Overflow,
}

/// An exact fraction. The denominator is positive and shares no divisor with
/// the numerator but one: of each value there is a single representation.
#[derive(Clone, Copy, PartialEq, Eq, Structural, Hash, Debug)]
pub struct Rational {
    numerator: i128,
    denominator: i128,
}

/// The integers that every operation here accepts and returns: those of the
/// integer width whose negation has that width too.
pub open spec fn fits(x: int) -> bool {
    -i128::MAX <= x <= i128::MAX
}

/// The remainder of a division that rounds toward zero: it has the sign of
/// the dividend.
pub open spec fn truncated_remainder(a: int, b: int) -> int
    recommends
        b != 0,
{
    if a >= 0 {
        a % (abs(b) as int)
    } else {
        -((-a) % (abs(b) as int))
    }
}

impl Rational {
    /// The numerator, as a mathematical integer.
    pub closed spec fn num(self) -> int {
        self.numerator as int
    }

    /// The denominator, as a mathematical integer.
    pub closed spec fn den(self) -> int {
        self.denominator as int
    }

    /// The value with the given numerator and denominator.
    pub closed spec fn of(num: int, den: int) -> Rational {
        Rational { numerator: num as i128, denominator: den as i128 }
    }

    /// In lowest terms, with the sign in the numerator.
    pub open spec fn is_reduced(self) -> bool {
        &&& self.den() > 0
        &&& gcd(abs(self.num()), abs(self.den())) == 1
    }

    /// What holds of every value: it is reduced and its parts fit.
    #[verifier::type_invariant]
    pub open spec fn valid(self) -> bool {
        &&& self.is_reduced()
        &&& fits(self.num())
        &&& fits(self.den())
    }

    /// The fraction `n / d` in lowest terms.
    pub open spec fn reduced(n: int, d: int) -> Rational
        recommends
            d != 0,
    {
        let g = gcd(abs(n), abs(d)) as int;
        if d < 0 {
            Rational::of((-n) / g, (-d) / g)
        } else {
            Rational::of(n / g, d / g)
        }
    }

    /// `of` gives the value that has the parts it was given.
    pub proof fn lemma_of(num: int, den: int)
        requires
            fits(num),
            fits(den),
        ensures
            Rational::of(num, den).num() == num,
            Rational::of(num, den).den() == den,
    {
    }

    /// A value is its two parts and nothing else.
    pub proof fn lemma_parts(self, other: Rational)
        requires
            self.num() == other.num(),
            self.den() == other.den(),
        ensures
            self == other,
    {
    }

    /// The parts of a value fit the integer width.
    pub proof fn lemma_width(self)
        ensures
            i128::MIN <= self.num() <= i128::MAX,
            i128::MIN <= self.den() <= i128::MAX,
            self == Rational::of(self.num(), self.den()),
    {
    }

    /// Reducing yields a valid value.
    pub proof fn lemma_reduced_valid(n: int, d: int)
        requires
            fits(n),
            fits(d),
            d != 0,
        ensures
            Rational::reduced(n, d).valid(),
            Rational::reduced(n, d).num() * d == n * Rational::reduced(n, d).den(),
    {
        let a = abs(n);
        let b = abs(d);
        let g = gcd(a, b);
        lemma_gcd_cancels(a, b);
        lemma_gcd_bounded(a, b);
        lemma_exact_quotient(n, g as int);
        lemma_exact_quotient(-n, g as int);
        lemma_exact_quotient(d, g as int);
        lemma_exact_quotient(-d, g as int);
        lemma_fundamental_div_mod(a as int, g as int);
        lemma_fundamental_div_mod(b as int, g as int);
        let r = Rational::reduced(n, d);
        let rn = if d < 0 { (-n) / (g as int) } else { n / (g as int) };
        let rd = if d < 0 { (-d) / (g as int) } else { d / (g as int) };
        assert(abs(rn) == a / g);
        assert(abs(rd) == b / g);
        assert(rd == b / g);
        assert(a / g <= a) by (nonlinear_arith)
            requires
                a == g * (a / g),
                g >= 1,
        ;
        assert(b / g <= b) by (nonlinear_arith)
            requires
                b == g * (b / g),
                g >= 1,
        ;
        Rational::lemma_of(rn, rd);
        assert(r.num() == rn && r.den() == rd);
        assert(rn * d == n * rd) by (nonlinear_arith)
            requires
                g >= 1,
                d < 0 ==> -n == g * rn && -d == g * rd,
                d >= 0 ==> n == g * rn && d == g * rd,
        ;
    }

    /// The fraction `numerator / denominator`, in lowest terms.
    pub fn new(numerator: i128, denominator: i128) -> (r: Rational)
        requires
            denominator != 0,
            numerator > i128::MIN,
            denominator > i128::MIN,
        ensures
            r == Rational::reduced(numerator as int, denominator as int),
            r.valid(),
    {
        let a = magnitude(numerator);
        let b = magnitude(denominator);
        let g = greatest_common_divisor(a, b);
        proof {
            Rational::lemma_reduced_valid(numerator as int, denominator as int);
            lemma_gcd_cancels(a as nat, b as nat);
            lemma_exact_quotient(numerator as int, g as int);
            lemma_exact_quotient(denominator as int, g as int);
            lemma_exact_quotient(-numerator, g as int);
            lemma_exact_quotient(-denominator, g as int);
        }
        let n = (a / g) as i128;
        let d = (b / g) as i128;
        let r = if (numerator < 0) != (denominator < 0) {
            Rational { numerator: -n, denominator: d }
        } else {
            Rational { numerator: n, denominator: d }
        };
        proof {
            let s = Rational::reduced(numerator as int, denominator as int);
            s.lemma_parts(r);
        }
        r
    }

    /// The text of this value: the numerator, and behind a `/` the
    /// denominator where it is not one.
    pub open spec fn text(self) -> Seq<char> {
        if self.den() != 1 {
            integer_text(self.num()) + seq!['/'] + integer_text(self.den())
        } else {
            integer_text(self.num())
        }
    }

    /// Writes this value as text.
    pub fn to_string(&self) -> (s: String)
        ensures
            s@ == self.text(),
    {
        proof {
            use_type_invariant(self);
        }
        let mut s = String::new();
        push_integer(&mut s, self.numerator);
        if self.denominator != 1 {
            s.append("/");
            proof {
                reveal_strlit("/");
            }
            push_integer(&mut s, self.denominator);
        }
        proof {
            assert(s@ =~= self.text());
        }
        s
    }

    /// The numerator.
    pub fn numerator(&self) -> (n: i128)
        ensures
            n == self.num(),
            fits(n as int),
    {
        proof {
            use_type_invariant(self);
        }
        self.numerator
    }

    /// The denominator.
    pub fn denominator(&self) -> (d: i128)
        ensures
            d == self.den(),
            d > 0,
            gcd(abs(self.num()), d as nat) == 1,
    {
        proof {
            use_type_invariant(self);
        }
        self.denominator
    }
}

/// What raising to a power gives: an exact value where the exponent is an
/// integer, an approximate one where it is not.
#[derive(PartialEq, Eq, Debug)]
pub enum PowResult {
    Rational(Rational),
    FloatingPoint(Approx),
}

impl Rational {
    /// The two fractions brought to the common denominator and added.
    pub open spec fn sum(self, rhs: Rational) -> Result<Rational, ArithmeticError> {
        let a = self.num() * rhs.den();
        let b = rhs.num() * self.den();
        let d = self.den() * rhs.den();
        if fits(a) && fits(b) && fits(a + b) && fits(d) {
            Ok(Rational::reduced(a + b, d))
        } else {
            Err(ArithmeticError::Overflow)
        }
    }

    /// The two fractions brought to the common denominator and subtracted.
    pub open spec fn difference(self, rhs: Rational) -> Result<Rational, ArithmeticError> {
        let a = self.num() * rhs.den();
        let b = rhs.num() * self.den();
        let d = self.den() * rhs.den();
        if fits(a) && fits(b) && fits(a - b) && fits(d) {
            Ok(Rational::reduced(a - b, d))
        } else {
            Err(ArithmeticError::Overflow)
        }
    }

    /// Numerator times numerator over denominator times denominator.
    pub open spec fn product(self, rhs: Rational) -> Result<Rational, ArithmeticError> {
        let n = self.num() * rhs.num();
        let d = self.den() * rhs.den();
        if fits(n) && fits(d) {
            Ok(Rational::reduced(n, d))
        } else {
            Err(ArithmeticError::Overflow)
        }
    }

    /// The fraction times the inverse of the divisor.
    pub open spec fn quotient(self, rhs: Rational) -> Result<Rational, ArithmeticError> {
        let n = self.num() * rhs.den();
        let d = self.den() * rhs.num();
        if rhs.num() == 0 {
            Err(ArithmeticError::DivisionByZero)
        } else if fits(n) && fits(d) {
            Ok(Rational::reduced(n, d))
        } else {
            Err(ArithmeticError::Overflow)
        }
    }

    /// The remainder of the two numerators at the common denominator, over
    /// that denominator. It has the sign of the dividend, and is not brought
    /// into the range between zero and the divisor.
    pub open spec fn remainder(self, rhs: Rational) -> Result<Rational, ArithmeticError> {
        let a = self.num() * rhs.den();
        let b = rhs.num() * self.den();
        let d = self.den() * rhs.den();
        if rhs.num() == 0 {
            Err(ArithmeticError::DivisionByZero)
        } else if fits(a) && fits(b) && fits(d) {
            Ok(Rational::reduced(truncated_remainder(a, b), d))
        } else {
            Err(ArithmeticError::Overflow)
        }
    }

    /// The fraction with the sign of the numerator turned.
    pub open spec fn negation(self) -> Rational {
        Rational::reduced(-self.num(), self.den())
    }

    /// The fraction raised to a power. Under an integer exponent the
    /// numerator and the denominator are raised to its magnitude, and change
    /// places where it is negative; under any other exponent the power is the
    /// double-precision power function on the two approximations.
    pub open spec fn power(self, exponent: Rational) -> Result<PowResult, ArithmeticError> {
        let k = abs(exponent.num());
        let n = pow(self.num(), k);
        let d = pow(self.den(), k);
        if exponent.den() != 1 {
            Ok(
                PowResult::FloatingPoint(
                    Approx::Binary {
                        op: BinaryOp::Power,
                        lhs: Box::new(Approx::Ratio(self)),
                        rhs: Box::new(Approx::Ratio(exponent)),
                    },
                ),
            )
        } else if exponent.num() < 0 && self.num() == 0 {
            Err(ArithmeticError::DivisionByZero)
        } else if !fits(n) || !fits(d) {
            Err(ArithmeticError::Overflow)
        } else if exponent.num() < 0 {
            Ok(PowResult::Rational(Rational::reduced(d, n)))
        } else {
            Ok(PowResult::Rational(Rational::reduced(n, d)))
        }
    }

    /// Raises this fraction to a power: exactly where the exponent is an
    /// integer, approximately where it is not.
    pub fn pow(self, other: Rational) -> (r: Result<PowResult, ArithmeticError>)
        ensures
            r == self.power(other),
            r matches Ok(PowResult::Rational(v)) ==> v.valid(),
    {
        proof {
            use_type_invariant(&self);
            use_type_invariant(&other);
        }
        if other.denominator != 1 {
            return Ok(
                PowResult::FloatingPoint(
                    Approx::Binary {
                        op: BinaryOp::Power,
                        lhs: Box::new(Approx::Ratio(self)),
                        rhs: Box::new(Approx::Ratio(other)),
                    },
                ),
            );
        }
        if other.numerator < 0 && self.numerator == 0 {
            return Err(ArithmeticError::DivisionByZero);
        }
        let k = magnitude(other.numerator);
        let n = integer_power(self.numerator, k)?;
        let d = integer_power(self.denominator, k)?;
        proof {
            lemma_pow_positive(self.den(), k as nat);
            if self.num() != 0 {
                lemma_pow_magnitude(self.num(), k as nat);
                lemma_pow_positive(abs(self.num()) as int, k as nat);
            }
        }
        if other.numerator < 0 {
            Ok(PowResult::Rational(Rational::new(d, n)))
        } else {
            Ok(PowResult::Rational(Rational::new(n, d)))
        }
    }

    /// Adds two fractions.
    pub fn add(self, rhs: Rational) -> (r: Result<Rational, ArithmeticError>)
        ensures
            r == self.sum(rhs),
            r matches Ok(v) ==> v.valid(),
    {
        proof {
            use_type_invariant(&self);
            use_type_invariant(&rhs);
        }
        let a = mul_fitting(self.numerator, rhs.denominator)?;
        let b = mul_fitting(rhs.numerator, self.denominator)?;
        let n = add_fitting(a, b)?;
        let d = mul_fitting(self.denominator, rhs.denominator)?;
        proof {
            lemma_product_positive(self.den(), rhs.den());
        }
        Ok(Rational::new(n, d))
    }

    /// Subtracts a fraction from this one.
    pub fn sub(self, rhs: Rational) -> (r: Result<Rational, ArithmeticError>)
        ensures
            r == self.difference(rhs),
            r matches Ok(v) ==> v.valid(),
    {
        proof {
            use_type_invariant(&self);
            use_type_invariant(&rhs);
        }
        let a = mul_fitting(self.numerator, rhs.denominator)?;
        let b = mul_fitting(rhs.numerator, self.denominator)?;
        let n = sub_fitting(a, b)?;
        let d = mul_fitting(self.denominator, rhs.denominator)?;
        proof {
            lemma_product_positive(self.den(), rhs.den());
        }
        Ok(Rational::new(n, d))
    }

    /// Multiplies two fractions.
    pub fn mul(self, rhs: Rational) -> (r: Result<Rational, ArithmeticError>)
        ensures
            r == self.product(rhs),
            r matches Ok(v) ==> v.valid(),
    {
        proof {
            use_type_invariant(&self);
            use_type_invariant(&rhs);
        }
        let n = mul_fitting(self.numerator, rhs.numerator)?;
        let d = mul_fitting(self.denominator, rhs.denominator)?;
        proof {
            lemma_product_positive(self.den(), rhs.den());
        }
        Ok(Rational::new(n, d))
    }

    /// Divides this fraction by another, which must not be zero.
    pub fn div(self, rhs: Rational) -> (r: Result<Rational, ArithmeticError>)
        ensures
            r == self.quotient(rhs),
            r matches Ok(v) ==> v.valid(),
    {
        proof {
            use_type_invariant(&self);
            use_type_invariant(&rhs);
        }
        if rhs.numerator == 0 {
            return Err(ArithmeticError::DivisionByZero);
        }
        let n = mul_fitting(self.numerator, rhs.denominator)?;
        let d = mul_fitting(self.denominator, rhs.numerator)?;
        proof {
            lemma_product_nonzero(self.den(), rhs.num());
        }
        Ok(Rational::new(n, d))
    }

    /// The remainder of this fraction by another, which must not be zero.
    pub fn rem(self, rhs: Rational) -> (r: Result<Rational, ArithmeticError>)
        ensures
            r == self.remainder(rhs),
            r matches Ok(v) ==> v.valid(),
    {
        proof {
            use_type_invariant(&self);
            use_type_invariant(&rhs);
        }
        if rhs.numerator == 0 {
            return Err(ArithmeticError::DivisionByZero);
        }
        let a = mul_fitting(self.numerator, rhs.denominator)?;
        let b = mul_fitting(rhs.numerator, self.denominator)?;
        let d = mul_fitting(self.denominator, rhs.denominator)?;
        proof {
            lemma_product_positive(self.den(), rhs.den());
            lemma_product_nonzero(rhs.num(), self.den());
        }
        let n = rem_truncating(a, b);
        Ok(Rational::new(n, d))
    }

    /// The fraction with the opposite sign.
    pub fn neg(self) -> (r: Rational)
        ensures
            r == self.negation(),
            r.valid(),
    {
        proof {
            use_type_invariant(&self);
        }
        Rational::new(-self.numerator, self.denominator)
    }
}

/// The product of two positive integers is positive.
proof fn lemma_product_positive(x: int, y: int)
    requires
        x > 0,
        y > 0,
    ensures
        x * y > 0,
{
    assert(x * y > 0) by (nonlinear_arith)
        requires
            x > 0,
            y > 0,
    ;
}

/// The product of two integers other than zero is not zero.
proof fn lemma_product_nonzero(x: int, y: int)
    requires
        x != 0,
        y != 0,
    ensures
        x * y != 0,
{
    assert(x * y != 0) by (nonlinear_arith)
        requires
            x != 0,
            y != 0,
    ;
}

/// The product, where it fits.
fn mul_fitting(x: i128, y: i128) -> (r: Result<i128, ArithmeticError>)
    ensures
        r == if fits(x * y) {
            Ok::<i128, ArithmeticError>((x * y) as i128)
        } else {
            Err(ArithmeticError::Overflow)
        },
{
    match x.checked_mul(y) {
        Some(p) if p != i128::MIN => Ok(p),
        _ => Err(ArithmeticError::Overflow),
    }
}

/// The sum, where it fits.
fn add_fitting(x: i128, y: i128) -> (r: Result<i128, ArithmeticError>)
    ensures
        r == if fits(x + y) {
            Ok::<i128, ArithmeticError>((x + y) as i128)
        } else {
            Err(ArithmeticError::Overflow)
        },
{
    match x.checked_add(y) {
        Some(p) if p != i128::MIN => Ok(p),
        _ => Err(ArithmeticError::Overflow),
    }
}

/// The difference, where it fits.
fn sub_fitting(x: i128, y: i128) -> (r: Result<i128, ArithmeticError>)
    ensures
        r == if fits(x - y) {
            Ok::<i128, ArithmeticError>((x - y) as i128)
        } else {
            Err(ArithmeticError::Overflow)
        },
{
    match x.checked_sub(y) {
        Some(p) if p != i128::MIN => Ok(p),
        _ => Err(ArithmeticError::Overflow),
    }
}

/// The remainder of the division that rounds toward zero.
fn rem_truncating(x: i128, y: i128) -> (r: i128)
    requires
        fits(x as int),
        fits(y as int),
        y != 0,
    ensures
        r == truncated_remainder(x as int, y as int),
        fits(r as int),
{
    let a = magnitude(x);
    let b = magnitude(y);
    let m = (a % b) as i128;
    if x < 0 {
        -m
    } else {
        m
    }
}

/// Dividing a multiple of `g` by `g` leaves the other factor, whatever its sign.
pub proof fn lemma_exact_quotient(x: int, g: int)
    requires
        g > 0,
        abs(x) as int % g == 0,
    ensures
        x == g * (x / g),
        abs(x / g) == abs(x) as int / g,
        (-x) / g == -(x / g),
{
    lemma_fundamental_div_mod(abs(x) as int, g);
    let k = abs(x) as int / g;
    assert(abs(x) == g * k);
    lemma_div_multiples_vanish(k, g);
    lemma_div_multiples_vanish(-k, g);
    assert(g * (-k) == -(g * k)) by (nonlinear_arith);
    assert(g * k == k * g) by (nonlinear_arith);
    assert(g * (-k) == (-k) * g) by (nonlinear_arith);
}

/// The text of an integer: its decimal digits, behind a `-` where it is
/// negative.
pub open spec fn integer_text(x: int) -> Seq<char> {
    if x < 0 {
        seq!['-'] + decimal_digits((-x) as nat)
    } else {
        decimal_digits(x as nat)
    }
}

/// Appends the text of an integer.
fn push_integer(out: &mut String, x: i128)
    requires
        x > i128::MIN,
    ensures
        final(out)@ == old(out)@ + integer_text(x as int),
{
    if x < 0 {
        out.append("-");
        proof {
            reveal_strlit("-");
        }
    }
    push_decimal(out, magnitude(x));
    proof {
        assert(final(out)@ =~= old(out)@ + integer_text(x as int));
    }
}

/// The magnitude of an integer.
pub(crate) fn magnitude(x: i128) -> (m: u128)
    requires
        x > i128::MIN,
    ensures
        m == abs(x as int),
{
    if x < 0 {
        (-x) as u128
    } else {
        x as u128
    }
}

} // verus!
