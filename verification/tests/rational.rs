use qalqulator::approx::Approx;
use qalqulator::ast::BinaryOp;
use qalqulator::divisor::greatest_common_divisor;
use qalqulator::error::Error;
use qalqulator::power::integer_power;
use qalqulator::rational::{ArithmeticError, PowResult, Rational};
use qalqulator::wide::wide_product;
use std::cmp::Ordering;

fn parts(r: Rational) -> (i128, i128) {
    (r.numerator(), r.denominator())
}

#[test]
fn new_reduces_to_lowest_terms() {
    assert_eq!(parts(Rational::new(2, 4)), (1, 2));
    assert_eq!(parts(Rational::new(2024, 748)), (46, 17));
    assert_eq!(parts(Rational::new(7, 1)), (7, 1));
    assert_eq!(parts(Rational::new(0, 5)), (0, 1));
}

#[test]
fn new_moves_the_sign_to_the_numerator() {
    assert_eq!(parts(Rational::new(1, -2)), (-1, 2));
    assert_eq!(parts(Rational::new(-3, -6)), (1, 2));
    assert_eq!(parts(Rational::new(-3, 6)), (-1, 2));
    assert_eq!(parts(Rational::new(0, -7)), (0, 1));
}

#[test]
fn new_takes_the_widest_integers() {
    assert_eq!(parts(Rational::new(i128::MAX, i128::MAX)), (1, 1));
    assert_eq!(parts(Rational::new(-i128::MAX, i128::MAX)), (-1, 1));
    assert_eq!(parts(Rational::new(i128::MAX, -1)), (-i128::MAX, 1));
}

#[test]
fn equal_values_are_equal() {
    assert_eq!(Rational::new(1, 2), Rational::new(-2, -4));
    assert_ne!(Rational::new(1, 2), Rational::new(1, 3));
}

#[test]
fn add_brings_to_the_common_denominator() {
    assert_eq!(Rational::new(1, 10).add(Rational::new(2, 10)), Ok(Rational::new(3, 10)));
    assert_eq!(Rational::new(1, 2).add(Rational::new(1, 3)), Ok(Rational::new(5, 6)));
    assert_eq!(Rational::new(1, 2).add(Rational::new(-1, 2)), Ok(Rational::new(0, 1)));
}

#[test]
fn sub_mul_div() {
    assert_eq!(Rational::new(1, 2).sub(Rational::new(1, 3)), Ok(Rational::new(1, 6)));
    assert_eq!(Rational::new(2, 3).mul(Rational::new(3, 4)), Ok(Rational::new(1, 2)));
    assert_eq!(Rational::new(1, 2).div(Rational::new(-3, 4)), Ok(Rational::new(-2, 3)));
}

#[test]
fn div_by_zero_is_an_error() {
    assert_eq!(
        Rational::new(1, 2).div(Rational::new(0, 1)),
        Err(ArithmeticError::DivisionByZero)
    );
    assert_eq!(
        Rational::new(1, 2).rem(Rational::new(0, 1)),
        Err(ArithmeticError::DivisionByZero)
    );
}

#[test]
fn rem_is_the_remainder_of_the_cross_multiplied_numerators() {
    // 7/2 and 1/1: (7 * 1) % (1 * 2) over 2 * 1
    assert_eq!(Rational::new(7, 2).rem(Rational::new(1, 1)), Ok(Rational::new(1, 2)));
    // 7/1 and 3/1: 7 % 3 over 1
    assert_eq!(Rational::new(7, 1).rem(Rational::new(3, 1)), Ok(Rational::new(1, 1)));
    // 1/2 and 1/3: (1 * 3) % (1 * 2) over 6
    assert_eq!(Rational::new(1, 2).rem(Rational::new(1, 3)), Ok(Rational::new(1, 6)));
}

#[test]
fn rem_has_the_sign_of_the_dividend() {
    assert_eq!(Rational::new(-7, 1).rem(Rational::new(3, 1)), Ok(Rational::new(-1, 1)));
    assert_eq!(Rational::new(7, 1).rem(Rational::new(-3, 1)), Ok(Rational::new(1, 1)));
    assert_eq!(Rational::new(-7, 2).rem(Rational::new(-1, 1)), Ok(Rational::new(-1, 2)));
}

#[test]
fn neg_turns_the_sign() {
    assert_eq!(Rational::new(1, 2).neg(), Rational::new(-1, 2));
    assert_eq!(Rational::new(-1, 2).neg(), Rational::new(1, 2));
    assert_eq!(Rational::new(0, 1).neg(), Rational::new(0, 1));
}

#[test]
fn overflow_is_an_error() {
    let big = Rational::new(i128::MAX, 1);
    assert_eq!(big.add(Rational::new(1, 1)), Err(ArithmeticError::Overflow));
    assert_eq!(big.mul(Rational::new(2, 1)), Err(ArithmeticError::Overflow));
    assert_eq!(big.neg().sub(Rational::new(1, 1)), Err(ArithmeticError::Overflow));
    assert_eq!(
        Rational::new(1, i128::MAX).div(Rational::new(2, 1)),
        Err(ArithmeticError::Overflow)
    );
    assert_eq!(
        Rational::new(1, i128::MAX).rem(Rational::new(1, 2)),
        Err(ArithmeticError::Overflow)
    );
    // the cross products do not fit, though the sum would
    assert_eq!(
        Rational::new(1, i128::MAX).add(Rational::new(1, i128::MAX)),
        Err(ArithmeticError::Overflow)
    );
}

#[test]
fn the_widest_values_still_work() {
    let big = Rational::new(i128::MAX, 1);
    assert_eq!(big.add(Rational::new(0, 1)), Ok(big));
    assert_eq!(big.sub(big), Ok(Rational::new(0, 1)));
    assert_eq!(big.mul(Rational::new(-1, 1)), Ok(Rational::new(-i128::MAX, 1)));
    assert_eq!(big.div(big), Ok(Rational::new(1, 1)));
}

#[test]
fn pow_with_an_integer_exponent_is_exact() {
    assert_eq!(
        Rational::new(1, 2).pow(Rational::new(3, 1)),
        Ok(PowResult::Rational(Rational::new(1, 8)))
    );
    assert_eq!(
        Rational::new(-2, 3).pow(Rational::new(3, 1)),
        Ok(PowResult::Rational(Rational::new(-8, 27)))
    );
    assert_eq!(
        Rational::new(5, 7).pow(Rational::new(0, 1)),
        Ok(PowResult::Rational(Rational::new(1, 1)))
    );
    assert_eq!(
        Rational::new(0, 1).pow(Rational::new(0, 1)),
        Ok(PowResult::Rational(Rational::new(1, 1)))
    );
}

#[test]
fn pow_with_a_negative_exponent_inverts() {
    assert_eq!(
        Rational::new(2, 3).pow(Rational::new(-2, 1)),
        Ok(PowResult::Rational(Rational::new(9, 4)))
    );
    assert_eq!(
        Rational::new(-2, 1).pow(Rational::new(-3, 1)),
        Ok(PowResult::Rational(Rational::new(-1, 8)))
    );
    assert_eq!(
        Rational::new(0, 1).pow(Rational::new(-1, 1)),
        Err(ArithmeticError::DivisionByZero)
    );
}

#[test]
fn pow_with_a_fractional_exponent_is_approximate() {
    let two = Rational::new(2, 1);
    let half = Rational::new(1, 2);
    assert_eq!(
        two.pow(half),
        Ok(PowResult::FloatingPoint(Approx::Binary {
            op: BinaryOp::Power,
            lhs: Box::new(Approx::Ratio(two)),
            rhs: Box::new(Approx::Ratio(half)),
        }))
    );
}

#[test]
fn pow_reports_overflow() {
    assert_eq!(
        Rational::new(2, 1).pow(Rational::new(127, 1)),
        Err(ArithmeticError::Overflow)
    );
    assert_eq!(
        Rational::new(2, 1).pow(Rational::new(126, 1)),
        Ok(PowResult::Rational(Rational::new(1 << 126, 1)))
    );
    assert_eq!(
        Rational::new(1, 2).pow(Rational::new(i128::MAX, 1)),
        Err(ArithmeticError::Overflow)
    );
}

#[test]
fn pow_of_one_and_minus_one_under_huge_exponents() {
    let one = Rational::new(1, 1);
    let minus_one = Rational::new(-1, 1);
    assert_eq!(one.pow(Rational::new(i128::MAX, 1)), Ok(PowResult::Rational(one)));
    assert_eq!(minus_one.pow(Rational::new(i128::MAX, 1)), Ok(PowResult::Rational(minus_one)));
    assert_eq!(minus_one.pow(Rational::new(i128::MAX - 1, 1)), Ok(PowResult::Rational(one)));
    assert_eq!(minus_one.pow(Rational::new(-i128::MAX, 1)), Ok(PowResult::Rational(minus_one)));
    let zero = Rational::new(0, 1);
    assert_eq!(zero.pow(Rational::new(1 << 40, 1)), Ok(PowResult::Rational(zero)));
}

#[test]
fn to_string_writes_the_fraction() {
    assert_eq!(Rational::new(1, 2).to_string(), "1/2");
    assert_eq!(Rational::new(-3, 4).to_string(), "-3/4");
    assert_eq!(Rational::new(10, 5).to_string(), "2");
    assert_eq!(Rational::new(0, 3).to_string(), "0");
    assert_eq!(Rational::new(-120, 1).to_string(), "-120");
    assert_eq!(
        Rational::new(i128::MAX, 2).to_string(),
        "170141183460469231731687303715884105727/2"
    );
}

#[test]
fn constructed_values_are_reduced() {
    let values = [
        Rational::new(6, 4),
        Rational::new(-6, 4),
        Rational::new(6, -4),
        Rational::new(1, 3).add(Rational::new(1, 6)).unwrap(),
        Rational::new(4, 9).mul(Rational::new(3, 2)).unwrap(),
        Rational::new(4, 9).div(Rational::new(-2, 3)).unwrap(),
        Rational::new(4, 9).neg(),
    ];
    for r in values {
        assert!(r.denominator() > 0);
        assert_eq!(
            greatest_common_divisor(
                r.numerator().unsigned_abs(),
                r.denominator().unsigned_abs()
            ),
            1
        );
    }
}

#[test]
fn greatest_common_divisor_of_machine_integers() {
    assert_eq!(greatest_common_divisor(0, 0), 0);
    assert_eq!(greatest_common_divisor(10, 0), 10);
    assert_eq!(greatest_common_divisor(0, 10), 10);
    assert_eq!(greatest_common_divisor(2024, 748), 44);
    assert_eq!(greatest_common_divisor(17, 5), 1);
}

#[test]
fn cmp_orders_by_value() {
    let half = Rational::new(1, 2);
    let third = Rational::new(1, 3);
    assert_eq!(half.cmp(&third), Ordering::Greater);
    assert_eq!(third.cmp(&half), Ordering::Less);
    assert_eq!(half.cmp(&Rational::new(2, 4)), Ordering::Equal);
    assert_eq!(half.neg().cmp(&third), Ordering::Less);
    assert_eq!(third.cmp(&half.neg()), Ordering::Greater);
    assert_eq!(half.neg().cmp(&third.neg()), Ordering::Less);
    assert_eq!(third.neg().cmp(&half.neg()), Ordering::Greater);
    assert_eq!(Rational::new(0, 1).cmp(&Rational::new(0, 5)), Ordering::Equal);
    assert_eq!(Rational::new(0, 1).cmp(&third.neg()), Ordering::Greater);
}

#[test]
fn cmp_orders_values_whose_products_are_too_wide() {
    let a = Rational::new(i128::MAX, i128::MAX - 1);
    let b = Rational::new(i128::MAX - 1, i128::MAX - 2);
    // a = 1 + 1/(MAX-1) is below b = 1 + 1/(MAX-2)
    assert_eq!(a.cmp(&b), Ordering::Less);
    assert_eq!(b.cmp(&a), Ordering::Greater);
    assert_eq!(a.cmp(&a), Ordering::Equal);
    assert_eq!(a.neg().cmp(&b.neg()), Ordering::Greater);
    assert_eq!(Rational::new(i128::MAX, 1).cmp(&Rational::new(1, i128::MAX)), Ordering::Greater);
    assert_eq!(Rational::new(-i128::MAX, 1).cmp(&Rational::new(i128::MAX, 1)), Ordering::Less);
}

#[test]
fn wide_product_of_the_widest_integers() {
    assert_eq!(wide_product(0, u128::MAX), (0, 0));
    assert_eq!(wide_product(1, u128::MAX), (0, u128::MAX));
    assert_eq!(wide_product(2, u128::MAX), (1, u128::MAX - 1));
    assert_eq!(wide_product(u128::MAX, u128::MAX), (u128::MAX - 1, 1));
    assert_eq!(wide_product(1 << 64, 1 << 64), (1, 0));
    assert_eq!(wide_product(12345, 6789), (0, 12345 * 6789));
}

#[test]
fn integer_power_of_machine_integers() {
    assert_eq!(integer_power(3, 4), Ok(81));
    assert_eq!(integer_power(-3, 3), Ok(-27));
    assert_eq!(integer_power(10, 38), Ok(100000000000000000000000000000000000000));
    assert_eq!(integer_power(10, 39), Err(ArithmeticError::Overflow));
    assert_eq!(integer_power(-2, 127), Err(ArithmeticError::Overflow));
    assert_eq!(integer_power(0, 0), Ok(1));
}

#[test]
fn messages_of_errors() {
    assert_eq!(Error::Syntax("1 +".to_string()).message(), "Syntax error: 1 +");
    assert_eq!(Error::UnknownVariable("y".to_string()).message(), "Unknown variable: y");
    assert_eq!(Error::DivisionByZero.message(), "Division by zero");
    assert_eq!(Error::Overflow.message(), "Overflow");
    assert_eq!(Error::of(ArithmeticError::Overflow), Error::Overflow);
    assert_eq!(Error::of(ArithmeticError::DivisionByZero), Error::DivisionByZero);
}
