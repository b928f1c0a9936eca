//! Number literals: digits, separators and a decimal point.

use crate::decimal::{
    all_digits, decimal_digits, decimal_number, decimal_value, is_digit, lemma_decimal_round_trip,
};
use crate::divisor::gcd;
use crate::power::integer_power;
use crate::rational::{fits, ArithmeticError, Rational};
use crate::token::{char_at, char_count, is_digit_char};
use vstd::arithmetic::power::{lemma_pow0, lemma_pow_positive, pow};
use vstd::math::abs;
use vstd::prelude::*;
use vstd::utf8::is_ascii_chars;

verus! {

/// Holds of every character but the separator of digits, `_`.
pub open spec fn not_separator() -> spec_fn(char) -> bool {
    |c: char| c != '_'
}

/// The place of the first decimal point, or the length where there is none.
pub open spec fn point_position(t: Seq<char>) -> int {
    match t.index_of_first('.') {
        Some(i) => i,
        None => t.len() as int,
    }
}

/// The digits before the first decimal point.
pub open spec fn whole_digits(t: Seq<char>) -> Seq<char> {
    t.take(point_position(t))
}

/// What follows the first decimal point.
pub open spec fn fraction_digits(t: Seq<char>) -> Seq<char> {
    if point_position(t) < t.len() {
        t.skip(point_position(t) + 1)
    } else {
        Seq::empty()
    }
}

/// The value of a number literal. The separators are dropped. What is left
/// is digits, or digits, a point and digits: it denotes the number that all
/// its digits spell, over ten to the power of the count of digits behind the
/// point. There is no value where the text has another form, or where one of
/// the two integers does not fit.
pub open spec fn literal_value(s: Seq<char>) -> Option<Rational> {
    let t = s.filter(not_separator());
    let whole = whole_digits(t);
    let fraction = fraction_digits(t);
    let n = decimal_value(whole + fraction) as int;
    let d = pow(10, fraction.len());
    if whole.len() > 0 && all_digits(whole) && all_digits(fraction) && (point_position(t) < t.len()
        ==> fraction.len() > 0) && fits(n) && fits(d) {
        Some(Rational::reduced(n, d))
    } else {
        None
    }
}

/// The place that holds the first point is the first point's place.
proof fn lemma_point_position(t: Seq<char>, p: int)
    requires
        0 <= p <= t.len(),
        forall|j: int| 0 <= j < p ==> t[j] != '.',
        p < t.len() ==> t[p] == '.',
    ensures
        point_position(t) == p,
{
    t.index_of_first_ensures('.');
    match t.index_of_first('.') {
        Some(i) => {
            if p == t.len() {
                assert(t[i] == '.');
            } else if i < p {
                assert(t[i] != '.');
            } else if p < i {
                assert(t[p] != '.');
            }
        },
        None => {
            if p < t.len() {
                assert(t.contains(t[p]));
            }
        },
    }
}

/// The digits of an integer that fits are a literal of that integer.
pub proof fn lemma_digits_are_a_literal(n: nat)
    requires
        fits(n as int),
    ensures
        literal_value(decimal_digits(n)) == Some(Rational::of(n as int, 1)),
{
    let s = decimal_digits(n);
    lemma_decimal_round_trip(n);
    lemma_all_kept(s);
    let t = s.filter(not_separator());
    assert(t == s);
    lemma_point_position(t, t.len() as int);
    assert(whole_digits(t) =~= s);
    assert(fraction_digits(t) =~= Seq::<char>::empty());
    assert(whole_digits(t) + fraction_digits(t) =~= s);
    lemma_pow0(10);
    reveal_with_fuel(gcd, 3);
    assert(gcd(n, 1) == 1);
    assert(abs(n as int) == n);
    assert(abs(1) == 1);
    assert(Rational::reduced(n as int, 1) == Rational::of(n as int, 1));
}

/// A text without separators is what is left of it without separators.
proof fn lemma_all_kept(s: Seq<char>)
    requires
        forall|i: int| 0 <= i < s.len() ==> #[trigger] s[i] != '_',
    ensures
        s.filter(not_separator()) == s,
    decreases s.len(),
{
    reveal(Seq::filter);
    if s.len() > 0 {
        lemma_all_kept(s.drop_last());
        assert(not_separator()(s.last()));
        assert(s.drop_last().push(s.last()) =~= s);
    }
}

/// A text with a character outside the basic set is no number literal.
proof fn lemma_literal_is_basic(s: Seq<char>)
    requires
        !is_ascii_chars(s),
    ensures
        literal_value(s) is None,
{
    let i = choose|i: int| 0 <= i < s.len() && !('\0' <= #[trigger] s[i] <= '\u{7f}');
    let c = s[i];
    let t = s.filter(not_separator());
    assert(not_separator()(c));
    s.lemma_filter_contains(not_separator(), i);
    let j = choose|j: int| 0 <= j < t.len() && t[j] == c;
    let p = point_position(t);
    t.index_of_first_ensures('.');
    if j < p {
        assert(whole_digits(t)[j] == c);
    } else {
        assert(j > p);
        assert(fraction_digits(t)[j - p - 1] == c);
    }
}

/// The characters of a text without its separators.
fn strip_separators(number: &str) -> (t: Vec<char>)
    requires
        is_ascii_chars(number@),
    ensures
        t@ == number@.filter(not_separator()),
{
    let n = char_count(number);
    let mut t: Vec<char> = Vec::new();
    let mut i: usize = 0;
    proof {
        assert(number@.take(0) =~= Seq::<char>::empty());
        reveal(Seq::filter);
    }
    while i < n
        invariant
            is_ascii_chars(number@),
            n == number@.len(),
            i <= n,
            t@ == number@.take(i as int).filter(not_separator()),
        decreases n - i,
    {
        let c = char_at(number, i);
        proof {
            assert(number@.take(i + 1) =~= number@.take(i as int).push(c));
            number@.take(i as int).lemma_filter_push(c, not_separator());
        }
        if c != '_' {
            t.push(c);
        }
        i = i + 1;
    }
    proof {
        assert(number@.take(n as int) =~= number@);
    }
    t
}

/// The place of the first decimal point, or the length where there is none.
fn find_point(t: &Vec<char>) -> (p: usize)
    ensures
        p == point_position(t@),
        p <= t@.len(),
{
    let mut p: usize = 0;
    while p < t.len() && t[p] != '.'
        invariant
            p <= t.len(),
            forall|j: int| 0 <= j < p ==> t@[j] != '.',
        decreases t.len() - p,
    {
        p = p + 1;
    }
    proof {
        lemma_point_position(t@, p as int);
    }
    p
}

/// The digits before and behind the point, in one row, where the text holds
/// nothing else.
fn collect_digits(t: &Vec<char>, p: usize) -> (r: Option<Vec<char>>)
    requires
        p == point_position(t@),
        p <= t@.len(),
    ensures
        match r {
            Some(digits) => all_digits(whole_digits(t@)) && all_digits(fraction_digits(t@))
                && digits@ == whole_digits(t@) + fraction_digits(t@),
            None => !all_digits(whole_digits(t@)) || !all_digits(fraction_digits(t@)),
        },
{
    let mut digits: Vec<char> = Vec::new();
    let mut i: usize = 0;
    while i < t.len()
        invariant
            i <= t.len(),
            p == point_position(t@),
            p <= t@.len(),
            all_digits(digits@),
            i <= p ==> digits@ == t@.take(i as int),
            i > p ==> digits@ == t@.take(p as int) + t@.subrange(p + 1, i as int),
        decreases t.len() - i,
    {
        let c = t[i];
        if i != p {
            if !is_digit_char(c) {
                proof {
                    if i < p {
                        assert(whole_digits(t@)[i as int] == c);
                    } else {
                        assert(fraction_digits(t@)[i - p - 1] == c);
                    }
                }
                return None;
            }
            digits.push(c);
        }
        proof {
            if i < p {
                assert(t@.take(i + 1) =~= t@.take(i as int).push(c));
            } else if i == p {
                assert(t@.take(p as int) + t@.subrange(p + 1, i + 1) =~= t@.take(i as int));
            } else {
                assert(t@.take(p as int) + t@.subrange(p + 1, i + 1) =~= (t@.take(p as int)
                    + t@.subrange(p + 1, i as int)).push(c));
            }
        }
        i = i + 1;
    }
    proof {
        let whole = whole_digits(t@);
        let fraction = fraction_digits(t@);
        if p < t@.len() {
            assert(fraction =~= t@.subrange(p + 1, t@.len() as int));
        } else {
            assert(t@.take(p as int) =~= t@);
            assert(whole + fraction =~= t@);
        }
        assert(digits@ == whole + fraction);
        assert forall|j: int| 0 <= j < whole.len() implies is_digit(#[trigger] whole[j]) by {
            assert(whole[j] == digits@[j]);
        }
        assert forall|j: int| 0 <= j < fraction.len() implies is_digit(#[trigger] fraction[j]) by {
            assert(fraction[j] == digits@[whole.len() + j]);
        }
    }
    Some(digits)
}

/// Reads a number literal.
pub fn parse_literal(number: &str) -> (r: Option<Rational>)
    ensures
        r == literal_value(number@),
        r matches Some(v) ==> v.valid(),
{
    if !number.is_ascii() {
        proof {
            lemma_literal_is_basic(number@);
        }
        return None;
    }
    let t = strip_separators(number);
    let p = find_point(&t);
    if p == 0 || (p < t.len() && t.len() - p == 1) {
        return None;
    }
    let places: usize = if p < t.len() {
        t.len() - p - 1
    } else {
        0
    };
    let digits = match collect_digits(&t, p) {
        Some(digits) => digits,
        None => {
            return None;
        },
    };
    let numerator = match decimal_number(&digits) {
        Some(n) => n,
        None => {
            return None;
        },
    };
    let denominator = match integer_power(10, places as u128) {
        Ok(d) => d,
        Err(_) => {
            return None;
        },
    };
    proof {
        lemma_pow_positive(10, places as nat);
        Rational::lemma_reduced_valid(numerator as int, denominator as int);
    }
    Some(Rational::new(numerator, denominator))
}

} // verus!
