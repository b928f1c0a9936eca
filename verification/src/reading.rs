//! The text of an exact value reads back as that value.

use crate::decimal::{
    all_digits, decimal_digits, is_digit, lemma_decimal_round_trip, lemma_fitting_digits_len,
};
use crate::divisor::gcd;
use crate::error::Failure;
use crate::eval::{apply_binary, apply_unary, evaluate, Bindings, Number};
use crate::grammar::{
    begins_binding, infix_at, parse_expression, parse_line, parse_operand, parse_tail,
    parse_tokens, parse_whole, text_of, Expr,
};
use crate::literal::{lemma_digits_are_a_literal, literal_value};
use crate::ast::{BinaryOp, UnaryOp};
use crate::outcome;
use crate::rational::{fits, integer_text, Rational};
use crate::token::{
    lemma_digits_are_a_token, lemma_sign_is_a_token, tokens_from, tokens_of, Token, TokenKind,
};
use vstd::math::abs;
use vstd::prelude::*;
use vstd::utf8::is_ascii_chars;

verus! {

/// The tokens of the text of a value: `-` where the value is negative, the
/// numerator, and `/` and the denominator where that is not one.
pub open spec fn text_tokens(r: Rational) -> Seq<Token> {
    let first = if r.num() < 0 {
        1int
    } else {
        0int
    };
    let slash = first + decimal_digits(abs(r.num())).len();
    let end = slash + 1 + decimal_digits(abs(r.den())).len();
    let sign = if r.num() < 0 {
        seq![Token { kind: TokenKind::Minus, start: 0, end: 1 }]
    } else {
        Seq::empty()
    };
    let numerator = seq![
        Token { kind: TokenKind::Number, start: first as usize, end: slash as usize },
    ];
    let denominator = if r.den() != 1 {
        seq![
            Token { kind: TokenKind::Divide, start: slash as usize, end: (slash + 1) as usize },
            Token { kind: TokenKind::Number, start: (slash + 1) as usize, end: end as usize },
        ]
    } else {
        Seq::empty()
    };
    sign + numerator + denominator
}

/// The tree of the text of a value: the numerator, negated where the value
/// is negative, and divided by the denominator where that is not one.
pub open spec fn text_tree(r: Rational) -> Expr {
    let magnitude = Expr::Number(Rational::of(abs(r.num()) as int, 1));
    let numerator = if r.num() < 0 {
        Expr::UnaryOp { op: UnaryOp::Neg, value: Box::new(magnitude) }
    } else {
        magnitude
    };
    if r.den() != 1 {
        Expr::BinaryOp {
            op: BinaryOp::Div,
            lhs: Box::new(numerator),
            rhs: Box::new(Expr::Number(Rational::of(r.den(), 1))),
        }
    } else {
        numerator
    }
}

/// The text of a value splits into the tokens that its parts make up.
pub proof fn lemma_text_tokens(r: Rational)
    requires
        r.valid(),
    ensures
        tokens_of(r.text()) == Some(text_tokens(r)),
{
    let s = r.text();
    let a = decimal_digits(abs(r.num()));
    let b = decimal_digits(abs(r.den()));
    lemma_decimal_round_trip(abs(r.num()));
    lemma_decimal_round_trip(abs(r.den()));
    lemma_fitting_digits_len(abs(r.num()));
    lemma_fitting_digits_len(abs(r.den()));
    let first = if r.num() < 0 {
        1int
    } else {
        0int
    };
    let slash = first + a.len();
    assert forall|i: int| first <= i < slash implies is_digit(#[trigger] s[i]) by {
        assert(s[i] == a[i - first]);
    }
    if r.den() != 1 {
        let end = slash + 1 + b.len();
        assert(s.len() == end);
        assert(s[slash] == '/');
        assert forall|i: int| slash + 1 <= i < end implies is_digit(#[trigger] s[i]) by {
            assert(s[i] == b[i - slash - 1]);
        }
        assert(tokens_from(s, end) == Some(Seq::<Token>::empty()));
        lemma_digits_are_a_token(s, slash + 1, end);
        lemma_sign_is_a_token(s, slash, TokenKind::Divide);
        lemma_digits_are_a_token(s, first, slash);
    } else {
        assert(s.len() == slash);
        assert(tokens_from(s, slash) == Some(Seq::<Token>::empty()));
        lemma_digits_are_a_token(s, first, slash);
    }
    if r.num() < 0 {
        assert(s[0] == '-');
        lemma_sign_is_a_token(s, 0, TokenKind::Minus);
    }
    assert(tokens_from(s, 0)->Some_0 =~= text_tokens(r));
    assert forall|i: int| 0 <= i < s.len() implies '\0' <= #[trigger] s[i] <= '\u{7f}' by {
        if first <= i < slash {
            assert(is_digit(s[i]));
        } else if i > slash {
            assert(is_digit(s[i]));
        }
    }
}

/// The tokens of the text of a value make up the tree of that text.
pub proof fn lemma_text_parses(r: Rational)
    requires
        r.valid(),
    ensures
        parse_tokens(r.text(), text_tokens(r)) == Some(text_tree(r)),
{
    let s = r.text();
    let tokens = text_tokens(r);
    let a = decimal_digits(abs(r.num()));
    let b = decimal_digits(abs(r.den()));
    lemma_decimal_round_trip(abs(r.num()));
    lemma_decimal_round_trip(abs(r.den()));
    lemma_fitting_digits_len(abs(r.num()));
    lemma_fitting_digits_len(abs(r.den()));
    lemma_digits_are_a_literal(abs(r.num()));
    lemma_digits_are_a_literal(abs(r.den()));
    let first = if r.num() < 0 {
        1int
    } else {
        0int
    };
    let slash = first + a.len();
    let magnitude = Expr::Number(Rational::of(abs(r.num()) as int, 1));
    let numerator = if r.num() < 0 {
        Expr::UnaryOp { op: UnaryOp::Neg, value: Box::new(magnitude) }
    } else {
        magnitude
    };
    // the numerator, with its sign
    assert(tokens[first].kind == TokenKind::Number);
    assert(text_of(s, tokens[first]) =~= a);
    assert(parse_operand(s, tokens, first) == Some((magnitude, first + 1)));
    if r.num() < 0 {
        assert(tokens[0].kind == TokenKind::Minus);
    }
    assert(parse_operand(s, tokens, 0) == Some((numerator, first + 1)));
    assert(!begins_binding(tokens));
    if r.den() != 1 {
        let end = slash + 1 + b.len();
        let denominator = Expr::Number(Rational::of(r.den(), 1));
        assert(tokens.len() == first + 3);
        assert(tokens[first + 1].kind == TokenKind::Divide);
        assert(tokens[first + 2].kind == TokenKind::Number);
        assert(text_of(s, tokens[first + 2]) =~= b);
        assert(parse_operand(s, tokens, first + 2) == Some((denominator, first + 3)));
        assert(infix_at(tokens, first + 3) is None);
        assert(parse_tail(s, tokens, denominator, first + 3, 3) == Some(
            (denominator, first + 3),
        ));
        assert(parse_expression(s, tokens, first + 2, 3) == Some((denominator, first + 3)));
        assert(infix_at(tokens, first + 1) == Some((BinaryOp::Div, 1int)));
        assert(parse_tail(s, tokens, text_tree(r), first + 3, 0) == Some(
            (text_tree(r), first + 3),
        ));
        assert(parse_tail(s, tokens, numerator, first + 1, 0) == Some((text_tree(r), first + 3)));
        assert(parse_expression(s, tokens, 0, 0) == Some((text_tree(r), first + 3)));
    } else {
        assert(tokens.len() == first + 1);
        assert(infix_at(tokens, first + 1) is None);
        assert(parse_tail(s, tokens, numerator, first + 1, 0) == Some((numerator, first + 1)));
        assert(parse_expression(s, tokens, 0, 0) == Some((text_tree(r), first + 1)));
    }
    assert(parse_whole(s, tokens, 0) == Some(text_tree(r)));
}

/// The tree of the text of a value comes to that value, and binds nothing.
pub proof fn lemma_text_tree_evaluates(r: Rational, env: Bindings)
    requires
        r.valid(),
    ensures
        evaluate(text_tree(r), env) == Ok::<(Number, Bindings), Failure>(
            (Number::Rational(r), env),
        ),
{
    let n = r.num();
    let d = r.den();
    let k = abs(n) as int;
    r.lemma_width();
    let magnitude = Rational::of(k, 1);
    let whole = Rational::of(n, 1);
    let divisor = Rational::of(d, 1);
    Rational::lemma_of(k, 1);
    Rational::lemma_of(n, 1);
    Rational::lemma_of(d, 1);
    reveal_with_fuel(gcd, 3);
    assert(gcd(abs(-k), abs(1)) == 1);
    assert(Rational::reduced(-k, 1) == Rational::of(-k, 1));
    let numerator = if n < 0 {
        Expr::UnaryOp { op: UnaryOp::Neg, value: Box::new(Expr::Number(magnitude)) }
    } else {
        Expr::Number(magnitude)
    };
    assert(evaluate(Expr::Number(magnitude), env) == Ok::<(Number, Bindings), Failure>(
        (Number::Rational(magnitude), env),
    ));
    if n < 0 {
        assert(magnitude.negation() == whole);
        assert(apply_unary(UnaryOp::Neg, Number::Rational(magnitude)) == Number::Rational(whole));
    }
    assert(evaluate(numerator, env) == Ok::<(Number, Bindings), Failure>(
        (Number::Rational(whole), env),
    ));
    if d != 1 {
        assert(evaluate(Expr::Number(divisor), env) == Ok::<(Number, Bindings), Failure>(
            (Number::Rational(divisor), env),
        ));
        assert(n * 1 == n && 1 * d == d);
        assert(Rational::reduced(n, d) == r);
        assert(whole.quotient(divisor) == Ok::<Rational, crate::rational::ArithmeticError>(r));
        assert(apply_binary(BinaryOp::Div, Number::Rational(whole), Number::Rational(divisor))
            == Ok::<Number, Failure>(Number::Rational(r)));
    }
}

/// Reading the text of an exact value and evaluating it gives that value,
/// under any bindings, and leaves them as they are.
pub proof fn lemma_text_reads_back(r: Rational, env: Bindings)
    requires
        r.valid(),
    ensures
        outcome(r.text(), env) == Ok::<(Number, Bindings), Failure>((Number::Rational(r), env)),
{
    lemma_text_tokens(r);
    lemma_text_parses(r);
    lemma_text_tree_evaluates(r, env);
    assert(parse_line(r.text()) == Some(text_tree(r)));
}

} // verus!
