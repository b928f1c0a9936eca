//! When a value is exact and when it is approximate.

use crate::eval::{apply_binary, apply_unary, evaluate, Bindings, Number};
use crate::grammar::{
    infix_at, left_power, parse_expression, parse_line, parse_operand, parse_tail, right_power,
    Expr,
};
use crate::ast::BinaryOp;
use crate::token::{tokens_of, Token};
use vstd::prelude::*;

verus! {

/// Whether a binding stands anywhere in the tree.
pub open spec fn binds(e: Expr) -> bool
    decreases e,
{
    match e {
        Expr::Number(_) => false,
        Expr::Identifier(_) => false,
        Expr::Binding { .. } => true,
        Expr::UnaryOp { value, .. } => binds(*value),
        Expr::BinaryOp { lhs, rhs, .. } => binds(*lhs) || binds(*rhs),
        Expr::ToFloat(value) => binds(*value),
    }
}

/// Whether the tree binds at its root or nowhere: the trees of lines do.
pub open spec fn binds_at_root_only(e: Expr) -> bool {
    match e {
        Expr::Binding { value, .. } => !binds(*value),
        _ => !binds(e),
    }
}

/// Whether the tree holds an approximate operand: a conversion, or a name
/// that is bound to an approximate value.
pub open spec fn holds_approximate(e: Expr, env: Bindings) -> bool
    decreases e,
{
    match e {
        Expr::Number(_) => false,
        Expr::Identifier(name) => env.contains_key(name) && env[name] is FloatingPoint,
        Expr::Binding { value, .. } => holds_approximate(*value, env),
        Expr::UnaryOp { value, .. } => holds_approximate(*value, env),
        Expr::BinaryOp { lhs, rhs, .. } => holds_approximate(*lhs, env) || holds_approximate(
            *rhs,
            env,
        ),
        Expr::ToFloat(_) => true,
    }
}

/// Whether the tree holds a power whose exponent comes to an exact value
/// that is no integer.
pub open spec fn holds_fractional_power(e: Expr, env: Bindings) -> bool
    decreases e,
{
    match e {
        Expr::Number(_) => false,
        Expr::Identifier(_) => false,
        Expr::Binding { value, .. } => holds_fractional_power(*value, env),
        Expr::UnaryOp { value, .. } => holds_fractional_power(*value, env),
        Expr::BinaryOp { op, lhs, rhs } => holds_fractional_power(*lhs, env)
            || holds_fractional_power(*rhs, env) || (op == BinaryOp::Power && (evaluate(
            *rhs,
            env,
        ) matches Ok((Number::Rational(exponent), _)) && exponent.den() != 1)),
        Expr::ToFloat(value) => holds_fractional_power(*value, env),
    }
}

/// An operator with an approximate operand gives an approximate value, and
/// an operator on exact operands an exact one, but for a power under an
/// exponent that is no integer.
pub proof fn lemma_operator_promotion(op: BinaryOp, lhs: Number, rhs: Number)
    ensures
        (lhs is FloatingPoint || rhs is FloatingPoint) ==> apply_binary(op, lhs, rhs) matches Ok(
            Number::FloatingPoint(_),
        ),
        (lhs matches Number::Rational(_) && rhs matches Number::Rational(exponent) && !(op
            == BinaryOp::Power && exponent.den() != 1)) ==> !(apply_binary(op, lhs, rhs) matches Ok(
            Number::FloatingPoint(_),
        )),
        (lhs matches Number::Rational(_) && rhs matches Number::Rational(exponent) && op
            == BinaryOp::Power && exponent.den() != 1) ==> apply_binary(op, lhs, rhs) matches Ok(
            Number::FloatingPoint(_),
        ),
{
}

/// A tree without a binding leaves the bindings as they are, and its value
/// is approximate if and only if it holds an approximate operand or a power
/// under an exponent that is no integer.
pub proof fn lemma_promotion_without_binding(e: Expr, env: Bindings)
    requires
        !binds(e),
        evaluate(e, env) is Ok,
    ensures
        evaluate(e, env)->Ok_0.1 == env,
        evaluate(e, env)->Ok_0.0 is FloatingPoint <==> holds_approximate(e, env)
            || holds_fractional_power(e, env),
    decreases e,
{
    match e {
        Expr::Number(_) => {},
        Expr::Identifier(_) => {},
        Expr::Binding { .. } => {},
        Expr::UnaryOp { op, value } => {
            lemma_promotion_without_binding(*value, env);
        },
        Expr::BinaryOp { op, lhs, rhs } => {
            lemma_promotion_without_binding(*lhs, env);
            lemma_promotion_without_binding(*rhs, env);
            let l = evaluate(*lhs, env)->Ok_0.0;
            let r = evaluate(*rhs, env)->Ok_0.0;
            lemma_operator_promotion(op, l, r);
        },
        Expr::ToFloat(value) => {
            lemma_promotion_without_binding(*value, env);
        },
    }
}

/// Once an operand of a tree is approximate, its value is approximate; a
/// tree of exact operands without a power under an exponent that is no
/// integer has an exact value. This holds of every tree that binds at its
/// root or nowhere.
pub proof fn lemma_promotion(e: Expr, env: Bindings)
    requires
        binds_at_root_only(e),
        evaluate(e, env) is Ok,
    ensures
        evaluate(e, env)->Ok_0.0 is FloatingPoint <==> holds_approximate(e, env)
            || holds_fractional_power(e, env),
{
    match e {
        Expr::Binding { name, value } => {
            lemma_promotion_without_binding(*value, env);
        },
        _ => {
            lemma_promotion_without_binding(e, env);
        },
    }
}

/// An operand of the grammar holds no binding.
pub proof fn lemma_operand_binds_nothing(s: Seq<char>, tokens: Seq<Token>, pos: int)
    ensures
        parse_operand(s, tokens, pos) matches Some((e, _)) ==> !binds(e),
    decreases tokens.len() - pos, 0nat,
{
    if 0 <= pos < tokens.len() {
        lemma_operand_binds_nothing(s, tokens, pos + 1);
        lemma_expression_binds_nothing(s, tokens, pos + 1, 0);
        if pos + 1 < tokens.len() {
            lemma_expression_binds_nothing(s, tokens, pos + 2, 0);
        }
    }
}

/// An expression of the grammar holds no binding.
pub proof fn lemma_expression_binds_nothing(s: Seq<char>, tokens: Seq<Token>, pos: int, min: nat)
    ensures
        parse_expression(s, tokens, pos, min) matches Some((e, _)) ==> !binds(e),
    decreases tokens.len() - pos, 1nat,
{
    lemma_operand_binds_nothing(s, tokens, pos);
    if let Some((first, end)) = parse_operand(s, tokens, pos) {
        if pos < end <= tokens.len() {
            lemma_tail_binds_nothing(s, tokens, first, end, min);
        }
    }
}

/// What the grammar adds to an operand without a binding holds none.
pub proof fn lemma_tail_binds_nothing(
    s: Seq<char>,
    tokens: Seq<Token>,
    lhs: Expr,
    pos: int,
    min: nat,
)
    requires
        !binds(lhs),
    ensures
        parse_tail(s, tokens, lhs, pos, min) matches Some((e, _)) ==> !binds(e),
    decreases tokens.len() - pos, 2nat,
{
    if let Some((op, width)) = infix_at(tokens, pos) {
        if left_power(op) >= min {
            lemma_expression_binds_nothing(s, tokens, pos + width, right_power(op));
            if let Some((rhs, end)) = parse_expression(s, tokens, pos + width, right_power(op)) {
                if pos < end <= tokens.len() {
                    lemma_tail_binds_nothing(
                        s,
                        tokens,
                        Expr::BinaryOp { op, lhs: Box::new(lhs), rhs: Box::new(rhs) },
                        end,
                        min,
                    );
                }
            }
        }
    }
}

/// The tree of a line binds at its root or nowhere.
pub proof fn lemma_line_binds_at_root_only(s: Seq<char>)
    ensures
        parse_line(s) matches Some(e) ==> binds_at_root_only(e),
{
    if let Some(tokens) = tokens_of(s) {
        lemma_expression_binds_nothing(s, tokens, 0, 0);
        lemma_expression_binds_nothing(s, tokens, 2, 0);
    }
}

/// The value of a line is approximate if and only if the line holds an
/// approximate operand, or a power under an exponent that is no integer.
pub proof fn lemma_line_promotion(s: Seq<char>, env: Bindings)
    requires
        parse_line(s) is Some,
        evaluate(parse_line(s)->Some_0, env) is Ok,
    ensures
        evaluate(parse_line(s)->Some_0, env)->Ok_0.0 is FloatingPoint <==> holds_approximate(
            parse_line(s)->Some_0,
            env,
        ) || holds_fractional_power(parse_line(s)->Some_0, env),
{
    lemma_line_binds_at_root_only(s);
    lemma_promotion(parse_line(s)->Some_0, env);
}

} // verus!
