//! The grammar of a line, as a function from its tokens to its tree.
//!
//! A line is a binding, `name = expression`, or an expression. In an
//! expression the operators bind by their powers: `+` and `-` weakest, then
//! `*`, `/`, `%` and the multiplication that two adjacent operands imply,
//! then `^`, which groups to the right where the others group to the left,
//! and strongest the `-` before an operand.

use crate::literal::literal_value;
use crate::ast::{BinaryOp, UnaryOp};
use crate::rational::Rational;
use crate::token::{tokens_of, Token, TokenKind};
use vstd::prelude::*;

verus! {

/// The tree of a line, with its names as sequences of characters.
#[allow(inconsistent_fields)]
pub enum Expr {
    Number(Rational),
    Identifier(Seq<char>),
    Binding { name: Seq<char>, value: Box<Expr> },
    BinaryOp { op: BinaryOp, lhs: Box<Expr>, rhs: Box<Expr> },
    UnaryOp { op: UnaryOp, value: Box<Expr> },
    ToFloat(Box<Expr>),
}

/// The characters that a token covers.
pub open spec fn text_of(s: Seq<char>, token: Token) -> Seq<char> {
    s.subrange(token.start as int, token.end as int)
}

/// The operator that stands at `pos`, with the count of tokens it takes: one
/// for a sign, none for the multiplication that the start of an operand
/// implies.
pub open spec fn infix_at(tokens: Seq<Token>, pos: int) -> Option<(BinaryOp, int)> {
    if 0 <= pos < tokens.len() {
        match tokens[pos].kind {
            TokenKind::Plus => Some((BinaryOp::Add, 1int)),
            TokenKind::Minus => Some((BinaryOp::Sub, 1int)),
            TokenKind::Times => Some((BinaryOp::Mul, 1int)),
            TokenKind::Divide => Some((BinaryOp::Div, 1int)),
            TokenKind::Modulo => Some((BinaryOp::Modulo, 1int)),
            TokenKind::Power => Some((BinaryOp::Power, 1int)),
            TokenKind::Number
            | TokenKind::Identifier
            | TokenKind::Open
            | TokenKind::Convert => Some((BinaryOp::Mul, 0int)),
            TokenKind::Assign | TokenKind::Close => None,
        }
    } else {
        None
    }
}

/// How strongly an operator binds the operand on its left.
pub open spec fn left_power(op: BinaryOp) -> nat {
    match op {
        BinaryOp::Add | BinaryOp::Sub => 1,
        BinaryOp::Mul | BinaryOp::Div | BinaryOp::Modulo => 2,
        BinaryOp::Power => 3,
    }
}

/// The least power that an operator must have to be taken into the right
/// operand of `op`: more than that of `op` where `op` groups to the left,
/// that of `op` where it groups to the right.
pub open spec fn right_power(op: BinaryOp) -> nat {
    match op {
        BinaryOp::Add | BinaryOp::Sub => 2,
        BinaryOp::Mul | BinaryOp::Div | BinaryOp::Modulo => 3,
        BinaryOp::Power => 3,
    }
}

/// An operand at `pos`, and where it ends: a number, a name, an expression
/// in brackets, a conversion `~( .. )`, or `-` before an operand.
pub open spec fn parse_operand(s: Seq<char>, tokens: Seq<Token>, pos: int) -> Option<(Expr, int)>
    decreases tokens.len() - pos, 0nat,
{
    if !(0 <= pos < tokens.len()) {
        None
    } else {
        match tokens[pos].kind {
            TokenKind::Number => match literal_value(text_of(s, tokens[pos])) {
                Some(value) => Some((Expr::Number(value), pos + 1)),
                None => None,
            },
            TokenKind::Identifier => Some((Expr::Identifier(text_of(s, tokens[pos])), pos + 1)),
            TokenKind::Minus => match parse_operand(s, tokens, pos + 1) {
                Some((value, end)) => Some(
                    (Expr::UnaryOp { op: UnaryOp::Neg, value: Box::new(value) }, end),
                ),
                None => None,
            },
            TokenKind::Open => match parse_expression(s, tokens, pos + 1, 0) {
                Some((inner, end)) => if 0 <= end < tokens.len() && tokens[end].kind
                    == TokenKind::Close {
                    Some((inner, end + 1))
                } else {
                    None
                },
                None => None,
            },
            TokenKind::Convert => if pos + 1 < tokens.len() && tokens[pos + 1].kind
                == TokenKind::Open {
                match parse_expression(s, tokens, pos + 2, 0) {
                    Some((inner, end)) => if 0 <= end < tokens.len() && tokens[end].kind
                        == TokenKind::Close {
                        Some((Expr::ToFloat(Box::new(inner)), end + 1))
                    } else {
                        None
                    },
                    None => None,
                }
            } else {
                None
            },
            _ => None,
        }
    }
}

/// An expression at `pos` of operators that bind with at least the power
/// `min`, and where it ends.
pub open spec fn parse_expression(s: Seq<char>, tokens: Seq<Token>, pos: int, min: nat) -> Option<
    (Expr, int),
>
    decreases tokens.len() - pos, 1nat,
{
    match parse_operand(s, tokens, pos) {
        Some((lhs, end)) => if pos < end <= tokens.len() {
            parse_tail(s, tokens, lhs, end, min)
        } else {
            None
        },
        None => None,
    }
}

/// The expression that `lhs` begins, with what follows it at `pos`: the
/// operators that bind with at least the power `min`, each with its right
/// operand.
pub open spec fn parse_tail(
    s: Seq<char>,
    tokens: Seq<Token>,
    lhs: Expr,
    pos: int,
    min: nat,
) -> Option<(Expr, int)>
    decreases tokens.len() - pos, 2nat,
{
    match infix_at(tokens, pos) {
        Some((op, width)) => if left_power(op) < min {
            Some((lhs, pos))
        } else {
            match parse_expression(s, tokens, pos + width, right_power(op)) {
                Some((rhs, end)) => if pos < end <= tokens.len() {
                    parse_tail(
                        s,
                        tokens,
                        Expr::BinaryOp { op, lhs: Box::new(lhs), rhs: Box::new(rhs) },
                        end,
                        min,
                    )
                } else {
                    None
                },
                None => None,
            }
        },
        None => Some((lhs, pos)),
    }
}

/// Whether the tokens begin as a binding does: a name, then `=`.
pub open spec fn begins_binding(tokens: Seq<Token>) -> bool {
    tokens.len() >= 2 && tokens[0].kind == TokenKind::Identifier && tokens[1].kind
        == TokenKind::Assign
}

/// The expression that the tokens from `pos` to the last one make up.
pub open spec fn parse_whole(s: Seq<char>, tokens: Seq<Token>, pos: int) -> Option<Expr> {
    match parse_expression(s, tokens, pos, 0) {
        Some((e, end)) => if end == tokens.len() {
            Some(e)
        } else {
            None
        },
        None => None,
    }
}

/// The tree of a line, given its tokens.
pub open spec fn parse_tokens(s: Seq<char>, tokens: Seq<Token>) -> Option<Expr> {
    if begins_binding(tokens) {
        match parse_whole(s, tokens, 2) {
            Some(value) => Some(
                Expr::Binding { name: text_of(s, tokens[0]), value: Box::new(value) },
            ),
            None => None,
        }
    } else {
        parse_whole(s, tokens, 0)
    }
}

/// The tree of a line. A line that is no binding and no expression has none.
pub open spec fn parse_line(s: Seq<char>) -> Option<Expr> {
    match tokens_of(s) {
        Some(tokens) => parse_tokens(s, tokens),
        None => None,
    }
}

} // verus!
