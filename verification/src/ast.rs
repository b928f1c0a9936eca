//! The tree of a line, and how it is built from the line's tokens.

use crate::error::{Error, Failure};
use crate::grammar::{
    begins_binding, infix_at, left_power, parse_expression, parse_line, parse_operand, parse_tail,
    parse_tokens, parse_whole, right_power, text_of, Expr,
};
use crate::literal::{literal_value, parse_literal};
use crate::rational::Rational;
use crate::token::{tokenize, tokens_fit, Token, TokenKind};
use vstd::prelude::*;
use vstd::string::StrSliceExecFns;
use vstd::utf8::is_ascii_chars;

verus! {

/// An operator between two operands.
#[derive(Clone, Copy, PartialEq, Eq, Structural, Debug)]
pub enum BinaryOp {
    Add,
    Sub,
    Mul,
    Div,
    Modulo,
    Power,
}

/// An operator before one operand.
#[derive(Clone, Copy, PartialEq, Eq, Structural, Debug)]
pub enum UnaryOp {
    Neg,
}

/// The tree of one line.
#[derive(PartialEq, Eq, Debug)]
pub struct Ast {
    pub root: Node,
}

/// A node of the tree. It owns its children.
#[allow(inconsistent_fields)]
#[derive(PartialEq, Eq, Debug)]
pub enum Node {
    Number(Rational),
    Identifier(String),
    Binding { name: String, value: Box<Node> },
    BinaryOp { op: BinaryOp, lhs: Box<Node>, rhs: Box<Node> },
    UnaryOp { op: UnaryOp, value: Box<Node> },
    ToFloat(Box<Node>),
}

impl View for Node {
    type V = Expr;

    open spec fn view(&self) -> Expr
        decreases self,
    {
        match self {
            Node::Number(value) => Expr::Number(*value),
            Node::Identifier(name) => Expr::Identifier(name@),
            Node::Binding { name, value } => Expr::Binding {
                name: name@,
                value: Box::new((**value).view()),
            },
            Node::BinaryOp { op, lhs, rhs } => Expr::BinaryOp {
                op: *op,
                lhs: Box::new((**lhs).view()),
                rhs: Box::new((**rhs).view()),
            },
            Node::UnaryOp { op, value } => Expr::UnaryOp {
                op: *op,
                value: Box::new((**value).view()),
            },
            Node::ToFloat(value) => Expr::ToFloat(Box::new((**value).view())),
        }
    }
}

impl View for Ast {
    type V = Expr;

    open spec fn view(&self) -> Expr {
        self.root@
    }
}

/// The text that a token covers.
fn token_text<'a>(line: &'a str, tokens: &Vec<Token>, pos: usize) -> (text: &'a str)
    requires
        is_ascii_chars(line@),
        tokens_fit(line@, tokens@),
        pos < tokens.len(),
    ensures
        text@ == text_of(line@, tokens@[pos as int]),
{
    let token = tokens[pos];
    line.substring_ascii(token.start, token.end)
}

/// The operator that stands at `pos`, with the count of tokens it takes.
fn infix_token(tokens: &Vec<Token>, pos: usize) -> (r: Option<(BinaryOp, usize)>)
    ensures
        match infix_at(tokens@, pos as int) {
            Some((op, width)) => r == Some((op, width as usize)) && 0 <= width <= 1,
            None => r is None,
        },
{
    if pos >= tokens.len() {
        return None;
    }
    match tokens[pos].kind {
        TokenKind::Plus => Some((BinaryOp::Add, 1)),
        TokenKind::Minus => Some((BinaryOp::Sub, 1)),
        TokenKind::Times => Some((BinaryOp::Mul, 1)),
        TokenKind::Divide => Some((BinaryOp::Div, 1)),
        TokenKind::Modulo => Some((BinaryOp::Modulo, 1)),
        TokenKind::Power => Some((BinaryOp::Power, 1)),
        TokenKind::Number | TokenKind::Identifier | TokenKind::Open | TokenKind::Convert => Some(
            (BinaryOp::Mul, 0),
        ),
        TokenKind::Assign | TokenKind::Close => None,
    }
}

/// How strongly an operator binds the operand on its left.
fn left_binding(op: BinaryOp) -> (power: u8)
    ensures
        power == left_power(op),
{
    match op {
        BinaryOp::Add | BinaryOp::Sub => 1,
        BinaryOp::Mul | BinaryOp::Div | BinaryOp::Modulo => 2,
        BinaryOp::Power => 3,
    }
}

/// The least power that goes into the right operand of an operator.
fn right_binding(op: BinaryOp) -> (power: u8)
    ensures
        power == right_power(op),
{
    match op {
        BinaryOp::Add | BinaryOp::Sub => 2,
        BinaryOp::Mul | BinaryOp::Div | BinaryOp::Modulo => 3,
        BinaryOp::Power => 3,
    }
}

/// Whether the token at `pos` is of the given kind.
fn kind_at(tokens: &Vec<Token>, pos: usize, kind: TokenKind) -> (b: bool)
    ensures
        b == (pos < tokens.len() && tokens@[pos as int].kind == kind),
{
    pos < tokens.len() && tokens[pos].kind == kind
}

impl Node {
    /// The node of a number literal: the exact value that its digits spell.
    /// A text that is no number literal, or whose integers do not fit, is a
    /// syntax error.
    pub fn from_number(number: &str) -> (r: Result<Node, Error>)
        ensures
            match literal_value(number@) {
                Some(value) => r == Ok::<Node, Error>(Node::Number(value)),
                None => r matches Err(e) && e@ == Failure::Syntax(number@),
            },
    {
        match parse_literal(number) {
            Some(value) => Ok(Node::Number(value)),
            None => Err(Error::Syntax(number.to_owned())),
        }
    }

    /// The operand at `pos` and the place behind it.
    fn from_operand(line: &str, tokens: &Vec<Token>, pos: usize) -> (r: Option<(Node, usize)>)
        requires
            is_ascii_chars(line@),
            tokens_fit(line@, tokens@),
        ensures
            match parse_operand(line@, tokens@, pos as int) {
                Some((e, end)) => r matches Some((node, at)) && node@ == e && at == end && pos < at
                    <= tokens.len(),
                None => r is None,
            },
        decreases tokens.len() - pos, 0nat,
    {
        if pos >= tokens.len() {
            return None;
        }
        match tokens[pos].kind {
            TokenKind::Number => match Node::from_number(token_text(line, tokens, pos)) {
                Ok(node) => Some((node, pos + 1)),
                Err(_) => None,
            },
            TokenKind::Identifier => Some(
                (Node::Identifier(token_text(line, tokens, pos).to_owned()), pos + 1),
            ),
            TokenKind::Minus => match Node::from_operand(line, tokens, pos + 1) {
                Some((value, end)) => Some(
                    (Node::UnaryOp { op: UnaryOp::Neg, value: Box::new(value) }, end),
                ),
                None => None,
            },
            TokenKind::Open => match Node::from_expression(line, tokens, pos + 1, 0) {
                Some((inner, end)) => if kind_at(tokens, end, TokenKind::Close) {
                    Some((inner, end + 1))
                } else {
                    None
                },
                None => None,
            },
            TokenKind::Convert => if kind_at(tokens, pos + 1, TokenKind::Open) {
                match Node::from_expression(line, tokens, pos + 2, 0) {
                    Some((inner, end)) => if kind_at(tokens, end, TokenKind::Close) {
                        Some((Node::ToFloat(Box::new(inner)), end + 1))
                    } else {
                        None
                    },
                    None => None,
                }
            } else {
                None
            },
            _ => None,
        }
    }

    /// The expression at `pos` of operators that bind with at least the
    /// power `min`, and the place behind it. The operand comes first; then,
    /// as long as an operator follows that binds strongly enough, its right
    /// operand is read with the power that the operator asks for, and the
    /// two become the left operand of what follows.
    fn from_expression(line: &str, tokens: &Vec<Token>, pos: usize, min: u8) -> (r: Option<
        (Node, usize),
    >)
        requires
            is_ascii_chars(line@),
            tokens_fit(line@, tokens@),
        ensures
            match parse_expression(line@, tokens@, pos as int, min as nat) {
                Some((e, end)) => r matches Some((node, at)) && node@ == e && at == end && pos < at
                    <= tokens.len(),
                None => r is None,
            },
        decreases tokens.len() - pos, 1nat,
    {
        let (mut lhs, mut at) = match Node::from_operand(line, tokens, pos) {
            Some(found) => found,
            None => {
                return None;
            },
        };
        loop
            invariant
                is_ascii_chars(line@),
                tokens_fit(line@, tokens@),
                pos < at <= tokens.len(),
                parse_expression(line@, tokens@, pos as int, min as nat) == parse_tail(
                    line@,
                    tokens@,
                    lhs@,
                    at as int,
                    min as nat,
                ),
            decreases tokens.len() - at,
        {
            let (op, width) = match infix_token(tokens, at) {
                Some(found) => found,
                None => {
                    return Some((lhs, at));
                },
            };
            if left_binding(op) < min {
                return Some((lhs, at));
            }
            match Node::from_expression(line, tokens, at + width, right_binding(op)) {
                Some((rhs, end)) => {
                    lhs = Node::BinaryOp { op, lhs: Box::new(lhs), rhs: Box::new(rhs) };
                    at = end;
                },
                None => {
                    return None;
                },
            }
        }
    }

    /// The expression that the tokens from `pos` to the last one make up.
    fn from_whole(line: &str, tokens: &Vec<Token>, pos: usize) -> (r: Option<Node>)
        requires
            is_ascii_chars(line@),
            tokens_fit(line@, tokens@),
        ensures
            match parse_whole(line@, tokens@, pos as int) {
                Some(e) => r matches Some(node) && node@ == e,
                None => r is None,
            },
    {
        match Node::from_expression(line, tokens, pos, 0) {
            Some((node, end)) => if end == tokens.len() {
                Some(node)
            } else {
                None
            },
            None => None,
        }
    }

    /// The binding that the tokens make up: the name, and the expression
    /// behind the `=`.
    fn from_binding(line: &str, tokens: &Vec<Token>) -> (r: Option<Node>)
        requires
            is_ascii_chars(line@),
            tokens_fit(line@, tokens@),
            begins_binding(tokens@),
        ensures
            match parse_tokens(line@, tokens@) {
                Some(e) => r matches Some(node) && node@ == e,
                None => r is None,
            },
    {
        let name = token_text(line, tokens, 0).to_owned();
        match Node::from_whole(line, tokens, 2) {
            Some(value) => Some(Node::Binding { name, value: Box::new(value) }),
            None => None,
        }
    }
}

impl Ast {
    /// The tree of a line: a binding where the line begins with a name and
    /// `=`, an expression where it does not. A line that is neither is a
    /// syntax error, which holds the line.
    pub fn from_line(line: &str) -> (r: Result<Ast, Error>)
        ensures
            match parse_line(line@) {
                Some(e) => r matches Ok(ast) && ast@ == e,
                None => r matches Err(e) && e@ == Failure::Syntax(line@),
            },
    {
        let tokens = match tokenize(line) {
            Some(tokens) => tokens,
            None => {
                return Err(Error::Syntax(line.to_owned()));
            },
        };
        let root = if kind_at(&tokens, 0, TokenKind::Identifier) && kind_at(
            &tokens,
            1,
            TokenKind::Assign,
        ) {
            Node::from_binding(line, &tokens)
        } else {
            Node::from_whole(line, &tokens, 0)
        };
        match root {
            Some(root) => Ok(Ast { root }),
            None => Err(Error::Syntax(line.to_owned())),
        }
    }
}

} // verus!
