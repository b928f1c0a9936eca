//! An arithmetic expression evaluator over exact rational numbers.
//!
//! A line of text is split into tokens, the tokens are built into a tree,
//! and the tree is evaluated against the variables of a session. Values are
//! exact fractions as long as they can be; an approximate value is handed
//! out as the double-precision computation that yields it.
//!
//! Exact arithmetic is checked: an operation that would form an integer
//! outside the integer width fails with an overflow error.

use vstd::prelude::*;

pub mod approx;
pub mod ast;
pub mod decimal;
pub mod divisor;
pub mod error;
pub mod eval;
pub mod grammar;
pub mod literal;
pub mod order;
pub mod power;
pub mod promotion;
pub mod rational;
pub mod reading;
pub mod token;
pub mod wide;

use crate::ast::Ast;
use crate::error::{Error, Failure};
use crate::eval::{evaluate, Bindings, Env, Number};
use crate::grammar::parse_line;

verus! {

/// What a line comes to under the given bindings: the value of its tree and
/// the bindings after it, or a syntax error where it has no tree.
pub open spec fn outcome(line: Seq<char>, env: Bindings) -> Result<(Number, Bindings), Failure> {
    match parse_line(line) {
        Some(e) => evaluate(e, env),
        None => Err(Failure::Syntax(line)),
    }
}

/// Reads a line and evaluates it against the session. Where it fails, the
/// session is as it was.
pub fn run(line: &str, env: &mut Env) -> (r: Result<Number, Error>)
    ensures
        match outcome(line@, old(env)@) {
            Ok((v, after)) => r matches Ok(x) && x == v && final(env)@ == after,
            Err(f) => r matches Err(e) && e@ == f && final(env)@ == old(env)@,
        },
{
    let ast = Ast::from_line(line)?;
    eval::eval(ast, env)
}

} // verus!
