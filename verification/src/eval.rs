//! Evaluation of a tree against the variables of a session.

use crate::approx::Approx;
use crate::ast::{Ast, Node};
use crate::error::{Error, Failure};
use crate::grammar::Expr;
use crate::ast::{BinaryOp, UnaryOp};
use crate::rational::{ArithmeticError, PowResult, Rational};
use vstd::hash_map::StringHashMap;
use vstd::prelude::*;

verus! {

/// A value: exact, or approximate. What was computed from an approximate
/// value is approximate.
#[derive(PartialEq, Eq, Debug)]
pub enum Number {
    FloatingPoint(Approx),
    Rational(Rational),
}

impl Clone for Number {
    fn clone(&self) -> (copy: Number)
        ensures
            copy == *self,
    {
        match self {
            Number::FloatingPoint(a) => Number::FloatingPoint(a.clone()),
            Number::Rational(r) => Number::Rational(*r),
        }
    }
}

/// The values that the variables of a session are bound to.
pub type Bindings = Map<Seq<char>, Number>;

/// The variables of a session, each with the value last bound to it.
pub struct Env {
    variables: StringHashMap<Number>,
}

impl View for Env {
    type V = Bindings;

    closed spec fn view(&self) -> Bindings {
        self.variables@
    }
}

impl Env {
    /// A session in which nothing is bound.
    pub fn new() -> (env: Env)
        ensures
            env@ == Bindings::empty(),
    {
        Env { variables: StringHashMap::new() }
    }

    /// The value bound to a name.
    pub fn get(&self, name: &str) -> (r: Option<Number>)
        ensures
            r == if self@.contains_key(name@) {
                Some(self@[name@])
            } else {
                None::<Number>
            },
    {
        match self.variables.get(name) {
            Some(value) => Some(value.clone()),
            None => None,
        }
    }

    /// Binds a name to a value, in place of what it was bound to.
    pub fn insert(&mut self, name: String, value: Number)
        ensures
            final(self)@ == old(self)@.insert(name@, value),
    {
        self.variables.insert(name, value);
    }

    /// The number of names that are bound.
    pub fn len(&self) -> (n: usize)
        ensures
            n == self@.len(),
    {
        self.variables.len()
    }
}

/// The approximate value that stands for a value: itself, or the ratio of
/// the exact value's parts.
pub open spec fn approximate(n: Number) -> Approx {
    match n {
        Number::FloatingPoint(a) => a,
        Number::Rational(r) => Approx::Ratio(r),
    }
}

/// The negation of a value, of the same kind as the value.
pub open spec fn apply_unary(op: UnaryOp, value: Number) -> Number {
    match value {
        Number::FloatingPoint(a) => Number::FloatingPoint(Approx::Neg(Box::new(a))),
        Number::Rational(r) => Number::Rational(r.negation()),
    }
}

/// What an exact operation comes to as a value.
pub open spec fn exact_outcome(r: Result<Rational, ArithmeticError>) -> Result<Number, Failure> {
    match r {
        Ok(value) => Ok(Number::Rational(value)),
        Err(e) => Err(Failure::of(e)),
    }
}

/// What a power of exact values comes to as a value.
pub open spec fn power_outcome(r: Result<PowResult, ArithmeticError>) -> Result<Number, Failure> {
    match r {
        Ok(PowResult::Rational(value)) => Ok(Number::Rational(value)),
        Ok(PowResult::FloatingPoint(value)) => Ok(Number::FloatingPoint(value)),
        Err(e) => Err(Failure::of(e)),
    }
}

/// An operator applied to two values. Two exact values give what the exact
/// operator gives, which for a power under a fractional exponent is
/// approximate. Where one of the two is approximate, the other is made
/// approximate and the result is the double-precision operation on both.
pub open spec fn apply_binary(op: BinaryOp, lhs: Number, rhs: Number) -> Result<Number, Failure> {
    match (lhs, rhs) {
        (Number::Rational(a), Number::Rational(b)) => match op {
            BinaryOp::Add => exact_outcome(a.sum(b)),
            BinaryOp::Sub => exact_outcome(a.difference(b)),
            BinaryOp::Mul => exact_outcome(a.product(b)),
            BinaryOp::Div => exact_outcome(a.quotient(b)),
            BinaryOp::Modulo => exact_outcome(a.remainder(b)),
            BinaryOp::Power => power_outcome(a.power(b)),
        },
        _ => Ok(
            Number::FloatingPoint(
                Approx::Binary {
                    op,
                    lhs: Box::new(approximate(lhs)),
                    rhs: Box::new(approximate(rhs)),
                },
            ),
        ),
    }
}

/// The value of a tree under the given bindings, and the bindings after it.
/// A number is its exact value and a name what it is bound to. A binding
/// has the value of its expression and binds the name to it. The operands
/// of an operator are evaluated from left to right. The first failure is
/// the failure of the whole.
pub open spec fn evaluate(e: Expr, env: Bindings) -> Result<(Number, Bindings), Failure>
    decreases e,
{
    match e {
        Expr::Number(value) => Ok((Number::Rational(value), env)),
        Expr::Identifier(name) => if env.contains_key(name) {
            Ok((env[name], env))
        } else {
            Err(Failure::UnknownVariable(name))
        },
        Expr::Binding { name, value } => match evaluate(*value, env) {
            Ok((v, after)) => Ok((v, after.insert(name, v))),
            Err(f) => Err(f),
        },
        Expr::UnaryOp { op, value } => match evaluate(*value, env) {
            Ok((v, after)) => Ok((apply_unary(op, v), after)),
            Err(f) => Err(f),
        },
        Expr::BinaryOp { op, lhs, rhs } => match evaluate(*lhs, env) {
            Ok((l, between)) => match evaluate(*rhs, between) {
                Ok((r, after)) => match apply_binary(op, l, r) {
                    Ok(v) => Ok((v, after)),
                    Err(f) => Err(f),
                },
                Err(f) => Err(f),
            },
            Err(f) => Err(f),
        },
        Expr::ToFloat(value) => match evaluate(*value, env) {
            Ok((v, after)) => Ok((Number::FloatingPoint(approximate(v)), after)),
            Err(f) => Err(f),
        },
    }
}

/// The bindings of a session with those laid over them that an evaluation
/// has made so far, the latest last.
pub open spec fn overlaid(base: Bindings, pending: Seq<(String, Number)>) -> Bindings
    decreases pending.len(),
{
    if pending.len() == 0 {
        base
    } else {
        overlaid(base, pending.drop_last()).insert(pending.last().0@, pending.last().1)
    }
}

/// Laying bindings over a session is binding the first and laying the rest
/// over the result.
proof fn lemma_overlaid_first(base: Bindings, pending: Seq<(String, Number)>)
    requires
        pending.len() > 0,
    ensures
        overlaid(base, pending) == overlaid(
            base.insert(pending[0].0@, pending[0].1),
            pending.skip(1),
        ),
    decreases pending.len(),
{
    let first = base.insert(pending[0].0@, pending[0].1);
    let rest = pending.skip(1);
    if pending.len() == 1 {
        assert(pending.drop_last() =~= Seq::<(String, Number)>::empty());
        assert(rest =~= Seq::<(String, Number)>::empty());
        assert(overlaid(base, pending.drop_last()) == base);
        assert(overlaid(first, rest) == first);
    } else {
        lemma_overlaid_first(base, pending.drop_last());
        assert(pending.drop_last().skip(1) =~= rest.drop_last());
        assert(pending.drop_last()[0] == pending[0]);
        assert(rest.last() == pending.last());
        assert(overlaid(first, rest) == overlaid(first, rest.drop_last()).insert(
            rest.last().0@,
            rest.last().1,
        ));
    }
}

impl Number {
    /// The approximate value that stands for this value.
    pub fn approx(self) -> (a: Approx)
        ensures
            a == approximate(self),
    {
        match self {
            Number::FloatingPoint(a) => a,
            Number::Rational(r) => Approx::Ratio(r),
        }
    }

    /// Applies the operator before an operand.
    pub fn unary(op: UnaryOp, value: Number) -> (r: Number)
        ensures
            r == apply_unary(op, value),
    {
        match value {
            Number::FloatingPoint(a) => Number::FloatingPoint(Approx::Neg(Box::new(a))),
            Number::Rational(r) => Number::Rational(r.neg()),
        }
    }

    /// Applies an operator to two operands: exactly where both are exact,
    /// approximately where one is not.
    pub fn binary(op: BinaryOp, lhs: Number, rhs: Number) -> (r: Result<Number, Error>)
        ensures
            match apply_binary(op, lhs, rhs) {
                Ok(v) => r matches Ok(x) && x == v,
                Err(f) => r matches Err(e) && e@ == f,
            },
            (lhs is FloatingPoint || rhs is FloatingPoint) ==> r matches Ok(
                Number::FloatingPoint(_),
            ),
    {
        match (lhs, rhs) {
            (Number::Rational(a), Number::Rational(b)) => match op {
                BinaryOp::Add => exact_number(a.add(b)),
                BinaryOp::Sub => exact_number(a.sub(b)),
                BinaryOp::Mul => exact_number(a.mul(b)),
                BinaryOp::Div => exact_number(a.div(b)),
                BinaryOp::Modulo => exact_number(a.rem(b)),
                BinaryOp::Power => match a.pow(b) {
                    Ok(PowResult::Rational(value)) => Ok(Number::Rational(value)),
                    Ok(PowResult::FloatingPoint(value)) => Ok(Number::FloatingPoint(value)),
                    Err(e) => Err(Error::of(e)),
                },
            },
            (lhs, rhs) => Ok(
                Number::FloatingPoint(
                    Approx::Binary { op, lhs: Box::new(lhs.approx()), rhs: Box::new(rhs.approx()) },
                ),
            ),
        }
    }
}

/// What an exact operation comes to as a value.
fn exact_number(r: Result<Rational, ArithmeticError>) -> (n: Result<Number, Error>)
    ensures
        match exact_outcome(r) {
            Ok(v) => n matches Ok(x) && x == v,
            Err(f) => n matches Err(e) && e@ == f,
        },
{
    match r {
        Ok(value) => Ok(Number::Rational(value)),
        Err(e) => Err(Error::of(e)),
    }
}

/// The value that a name is bound to, in the session or by the evaluation so
/// far.
fn lookup(env: &Env, pending: &Vec<(String, Number)>, name: &String) -> (r: Option<Number>)
    ensures
        r == if overlaid(env@, pending@).contains_key(name@) {
            Some(overlaid(env@, pending@)[name@])
        } else {
            None::<Number>
        },
{
    let mut i = pending.len();
    proof {
        assert(pending@.take(i as int) =~= pending@);
    }
    while i > 0
        invariant
            i <= pending.len(),
            overlaid(env@, pending@).contains_key(name@) == overlaid(
                env@,
                pending@.take(i as int),
            ).contains_key(name@),
            overlaid(env@, pending@).contains_key(name@) ==> overlaid(env@, pending@)[name@]
                == overlaid(env@, pending@.take(i as int))[name@],
        decreases i,
    {
        i = i - 1;
        proof {
            assert(pending@.take(i + 1).drop_last() =~= pending@.take(i as int));
        }
        if pending[i].0 == *name {
            return Some(pending[i].1.clone());
        }
    }
    proof {
        assert(pending@.take(0) =~= Seq::<(String, Number)>::empty());
    }
    env.get(name.as_str())
}

/// Evaluates a node. What it binds is added to `pending`; the session is
/// read and not changed.
fn eval_node(node: Node, env: &Env, pending: &mut Vec<(String, Number)>) -> (r: Result<
    Number,
    Error,
>)
    ensures
        match evaluate(node@, overlaid(env@, old(pending)@)) {
            Ok((v, after)) => r matches Ok(x) && x == v && overlaid(env@, final(pending)@)
                == after,
            Err(f) => r matches Err(e) && e@ == f,
        },
    decreases node,
{
    match node {
        Node::Number(n) => Ok(Number::Rational(n)),
        Node::Identifier(name) => match lookup(env, pending, &name) {
            Some(value) => Ok(value),
            None => Err(Error::UnknownVariable(name)),
        },
        Node::Binding { name, value } => {
            let value = eval_node(*value, env, pending)?;
            let kept = value.clone();
            proof {
                assert(pending@.push((name, kept)).drop_last() =~= pending@);
            }
            pending.push((name, kept));
            Ok(value)
        },
        Node::UnaryOp { op, value } => {
            let value = eval_node(*value, env, pending)?;
            Ok(Number::unary(op, value))
        },
        Node::BinaryOp { op, lhs, rhs } => {
            let lhs = eval_node(*lhs, env, pending)?;
            let rhs = eval_node(*rhs, env, pending)?;
            Number::binary(op, lhs, rhs)
        },
        Node::ToFloat(value) => {
            let value = eval_node(*value, env, pending)?;
            Ok(Number::FloatingPoint(value.approx()))
        },
    }
}

/// Binds in the session what an evaluation has bound.
fn commit(env: &mut Env, pending: &Vec<(String, Number)>)
    ensures
        final(env)@ == overlaid(old(env)@, pending@),
{
    let mut i: usize = 0;
    proof {
        assert(pending@.skip(0) =~= pending@);
    }
    while i < pending.len()
        invariant
            i <= pending.len(),
            overlaid(env@, pending@.skip(i as int)) == overlaid(old(env)@, pending@),
        decreases pending.len() - i,
    {
        proof {
            lemma_overlaid_first(env@, pending@.skip(i as int));
            assert(pending@.skip(i as int).skip(1) =~= pending@.skip(i + 1));
        }
        env.insert(pending[i].0.clone(), pending[i].1.clone());
        i = i + 1;
    }
}

/// Evaluates the tree of a line against the session. A binding binds its
/// name in the session once the whole tree has its value: where the
/// evaluation fails, the session is as it was.
pub fn eval(ast: Ast, env: &mut Env) -> (r: Result<Number, Error>)
    ensures
        match evaluate(ast@, old(env)@) {
            Ok((v, after)) => r matches Ok(x) && x == v && final(env)@ == after,
            Err(f) => r matches Err(e) && e@ == f && final(env)@ == old(env)@,
        },
{
    let mut pending: Vec<(String, Number)> = Vec::new();
    let value = eval_node(ast.root, env, &mut pending)?;
    commit(env, &pending);
    Ok(value)
}

} // verus!
