//! Approximate values, held as the double-precision computation behind them.

use crate::ast::BinaryOp;
use crate::rational::Rational;
use vstd::prelude::*;

verus! {

/// An approximate value. It is kept as the computation that yields it: the
/// host carries that computation out in double precision when it needs the
/// value. No decision of this library depends on the outcome, so a
/// computation stands for its value wherever one is asked for.
#[derive(PartialEq, Eq, Debug)]
pub enum Approx {
    /// The numerator and the denominator of an exact value, each converted to
    /// double precision, then divided.
    Ratio(Rational),
    /// The negation of an approximate value.
    Neg(Box<Approx>),
    /// A double-precision operation on two approximate values. `Modulo` is
    /// the remainder with the sign of the dividend, `Power` the power
    /// function.
    Binary { op: BinaryOp, lhs: Box<Approx>, rhs: Box<Approx> },
}

impl Clone for Approx {
    fn clone(&self) -> (copy: Approx)
        ensures
            copy == *self,
        decreases *self,
    {
        match self {
            Approx::Ratio(r) => Approx::Ratio(*r),
            Approx::Neg(value) => Approx::Neg(Box::new((**value).clone())),
            Approx::Binary { op, lhs, rhs } => Approx::Binary {
                op: *op,
                lhs: Box::new((**lhs).clone()),
                rhs: Box::new((**rhs).clone()),
            },
        }
    }
}

} // verus!
