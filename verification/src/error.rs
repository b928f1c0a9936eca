//! What can go wrong with a line.

use crate::rational::ArithmeticError;
use vstd::prelude::*;
use vstd::string::StringExecFns;

verus! {

/// Why a line has no value.
#[derive(PartialEq, Eq, Debug)]
pub enum Error {
    /// The line is no binding and no expression. Holds the line.
    Syntax(String),
    /// The line reads a variable that nothing was bound to. Holds its name.
    UnknownVariable(String),
    /// An exact division or remainder by zero, or zero raised to a negative
    /// power.
    DivisionByZero,
    /// An exact operation formed an integer that does not fit the integer
    /// width.
    Overflow,
}

/// An error, with its texts as sequences of characters.
pub enum Failure {
    Syntax(Seq<char>),
    UnknownVariable(Seq<char>),
    DivisionByZero,
    Overflow,
}

impl View for Error {
    type V = Failure;

    open spec fn view(&self) -> Failure {
        match self {
            Error::Syntax(line) => Failure::Syntax(line@),
            Error::UnknownVariable(name) => Failure::UnknownVariable(name@),
            Error::DivisionByZero => Failure::DivisionByZero,
            Error::Overflow => Failure::Overflow,
        }
    }
}

impl Failure {
    /// The failure that an arithmetic error becomes.
    pub open spec fn of(e: ArithmeticError) -> Failure {
        match e {
            ArithmeticError::DivisionByZero => Failure::DivisionByZero,
            ArithmeticError::Overflow => Failure::Overflow,
        }
    }
}

impl Failure {
    /// What the failure says to the user.
    pub open spec fn message(self) -> Seq<char> {
        match self {
            Failure::Syntax(line) => "Syntax error: "@ + line,
            Failure::UnknownVariable(name) => "Unknown variable: "@ + name,
            Failure::DivisionByZero => "Division by zero"@,
            Failure::Overflow => "Overflow"@,
        }
    }
}

impl Error {
    /// What the error says to the user: its kind, and the line or the name
    /// that it holds.
    pub fn message(&self) -> (text: String)
        ensures
            text@ == self@.message(),
    {
        match self {
            Error::Syntax(line) => String::from_str("Syntax error: ").concat(line.as_str()),
            Error::UnknownVariable(name) => String::from_str("Unknown variable: ").concat(
                name.as_str(),
            ),
            Error::DivisionByZero => String::from_str("Division by zero"),
            Error::Overflow => String::from_str("Overflow"),
        }
    }

    /// The error that an arithmetic error becomes.
    pub fn of(e: ArithmeticError) -> (r: Error)
        ensures
            r@ == Failure::of(e),
    {
        match e {
            ArithmeticError::DivisionByZero => Error::DivisionByZero,
            ArithmeticError::Overflow => Error::Overflow,
        }
    }
}

} // verus!
