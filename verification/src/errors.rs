//! The closed taxonomy of evaluation errors, and its mathematical model.

use vstd::prelude::*;

verus! {

use crate::parse::{Expression, ExprS, exprs_v};
use crate::value::{Value, ValueS};

/// An error raised while evaluating an expression. Every variant is
/// recoverable at the read-eval-print boundary: a failed top-level expression
/// leaves the session usable.
#[derive(Debug, PartialEq)]
pub enum LispComputerError {
    /// A list head resolves to neither a special form nor a bound closure.
    UnboundFunction(String),
    /// A primitive received two operands whose kinds do not fit together.
    TypeMismatch2 { operation: String, left: Value, right: Value },
    /// A primitive received one operand of the wrong kind.
    TypeMismatch1 { operation: String, left: Value },
    /// A special form's argument shape does not match its grammar.
    InvalidArguments(String, Vec<Expression>),
    /// A bare symbol has no binding in the visible scope chain.
    NotFoundVariable(String),
    /// A closure call or an arity-sensitive form was given the wrong number
    /// of arguments.
    ArityMismatch(String, usize, usize),
    /// The call-depth budget handed to the evaluator ran out.
    RecursionLimit,
}

/// The mathematical model of a `LispComputerError`.
#[verifier::ext_equal]
pub enum ErrS {
    UnboundFunction(Seq<char>),
    TypeMismatch2 { operation: Seq<char>, left: ValueS, right: ValueS },
    TypeMismatch1 { operation: Seq<char>, left: ValueS },
    InvalidArguments(Seq<char>, Seq<ExprS>),
    NotFoundVariable(Seq<char>),
    ArityMismatch(Seq<char>, int, int),
    RecursionLimit,
}

impl View for LispComputerError {
    type V = ErrS;

    open spec fn view(&self) -> ErrS {
        match *self {
            LispComputerError::UnboundFunction(n) => ErrS::UnboundFunction(n@),
            LispComputerError::TypeMismatch2 { operation, left, right } => (ErrS::TypeMismatch2 {
                operation: operation@,
                left: left@,
                right: right@,
            }),
            LispComputerError::TypeMismatch1 { operation, left } => (ErrS::TypeMismatch1 {
                operation: operation@,
                left: left@,
            }),
            LispComputerError::InvalidArguments(f, args) => ErrS::InvalidArguments(
                f@,
                exprs_v(args@),
            ),
            LispComputerError::NotFoundVariable(n) => ErrS::NotFoundVariable(n@),
            LispComputerError::ArityMismatch(n, expected, got) => ErrS::ArityMismatch(
                n@,
                expected as int,
                got as int,
            ),
            LispComputerError::RecursionLimit => ErrS::RecursionLimit,
        }
    }
}

/// The model of an evaluation outcome.
pub open spec fn out_v(r: Result<Value, LispComputerError>) -> Result<ValueS, ErrS> {
    match r {
        Ok(v) => Ok(v@),
        Err(e) => Err(e@),
    }
}

} // verus!
