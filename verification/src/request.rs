//! The arithmetic that an evaluation asks for.
//!
//! The library decides which operation is applied to which numbers and in
//! what order; the operations themselves are done by the caller, who gets
//! each one as a `Request` and answers it with a number.

use vstd::prelude::*;
use crate::ast::Operation;
use crate::number::Number;

verus! {

/// The numeric operations behind the built-in functions.
#[derive(Debug, Clone, Copy, PartialEq, Eq, Structural)]
pub enum Builtin {
    Sqrt,
    Root,
    Fac,
    Mean,
    Stddev,
    Min,
    Max,
    Abs,
    Round,
    Floor,
    Ceil,
    Ln,
    Log10,
    Log,
    Sin,
    Cos,
    Tan,
    Sinh,
    Cosh,
    Tanh,
    Asin,
    Acos,
    Atan,
    Asinh,
    Acosh,
    Atanh,
}

/// A request as contracts see it.
pub enum RequestView {
    Literal(Seq<char>),
    Binary(Operation, Number, Number),
    Factorial(Number),
    Call(Builtin, Seq<Number>),
}

/// One numeric operation for the caller to perform.
#[derive(Debug)]
pub enum Request {
    /// Read the text of a numeric literal as a number.
    Literal(String),
    /// Apply a binary operator to a left and a right operand.
    Binary(Operation, Number, Number),
    /// Take the factorial of a number, extended to the reals by the gamma
    /// function.
    Factorial(Number),
    /// Apply a built-in function to its arguments, in order.
    Call(Builtin, Vec<Number>),
}

impl View for Request {
    type V = RequestView;

    open spec fn view(&self) -> RequestView {
        match self {
            Request::Literal(text) => RequestView::Literal(text@),
            Request::Binary(op, lhs, rhs) => RequestView::Binary(*op, *lhs, *rhs),
            Request::Factorial(operand) => RequestView::Factorial(*operand),
            Request::Call(function, args) => RequestView::Call(*function, args@),
        }
    }
}

} // verus!
