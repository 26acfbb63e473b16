//! A calculator for single-line arithmetic expressions, evaluated against a
//! context that keeps variables, functions and the history of a session.
//!
//! A line is an expression, or a name, `=` and an expression. Expressions
//! are made of numbers, names, calls of the built-in functions, the
//! operators `+ - * / // % ^`, the factorial sign `!` and parentheses.
//! `ans` stands for the result of the last line that had one.
//!
//! The library works on the text and the structure of a line and on the
//! state of the session; it does no arithmetic. Numbers are carried as bit
//! patterns, and every numeric operation is handed to the caller as a
//! [`request::Request`]. `evaluator::evaluate` runs a line with a function
//! that answers the requests; `calculate` and `evaluator::Pending::resume`
//! do the same one request at a time.
//!
//! - [`lexer`]: from text to tokens.
//! - [`parser`]: from tokens to a tree, by the grammar that it states.
//! - [`ast`]: the trees, and how they are shown.
//! - [`context`]: variables, functions and history.
//! - [`evaluator`]: a line against a context, request by request.
//! - [`semantics`]: what an evaluation computes, and the laws of sessions.
//! - [`roundtrip`]: a tree that is shown and read back is the same tree.

pub mod ast;
pub mod context;
pub mod error;
pub mod evaluator;
pub mod lexer;
pub mod number;
pub mod parser;
pub mod request;
pub mod roundtrip;
pub mod semantics;

pub use crate::error::{CalcError, CalcErrorType};
pub use crate::evaluator::calculate;
pub use crate::lexer::Token;
