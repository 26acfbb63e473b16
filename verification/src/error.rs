//! The errors that an evaluation can end with.

use vstd::prelude::*;
use vstd::string::*;

verus! {

/// The kinds of error.
#[derive(Debug, Clone, Copy, PartialEq, Eq, Structural)]
pub enum CalcErrorType {
    /// The input does not match the grammar.
    SyntaxError,
    /// A parse tree was structurally invalid.
    ParserError,
    /// A name is neither a variable nor a function.
    UndefinedIdentifier,
    /// An assignment to a protected constant.
    AssignmentError,
    /// A function was called with the wrong number of arguments.
    ArgumentError,
    /// A value that cannot be computed yet, such as `ans` with no answer.
    CalculationError,
}

impl CalcErrorType {
    /// The words that name the kind.
    pub open spec fn label(self) -> Seq<char> {
        match self {
            CalcErrorType::SyntaxError => "Syntax error"@,
            CalcErrorType::ParserError => "Parser error"@,
            CalcErrorType::UndefinedIdentifier => "Undefined identifier"@,
            CalcErrorType::AssignmentError => "Assignment error"@,
            CalcErrorType::ArgumentError => "Argument error"@,
            CalcErrorType::CalculationError => "Calculation error"@,
        }
    }

    /// The kind in words.
    pub fn to_string(&self) -> (s: String)
        ensures
            s@ == self.label(),
    {
        match self {
            CalcErrorType::SyntaxError => String::from_str("Syntax error"),
            CalcErrorType::ParserError => String::from_str("Parser error"),
            CalcErrorType::UndefinedIdentifier => String::from_str("Undefined identifier"),
            CalcErrorType::AssignmentError => String::from_str("Assignment error"),
            CalcErrorType::ArgumentError => String::from_str("Argument error"),
            CalcErrorType::CalculationError => String::from_str("Calculation error"),
        }
    }
}

/// What an error is, as contracts see it: its kind and the text of its message.
pub struct ErrorView {
    pub kind: CalcErrorType,
    pub msg: Seq<char>,
}

/// An error: its kind and a message for the user.
#[derive(Debug, Clone, PartialEq)]
pub struct CalcError {
    pub error_type: CalcErrorType,
    pub msg: String,
}

impl View for CalcError {
    type V = ErrorView;

    open spec fn view(&self) -> ErrorView {
        ErrorView { kind: self.error_type, msg: self.msg@ }
    }
}

impl CalcError {
    /// The line that shows the error: the kind, a colon, the message.
    pub open spec fn rendering(e: ErrorView) -> Seq<char> {
        e.kind.label() + ": "@ + e.msg + "\n"@
    }

    /// An error of the given kind with the given message.
    pub fn new(error_type: CalcErrorType, msg: String) -> (e: CalcError)
        ensures
            e@ == (ErrorView { kind: error_type, msg: msg@ }),
    {
        CalcError { error_type, msg }
    }

    /// The error as one line of text.
    pub fn to_string(&self) -> (s: String)
        ensures
            s@ == Self::rendering(self@),
    {
        let mut s = self.error_type.to_string();
        s.append(": ");
        s.append(self.msg.as_str());
        s.append("\n");
        s
    }
}

} // verus!
