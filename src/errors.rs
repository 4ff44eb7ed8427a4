//! The errors that reach callers.
use vstd::prelude::*;
use vstd::string::StringExecFns;

verus! {

/// An error that can occur during interpretation.
#[derive(Debug)]
pub enum InterpreterError {
    UnknownIdentifier(String),
    DivisionByZero,
    AssertionFailed,
    /// An operand that must be a constant (a divisor, an exponent, an
    /// evaluation point) is a polynomial of positive degree.
    NotAConstant,
}

/// An interpreter error with its name as a character sequence.
pub enum EvalError {
    UnknownIdentifier(Seq<char>),
    DivisionByZero,
    AssertionFailed,
    NotAConstant,
}

impl View for InterpreterError {
    type V = EvalError;

    open spec fn view(&self) -> EvalError {
        match self {
            InterpreterError::UnknownIdentifier(n) => EvalError::UnknownIdentifier(n@),
            InterpreterError::DivisionByZero => EvalError::DivisionByZero,
            InterpreterError::AssertionFailed => EvalError::AssertionFailed,
            InterpreterError::NotAConstant => EvalError::NotAConstant,
        }
    }
}

pub open spec fn interpreter_message(e: EvalError) -> Seq<char> {
    match e {
        EvalError::UnknownIdentifier(n) => "Unknown Identifier: "@ + n,
        EvalError::DivisionByZero => "Division by Zero"@,
        EvalError::AssertionFailed => "Assertion Failed"@,
        EvalError::NotAConstant => "Expected a Constant"@,
    }
}

/// The advice that comes with an interpreter error, where there is any.
pub open spec fn interpreter_help(e: EvalError) -> Option<Seq<char>> {
    match e {
        EvalError::AssertionFailed => Some("Asserted expression must be non-zero."@),
        EvalError::NotAConstant => Some(
            "Divisors, exponents and evaluation points must be constants."@,
        ),
        _ => None,
    }
}

impl InterpreterError {
    /// The message of the error.
    pub fn to_string(&self) -> (r: String)
        ensures
            r@ == interpreter_message(self@),
    {
        match self {
            InterpreterError::UnknownIdentifier(n) => String::from_str("Unknown Identifier: ").concat(
                n.as_str(),
            ),
            InterpreterError::DivisionByZero => String::from_str("Division by Zero"),
            InterpreterError::AssertionFailed => String::from_str("Assertion Failed"),
            InterpreterError::NotAConstant => String::from_str("Expected a Constant"),
        }
    }

    /// What the user can do about the error, where there is advice to give.
    pub fn help(&self) -> (r: Option<String>)
        ensures
            match r {
                Some(t) => interpreter_help(self@) == Some(t@),
                None => interpreter_help(self@) is None,
            },
    {
        match self {
            InterpreterError::AssertionFailed => Some(
                String::from_str("Asserted expression must be non-zero."),
            ),
            InterpreterError::NotAConstant => Some(
                String::from_str("Divisors, exponents and evaluation points must be constants."),
            ),
            _ => None,
        }
    }
}

/// A syntax error: the source, the byte range `start..start + len` of the
/// problem in it, and what was expected there.
#[derive(Debug)]
pub struct ParserError {
    pub src: String,
    pub start: usize,
    pub len: usize,
    pub help: String,
}

/// An error of the parser or of the interpreter.
#[derive(Debug)]
pub enum PolentaError {
    InterpreterError(InterpreterError),
    ParserError(ParserError),
}

impl PolentaError {
    /// The message of the error.
    pub fn to_string(&self) -> (r: String)
        ensures
            r@ == match self {
                PolentaError::InterpreterError(e) => interpreter_message(e@),
                PolentaError::ParserError(_) => "Compiler Error"@,
            },
    {
        match self {
            PolentaError::InterpreterError(e) => e.to_string(),
            PolentaError::ParserError(_) => String::from_str("Compiler Error"),
        }
    }
}

} // verus!
