//! The three error kinds: parsing, type checking, evaluation.

use vstd::prelude::*;

verus! {

/// Why a source text was rejected.
#[derive(Debug)]
pub enum ParseError {
    InvalidUtf8,
    InvalidNumber,
    InvalidToken,
    UnexpectedEnd,
    ExpectingExprBegin,
    ExpectingExprBody,
    BracketMismatch,
    Custom(String),
}

/// A `ParseError` without its message.
#[derive(Clone, Copy, Debug, PartialEq, Eq, Structural)]
pub enum ParseErrorKind {
    InvalidUtf8,
    InvalidNumber,
    InvalidToken,
    UnexpectedEnd,
    ExpectingExprBegin,
    ExpectingExprBody,
    BracketMismatch,
    Custom,
}

impl View for ParseError {
    type V = ParseErrorKind;

    open spec fn view(&self) -> ParseErrorKind {
        match self {
            ParseError::InvalidUtf8 => ParseErrorKind::InvalidUtf8,
            ParseError::InvalidNumber => ParseErrorKind::InvalidNumber,
            ParseError::InvalidToken => ParseErrorKind::InvalidToken,
            ParseError::UnexpectedEnd => ParseErrorKind::UnexpectedEnd,
            ParseError::ExpectingExprBegin => ParseErrorKind::ExpectingExprBegin,
            ParseError::ExpectingExprBody => ParseErrorKind::ExpectingExprBody,
            ParseError::BracketMismatch => ParseErrorKind::BracketMismatch,
            ParseError::Custom(_) => ParseErrorKind::Custom,
        }
    }
}

impl ParseError {
    /// The kind of this error, for callers that compare errors.
    pub fn kind(&self) -> (k: ParseErrorKind)
        ensures
            k == self@,
    {
        match self {
            ParseError::InvalidUtf8 => ParseErrorKind::InvalidUtf8,
            ParseError::InvalidNumber => ParseErrorKind::InvalidNumber,
            ParseError::InvalidToken => ParseErrorKind::InvalidToken,
            ParseError::UnexpectedEnd => ParseErrorKind::UnexpectedEnd,
            ParseError::ExpectingExprBegin => ParseErrorKind::ExpectingExprBegin,
            ParseError::ExpectingExprBody => ParseErrorKind::ExpectingExprBody,
            ParseError::BracketMismatch => ParseErrorKind::BracketMismatch,
            ParseError::Custom(_) => ParseErrorKind::Custom,
        }
    }
}

/// Why an expression has no type. Divergence is not among the reasons: a
/// divergent expression has the type `Divergent`.
#[derive(Debug)]
pub enum TypeError {
    Custom(String),
}

/// Why an evaluation stopped without a value.
#[derive(Debug)]
pub enum RuntimeError {
    DivByZero,
    Custom(String),
    /// The program did what no checked program does: it used a name that is
    /// not bound, applied arguments to a value that is no function, or
    /// forced a thunk that was being forced.
    Fatal(String),
    /// The evaluation needed more nested steps than it was allowed.
    Exhausted,
}

/// A `RuntimeError` without its message.
#[derive(Clone, Copy, Debug, PartialEq, Eq, Structural)]
pub enum RuntimeErrorKind {
    DivByZero,
    Custom,
    Fatal,
    Exhausted,
}

impl View for RuntimeError {
    type V = RuntimeErrorKind;

    open spec fn view(&self) -> RuntimeErrorKind {
        match self {
            RuntimeError::DivByZero => RuntimeErrorKind::DivByZero,
            RuntimeError::Custom(_) => RuntimeErrorKind::Custom,
            RuntimeError::Fatal(_) => RuntimeErrorKind::Fatal,
            RuntimeError::Exhausted => RuntimeErrorKind::Exhausted,
        }
    }
}

impl RuntimeError {
    /// The kind of this error, for callers that compare errors.
    pub fn kind(&self) -> (k: RuntimeErrorKind)
        ensures
            k == self@,
    {
        match self {
            RuntimeError::DivByZero => RuntimeErrorKind::DivByZero,
            RuntimeError::Custom(_) => RuntimeErrorKind::Custom,
            RuntimeError::Fatal(_) => RuntimeErrorKind::Fatal,
            RuntimeError::Exhausted => RuntimeErrorKind::Exhausted,
        }
    }
}

} // verus!
