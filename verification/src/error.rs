//! The failures that evaluation and lowering report to their caller.

use vstd::prelude::*;
use crate::ast::NodeKind;

verus! {

/// The sort of a run-time value.
#[derive(Clone, Copy, Debug, PartialEq, Eq, Structural)]
pub enum ValueKind {
    Number,
    Bool,
    Unit,
}

/// Why evaluation or lowering gave up.
#[derive(Debug, PartialEq, Eq)]
pub enum LangError {
    /// An operand had the wrong sort: what was expected, then what was found.
    TypeMismatch(ValueKind, ValueKind),
    /// A name was read or assigned before anything declared it.
    UndefinedVariable(String),
    /// A call names a function that the table does not hold.
    UnknownFunction(String),
    /// The node cannot stand where it was found.
    UnsupportedNode(NodeKind),
    /// The right operand of a division was zero.
    DivisionByZero,
    /// Two declarations share one function name.
    DuplicateFunction(String),
}

/// A `LangError` with its names as character sequences.
pub enum Failure {
    TypeMismatch(ValueKind, ValueKind),
    UndefinedVariable(Seq<char>),
    UnknownFunction(Seq<char>),
    UnsupportedNode(NodeKind),
    DivisionByZero,
    DuplicateFunction(Seq<char>),
}

impl View for LangError {
    type V = Failure;

    open spec fn view(&self) -> Failure {
        match self {
            LangError::TypeMismatch(expected, actual) => Failure::TypeMismatch(*expected, *actual),
            LangError::UndefinedVariable(name) => Failure::UndefinedVariable(name@),
            LangError::UnknownFunction(name) => Failure::UnknownFunction(name@),
            LangError::UnsupportedNode(kind) => Failure::UnsupportedNode(*kind),
            LangError::DivisionByZero => Failure::DivisionByZero,
            LangError::DuplicateFunction(name) => Failure::DuplicateFunction(name@),
        }
    }
}

} // verus!
