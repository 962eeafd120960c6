use vstd::prelude::*;
use crate::token::TokenType;
use crate::tree::{Atom, AtomView};

verus! {

/// Why the evaluation of an expression or the execution of a statement stopped.
#[derive(Debug)]
pub enum EvalError {
    /// An identifier that no active scope binds.
    Undefined(String),
    /// An assignment without the alias flag to a name that was never declared.
    Uninitialized(String),
    /// An operator or a condition met a value of the wrong kind.
    TypeMismatch,
    /// An assignment without the alias flag of a value of another kind: the
    /// variable, the value it holds, and the value that was refused.
    Redeclared(String, Atom, Atom),
    /// A wrong operand count, indexing something that is not an array, an index
    /// outside the array, or a field that the value does not have.
    Shape,
    /// Division or remainder by zero.
    DivisionByZero,
    /// An exact result whose numerator or denominator does not fit in 64 bits.
    Overflow,
    /// A loop ran for more iterations than the caller allowed.
    OutOfFuel,
}

/// The mathematical model of an `EvalError`.
pub enum Failure {
    Undefined(Seq<char>),
    Uninitialized(Seq<char>),
    TypeMismatch,
    Redeclared(Seq<char>, AtomView, AtomView),
    Shape,
    DivisionByZero,
    Overflow,
    OutOfFuel,
}

impl EvalError {
    pub open spec fn view(&self) -> Failure {
        match self {
            EvalError::Undefined(s) => Failure::Undefined(s@),
            EvalError::Uninitialized(s) => Failure::Uninitialized(s@),
            EvalError::TypeMismatch => Failure::TypeMismatch,
            EvalError::Redeclared(s, a, b) => Failure::Redeclared(s@, a@, b@),
            EvalError::Shape => Failure::Shape,
            EvalError::DivisionByZero => Failure::DivisionByZero,
            EvalError::Overflow => Failure::Overflow,
            EvalError::OutOfFuel => Failure::OutOfFuel,
        }
    }
}

/// A token that the parser did not expect where it stood, with its source line.
/// An input that ends too early reports `TokenType::EOF` on the line of its
/// last token (0 for an empty input).
#[derive(Debug, Clone, Copy, PartialEq, Eq, Structural)]
pub struct ParseError {
    pub ty: TokenType,
    pub line: usize,
}

} // verus!
