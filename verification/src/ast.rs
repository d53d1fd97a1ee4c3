//! The data model: the result of a successful parse (`Procedure`), the
//! classification of its operator (`Op` with its `Prim` and `SForm` kinds),
//! and the error taxonomy (`ParseError`).

use vstd::prelude::*;

verus! {

/// The fixed arithmetic operator symbols `+ - * /`.
#[derive(Clone, Copy, Debug, PartialEq, Eq, Structural)]
pub enum Prim {
    Add,
    Sub,
    Mul,
    Div,
}

/// The fixed control-structure keywords `if`, `begin`, `define`, `lambda`,
/// `let`.
#[derive(Clone, Copy, Debug, PartialEq, Eq, Structural)]
pub enum SForm {
    If,
    Begin,
    Define,
    Lambda,
    Let,
}

/// An operator, classified into one of three categories. Classification is
/// exhaustive and ordered: special forms first, then primitives, then the
/// user-name fallback.
#[derive(Debug, PartialEq, Eq)]
pub enum Op {
    Primitive(Prim),
    SpecialForm(SForm),
    User(String),
}

/// The result of a successful structural parse: the classified operator and
/// the argument tokens in left-to-right order (possibly empty).
#[derive(Debug, PartialEq, Eq)]
pub struct Procedure {
    pub op: Op,
    pub args: Vec<String>,
}

/// Why a parse failed.
#[derive(Clone, Copy, Debug, PartialEq, Eq, Structural)]
pub enum ParseError {
    /// Parenthesis counts do not balance (negative mid-scan or nonzero at
    /// the end of the scan).
    MismatchedParentheses,
    /// An expected `(` or `)` is absent.
    MissingDelimiter,
    /// The operator recognizer could not consume an operator.
    InvalidOperator,
    /// The token recognizer could not consume an alphanumeric token.
    InvalidToken,
}

/// The mathematical model of an [`Op`]: the user-name payload is a character
/// sequence rather than an owned `String`.
pub enum OpModel {
    Primitive(Prim),
    SpecialForm(SForm),
    User(Seq<char>),
}

/// The mathematical model of a [`Procedure`].
pub struct ProcModel {
    pub op: OpModel,
    pub args: Seq<Seq<char>>,
}

impl View for Op {
    type V = OpModel;

    open spec fn view(&self) -> OpModel {
        match self {
            Op::Primitive(p) => OpModel::Primitive(*p),
            Op::SpecialForm(f) => OpModel::SpecialForm(*f),
            Op::User(name) => OpModel::User(name@),
        }
    }
}

impl View for Procedure {
    type V = ProcModel;

    open spec fn view(&self) -> ProcModel {
        ProcModel { op: self.op@, args: self.args@.map_values(|a: String| a@) }
    }
}

/// The human-readable description of each error kind.
pub open spec fn error_text(e: ParseError) -> Seq<char> {
    match e {
        ParseError::MismatchedParentheses => "mismatched parentheses"@,
        ParseError::MissingDelimiter => "missing delimiter"@,
        ParseError::InvalidOperator => "invalid operator"@,
        ParseError::InvalidToken => "invalid token"@,
    }
}

impl ParseError {
    /// A human-readable description of the failure kind.
    pub fn message(&self) -> (r: &'static str)
        ensures
            r@ == error_text(*self),
    {
        match self {
            ParseError::MismatchedParentheses => "mismatched parentheses",
            ParseError::MissingDelimiter => "missing delimiter",
            ParseError::InvalidOperator => "invalid operator",
            ParseError::InvalidToken => "invalid token",
        }
    }
}

} // verus!
