//! The error taxonomy of the evaluator.  Every stage reports a failure as a
//! value of `EvalError`; nothing in the library panics.
use vstd::prelude::*;
use vstd::string::StringExecFns;
use crate::chars::chars_to_string;

verus! {

/// Spec-level classification of an error; it mirrors `EvalError`, with the
/// offending text carried as a character sequence.
pub ghost enum ErrKind {
    EmptyExpression,
    EmptyNumber,
    InvalidBase(char),
    InvalidNumber(Seq<char>),
    InvalidCharacter(char),
    InvalidOperator(char),
    UnmatchedOpenParen,
    InvalidExpression,
}

/// An error of the evaluator.  `InvalidNumber` carries the literal body that
/// failed to parse; `InvalidBase`, `InvalidCharacter` and `InvalidOperator`
/// carry the offending character.
#[derive(Debug, Clone, PartialEq, Eq)]
pub enum EvalError {
    EmptyExpression,
    EmptyNumber,
    InvalidBase(char),
    InvalidNumber(String),
    InvalidCharacter(char),
    InvalidOperator(char),
    UnmatchedOpenParen,
    InvalidExpression,
}

impl EvalError {
    /// The spec-level classification of this error.
    pub open spec fn sv(self) -> ErrKind {
        match self {
            EvalError::EmptyExpression => ErrKind::EmptyExpression,
            EvalError::EmptyNumber => ErrKind::EmptyNumber,
            EvalError::InvalidBase(c) => ErrKind::InvalidBase(c),
            EvalError::InvalidNumber(t) => ErrKind::InvalidNumber(t@),
            EvalError::InvalidCharacter(c) => ErrKind::InvalidCharacter(c),
            EvalError::InvalidOperator(c) => ErrKind::InvalidOperator(c),
            EvalError::UnmatchedOpenParen => ErrKind::UnmatchedOpenParen,
            EvalError::InvalidExpression => ErrKind::InvalidExpression,
        }
    }
}

/// The diagnostic text of each error kind.
pub open spec fn message_spec(e: ErrKind) -> Seq<char> {
    match e {
        ErrKind::EmptyExpression => "Empty expression"@,
        ErrKind::EmptyNumber => "Empty number"@,
        ErrKind::InvalidBase(c) => "Invalid base: "@.push(c),
        ErrKind::InvalidNumber(t) => "Invalid number: "@ + t,
        ErrKind::InvalidCharacter(c) => "Invalid character: "@.push(c),
        ErrKind::InvalidOperator(c) => "Invalid operator: "@.push(c),
        ErrKind::UnmatchedOpenParen => "Unmatched open parenthesis"@,
        ErrKind::InvalidExpression => "Invalid expression"@,
    }
}

/// A static prefix followed by the single offending character.
fn message_with_char(prefix: &str, c: char) -> (r: String)
    ensures
        r@ == prefix@.push(c),
{
    let mut s = prefix.to_owned();
    let mut v: Vec<char> = Vec::new();
    v.push(c);
    let tail = chars_to_string(v.as_slice());
    s.append(tail.as_str());
    proof {
        assert(prefix@ + seq![c] =~= prefix@.push(c));
    }
    s
}

impl EvalError {
    /// The human-readable diagnostic for this error.
    pub fn message(&self) -> (r: String)
        ensures
            r@ == message_spec(self.sv()),
    {
        match self {
            EvalError::EmptyExpression => "Empty expression".to_owned(),
            EvalError::EmptyNumber => "Empty number".to_owned(),
            EvalError::InvalidBase(c) => message_with_char("Invalid base: ", *c),
            EvalError::InvalidNumber(t) => {
                let mut s = "Invalid number: ".to_owned();
                s.append(t.as_str());
                s
            },
            EvalError::InvalidCharacter(c) => message_with_char("Invalid character: ", *c),
            EvalError::InvalidOperator(c) => message_with_char("Invalid operator: ", *c),
            EvalError::UnmatchedOpenParen => "Unmatched open parenthesis".to_owned(),
            EvalError::InvalidExpression => "Invalid expression".to_owned(),
        }
    }
}

} // verus!
