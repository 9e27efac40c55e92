use vstd::prelude::*;
use crate::token::{PescToken, Tok};

verus! {

/// The mathematical value of an error kind.
pub enum ErrKind {
    UnknownFunction(Seq<char>),
    InvalidArgumentType(Seq<char>, Seq<char>),
    InvalidNumberLit(Seq<char>),
    OutOfBounds(nat, nat),
    NotEnoughArguments,
    InvalidBoolean(Tok),
}

/// What went wrong while reading or running code.
#[derive(Debug, PartialEq)]
pub enum PescErrorType {
    /// No function or operator of this name is registered.
    UnknownFunction(String),
    /// A value of the wrong kind: the kind expected, and the value found, as text.
    InvalidArgumentType(String, String),
    /// Text that does not form a number.
    InvalidNumberLit(String),
    /// A depth into the stack, and the stack's length.
    OutOfBounds(usize, usize),
    NotEnoughArguments,
    /// A value that has no truth value.
    InvalidBoolean(PescToken),
}

impl PescErrorType {
    pub open spec fn model(self) -> ErrKind {
        match self {
            PescErrorType::UnknownFunction(s) => ErrKind::UnknownFunction(s@),
            PescErrorType::InvalidArgumentType(a, b) => ErrKind::InvalidArgumentType(a@, b@),
            PescErrorType::InvalidNumberLit(s) => ErrKind::InvalidNumberLit(s@),
            PescErrorType::OutOfBounds(i, n) => ErrKind::OutOfBounds(i as nat, n as nat),
            PescErrorType::NotEnoughArguments => ErrKind::NotEnoughArguments,
            PescErrorType::InvalidBoolean(t) => ErrKind::InvalidBoolean(t.model()),
        }
    }
}

/// An error, with the character offset where reading stopped or the token whose
/// execution failed.
#[derive(Debug)]
pub struct PescError {
    pub pos: Option<usize>,
    pub token: Option<PescToken>,
    pub kind: PescErrorType,
}

impl PescError {
    pub fn new(pos: Option<usize>, token: Option<PescToken>, kind: PescErrorType) -> (r: PescError)
        ensures
            r.pos == pos,
            r.token == token,
            r.kind == kind,
    {
        PescError { pos, token, kind }
    }
}

} // verus!
