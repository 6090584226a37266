//! The ways in which parsing a line can fail.

use vstd::prelude::*;

verus! {

/// The error type of the `regex` crate, carried through unchanged when a
/// pattern cannot be compiled.
#[verifier::external_type_specification]
#[verifier::external_body]
pub struct ExRegexError(regex::Error);

/// Why a line could not be parsed.
#[derive(Debug)]
pub enum ErrorKind {
    /// Whitespace was expected after the leading count.
    NoWhitespace,
    /// The line doesn't contain a command.
    NoCommand,
    /// The leading digits don't denote a number that fits in 32 bits.
    BadCount,
    /// The pattern engine could not compile one of the lexical patterns.
    Regex(regex::Error),
}

/// What went wrong, without the pattern engine's own account of it.
#[derive(Debug, Clone, Copy, PartialEq, Eq)]
pub enum Failure {
    /// Whitespace was expected after the leading count.
    NoWhitespace,
    /// The line doesn't contain a command.
    NoCommand,
    /// The leading digits don't denote a number that fits in 32 bits.
    BadCount,
    /// The pattern engine could not compile one of the lexical patterns.
    Engine,
}

impl ErrorKind {
    /// What went wrong.
    pub open spec fn failure(self) -> Failure {
        match self {
            ErrorKind::NoWhitespace => Failure::NoWhitespace,
            ErrorKind::NoCommand => Failure::NoCommand,
            ErrorKind::BadCount => Failure::BadCount,
            ErrorKind::Regex(_) => Failure::Engine,
        }
    }
}

} // verus!
