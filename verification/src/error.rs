//! Error values of the two stages.  Errors are located values, never panics.

use vstd::prelude::*;
use crate::located::ToLocated;
use crate::token::Token;

verus! {

/// A lexical error.
#[derive(Debug, Clone, PartialEq)]
pub enum LexerError {
    /// The dispatcher saw a character that cannot start any token.
    UnexpectedBegin,
    /// Input ended in the middle of a token.
    UnexpectedEnd,
    /// A partial match failed: the characters form no token.
    UnrecognizedToken,
}

impl ToLocated for LexerError {

}

/// A reader error.
#[derive(Debug, Clone, PartialEq)]
pub enum ProcessorError {
    /// A lexical error met while pulling a token.
    LexerError(LexerError),
    /// A stray right parenthesis at top level.
    UnmatchedParentheses,
    /// Input ran out inside a compound datum or after an abbreviation.
    UnexpectedEnd,
    /// A token in a position where none is legal.
    UnexpectedToken(Token),
}

impl ToLocated for ProcessorError {

}

} // verus!
