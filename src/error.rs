use vstd::prelude::*;
use crate::token::{Token, TokenKind};

verus! {

/// The I/O error of the standard library, carried through unchanged.
#[verifier::external_type_specification]
#[verifier::external_body]
pub struct ExIoError(std::io::Error);

/// Why lexing or an expectation failed.
#[derive(Debug)]
pub enum LexerError {
    /// The source text could not be acquired.
    FileIO(std::io::Error),
    /// `expect` found a token of another kind.
    MissingExpectedSymbol { expected: TokenKind, found: Token },
    /// A closing bracket with no unmatched open of the same character.
    UnbalancedPunctuation { raw: char },
    /// A quote at this codepoint offset is not followed by one codepoint and a closing quote.
    UnterminatedLiteral { offset: usize },
}

} // verus!
