//! A lexer that turns Unicode text into classified tokens, tracking line,
//! column and codepoint offset, and tagging every bracket with its nesting
//! depth among the unmatched brackets of the same character.

pub mod class;
pub mod error;
pub mod laws;
pub mod lexer;
pub mod position;
pub mod token;

pub use error::LexerError;
pub use lexer::Lexer;
pub use token::{Punctuation, PunctuationKind, Token, TokenKind, TokenType};
