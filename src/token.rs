use vstd::prelude::*;

verus! {

/// Where a punctuation character stands in the bracket structure.
#[derive(Debug, Clone, Copy, PartialEq, Eq, Structural)]
pub enum PunctuationKind {
    /// An opening bracket, with its depth among the unmatched opens of the same character.
    Open(usize),
    /// A closing bracket, with the depth of the open that it matches.
    Close(usize),
    /// A separator such as `,` or `:`; it carries no depth.
    Separator,
}

/// A punctuation character together with its kind.
#[derive(Debug, Clone, Copy, PartialEq, Eq, Structural)]
pub struct Punctuation {
    pub raw: char,
    pub kind: PunctuationKind,
}

/// One lexical unit.
#[derive(Debug, Clone, PartialEq, Eq)]
pub enum TokenType {
    /// End of the token stream.
    EOF,
    /// A bracket or separator.
    Punctuation { raw: char, kind: PunctuationKind },
    /// A maximal run of operator characters, such as `*` or `->`.
    Operators(String),
    /// A maximal run of letters, digits and underscores that starts with a letter or underscore.
    Identifier(String),
    /// A quoted character literal such as `'a'`; the payload is the quoted codepoint.
    Char(char),
    /// The raw text of a numeric literal, unparsed.
    Numeric(String),
    /// A codepoint that no other rule recognises; lexing goes on after it.
    Unknown(char),
}

pub type Token = TokenType;

/// The discriminant of a token, without its payload.
#[derive(Debug, Clone, Copy, PartialEq, Eq, Structural)]
pub enum TokenKind {
    EOF,
    Punctuation,
    Operators,
    Identifier,
    Char,
    Numeric,
    Unknown,
}

/// The kind of a token.
pub open spec fn kind_of(t: TokenType) -> TokenKind {
    match t {
        TokenType::EOF => TokenKind::EOF,
        TokenType::Punctuation { .. } => TokenKind::Punctuation,
        TokenType::Operators(_) => TokenKind::Operators,
        TokenType::Identifier(_) => TokenKind::Identifier,
        TokenType::Char(_) => TokenKind::Char,
        TokenType::Numeric(_) => TokenKind::Numeric,
        TokenType::Unknown(_) => TokenKind::Unknown,
    }
}

/// The source text that a token was read from.
pub open spec fn token_text(t: TokenType) -> Seq<char> {
    match t {
        TokenType::EOF => Seq::empty(),
        TokenType::Punctuation { raw, .. } => seq![raw],
        TokenType::Operators(s) => s@,
        TokenType::Identifier(s) => s@,
        TokenType::Char(c) => seq!['\'', c, '\''],
        TokenType::Numeric(s) => s@,
        TokenType::Unknown(c) => seq![c],
    }
}

impl TokenType {
    /// The kind of this token.
    pub fn kind(&self) -> (k: TokenKind)
        ensures
            k == kind_of(*self),
    {
        match self {
            TokenType::EOF => TokenKind::EOF,
            TokenType::Punctuation { .. } => TokenKind::Punctuation,
            TokenType::Operators(_) => TokenKind::Operators,
            TokenType::Identifier(_) => TokenKind::Identifier,
            TokenType::Char(_) => TokenKind::Char,
            TokenType::Numeric(_) => TokenKind::Numeric,
            TokenType::Unknown(_) => TokenKind::Unknown,
        }
    }
}

} // verus!
