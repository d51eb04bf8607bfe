use lexer::{Lexer, LexerError, PunctuationKind, Token, TokenKind, TokenType};

fn all_tokens(text: &str) -> Vec<Token> {
    let mut lx = Lexer::new(text);
    let mut out = Vec::new();
    loop {
        let t = lx.next_token().expect("lexing failed");
        let done = t == TokenType::EOF;
        out.push(t);
        if done {
            return out;
        }
    }
}

fn punct(raw: char, kind: PunctuationKind) -> Token {
    TokenType::Punctuation { raw, kind }
}

#[test]
fn whitespace_only_gives_one_eof() {
    let mut lx = Lexer::new(" \t\n  \n");
    assert_eq!(lx.next_token().unwrap(), TokenType::EOF);
    assert_eq!(lx.codepoint_offset(), 6);
    assert_eq!(all_tokens("   \n\t"), vec![TokenType::EOF]);
    assert_eq!(all_tokens(""), vec![TokenType::EOF]);
}

#[test]
fn positions_follow_codepoints_and_newlines() {
    let mut lx = Lexer::new("ab\n  cd é");
    assert_eq!((lx.line(), lx.column(), lx.codepoint_offset()), (1, 1, 0));
    assert_eq!(lx.next_token().unwrap(), TokenType::Identifier("ab".to_string()));
    assert_eq!((lx.line(), lx.column(), lx.codepoint_offset()), (1, 3, 2));
    assert_eq!(lx.next_token().unwrap(), TokenType::Identifier("cd".to_string()));
    assert_eq!((lx.line(), lx.column(), lx.codepoint_offset()), (2, 5, 7));
    assert_eq!(lx.next_token().unwrap(), TokenType::Unknown('é'));
    assert_eq!((lx.line(), lx.column(), lx.codepoint_offset()), (2, 7, 9));
}

#[test]
fn nested_parens_follow_stack_discipline() {
    let toks = all_tokens("(()())");
    assert_eq!(
        toks,
        vec![
            punct('(', PunctuationKind::Open(0)),
            punct('(', PunctuationKind::Open(1)),
            punct(')', PunctuationKind::Close(1)),
            punct('(', PunctuationKind::Open(1)),
            punct(')', PunctuationKind::Close(1)),
            punct(')', PunctuationKind::Close(0)),
            TokenType::EOF,
        ]
    );
}

#[test]
fn depths_are_counted_per_character() {
    let toks = all_tokens("([{}])");
    assert_eq!(toks[0], punct('(', PunctuationKind::Open(0)));
    assert_eq!(toks[1], punct('[', PunctuationKind::Open(0)));
    assert_eq!(toks[2], punct('{', PunctuationKind::Open(0)));
    assert_eq!(toks[3], punct('}', PunctuationKind::Close(0)));
    assert_eq!(toks[4], punct(']', PunctuationKind::Close(0)));
    assert_eq!(toks[5], punct(')', PunctuationKind::Close(0)));
}

#[test]
fn expect_identifier_succeeds_on_identifier() {
    let mut lx = Lexer::new("foo");
    let t = lx.expect(TokenKind::Identifier).unwrap();
    assert_eq!(t, TokenType::Identifier("foo".to_string()));
}

#[test]
fn expect_identifier_fails_on_number() {
    let mut lx = Lexer::new("123");
    match lx.expect(TokenKind::Identifier) {
        Err(LexerError::MissingExpectedSymbol { expected, found }) => {
            assert_eq!(expected, TokenKind::Identifier);
            assert_eq!(found, TokenType::Numeric("123".to_string()));
        }
        other => panic!("unexpected result {:?}", other),
    }
}

#[test]
fn arrow_is_one_operator() {
    assert_eq!(all_tokens("->"), vec![TokenType::Operators("->".to_string()), TokenType::EOF]);
    assert_eq!(
        all_tokens("a->b"),
        vec![
            TokenType::Identifier("a".to_string()),
            TokenType::Operators("->".to_string()),
            TokenType::Identifier("b".to_string()),
            TokenType::EOF,
        ]
    );
}

#[test]
fn eof_repeats_without_moving() {
    let mut lx = Lexer::new("x \n");
    assert_eq!(lx.next_token().unwrap(), TokenType::Identifier("x".to_string()));
    assert_eq!(lx.next_token().unwrap(), TokenType::EOF);
    let pos = (lx.line(), lx.column(), lx.codepoint_offset());
    assert_eq!(pos, (2, 1, 3));
    for _ in 0..5 {
        assert_eq!(lx.next_token().unwrap(), TokenType::EOF);
        assert_eq!((lx.line(), lx.column(), lx.codepoint_offset()), pos);
    }
}

#[test]
fn spans_rebuild_the_input() {
    let text = "let x = foo(a, 'b') -> 3.5e2;\n  y[0] ~ é\t{z}";
    let chars: Vec<char> = text.chars().collect();
    let mut lx = Lexer::new(text);
    let mut rebuilt = String::new();
    loop {
        let start = lx.codepoint_offset();
        let t = lx.next_token().unwrap();
        let end = lx.codepoint_offset();
        let span: String = chars[start..end].iter().collect();
        let raw = match &t {
            TokenType::EOF => String::new(),
            TokenType::Punctuation { raw, .. } => raw.to_string(),
            TokenType::Operators(s) | TokenType::Identifier(s) | TokenType::Numeric(s) => s.clone(),
            TokenType::Char(c) => format!("'{}'", c),
            TokenType::Unknown(c) => c.to_string(),
        };
        assert!(span.ends_with(&raw));
        assert!(span[..span.len() - raw.len()].chars().all(|c| c == ' ' || c == '\t' || c == '\n'));
        rebuilt.push_str(&span);
        if t == TokenType::EOF {
            break;
        }
    }
    assert_eq!(rebuilt, text);
}

#[test]
fn classifies_every_kind() {
    assert_eq!(
        all_tokens("x1_y, 'q' 42 3.14e10 : # ;"),
        vec![
            TokenType::Identifier("x1_y".to_string()),
            punct(',', PunctuationKind::Separator),
            TokenType::Char('q'),
            TokenType::Numeric("42".to_string()),
            TokenType::Numeric("3.14e10".to_string()),
            punct(':', PunctuationKind::Separator),
            TokenType::Unknown('#'),
            TokenType::Unknown(';'),
            TokenType::EOF,
        ]
    );
}

#[test]
fn numeric_takes_one_dot_and_one_exponent() {
    assert_eq!(
        all_tokens("1.2.3"),
        vec![
            TokenType::Numeric("1.2".to_string()),
            TokenType::Operators(".".to_string()),
            TokenType::Numeric("3".to_string()),
            TokenType::EOF,
        ]
    );
    assert_eq!(
        all_tokens("1e5e"),
        vec![
            TokenType::Numeric("1e5".to_string()),
            TokenType::Identifier("e".to_string()),
            TokenType::EOF,
        ]
    );
}

#[test]
fn unmatched_close_is_an_error() {
    let mut lx = Lexer::new("  )");
    match lx.next_token() {
        Err(LexerError::UnbalancedPunctuation { raw }) => assert_eq!(raw, ')'),
        other => panic!("unexpected result {:?}", other),
    }
    assert_eq!(lx.codepoint_offset(), 2);
    let mut lx = Lexer::new("()]");
    assert_eq!(lx.next_token().unwrap(), punct('(', PunctuationKind::Open(0)));
    assert_eq!(lx.next_token().unwrap(), punct(')', PunctuationKind::Close(0)));
    assert!(matches!(lx.next_token(), Err(LexerError::UnbalancedPunctuation { raw: ']' })));
}

#[test]
fn unterminated_char_literal_is_an_error() {
    let mut lx = Lexer::new(" 'ab'");
    assert!(matches!(lx.next_token(), Err(LexerError::UnterminatedLiteral { offset: 1 })));
    let mut lx = Lexer::new("'a");
    assert!(matches!(lx.next_token(), Err(LexerError::UnterminatedLiteral { offset: 0 })));
}

#[test]
fn balancing_counters_directly() {
    let mut lx = Lexer::new("");
    assert_eq!(lx.push_open('('), 0);
    assert_eq!(lx.push_open('('), 1);
    assert_eq!(lx.depth('('), 2);
    assert_eq!(lx.pop_close('('), Some(1));
    assert_eq!(lx.pop_close('('), Some(0));
    assert_eq!(lx.pop_close('('), None);
    assert_eq!(lx.depth('('), 0);
}

#[test]
fn transform_to_type_leaves_non_punctuation() {
    let mut lx = Lexer::new("a");
    assert!(matches!(lx.transform_to_type('a'), Ok(None)));
    assert_eq!(lx.codepoint_offset(), 0);
    let mut lx = Lexer::new("[");
    assert_eq!(lx.transform_to_type('[').unwrap(), Some(punct('[', PunctuationKind::Open(0))));
    assert_eq!(lx.codepoint_offset(), 1);
}

#[test]
fn semicolon_is_not_punctuation() {
    let mut lx = Lexer::new(";");
    assert!(matches!(lx.transform_to_type(';'), Ok(None)));
    assert_eq!(lx.codepoint_offset(), 0);
    assert_eq!(lx.next_token().unwrap(), TokenType::Unknown(';'));
}

#[test]
fn closed_depth_is_reused() {
    assert_eq!(
        all_tokens("(())("),
        vec![
            punct('(', PunctuationKind::Open(0)),
            punct('(', PunctuationKind::Open(1)),
            punct(')', PunctuationKind::Close(1)),
            punct(')', PunctuationKind::Close(0)),
            punct('(', PunctuationKind::Open(0)),
            TokenType::EOF,
        ]
    );
}
