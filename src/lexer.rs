use vstd::prelude::*;
use vstd::hash_map::HashMapWithView;
use vstd::string::*;
use crate::class::{
    close_bracket, digit, ident_start, in_run_exec, is_close, is_digit, is_ident_start, is_open,
    is_operator_char, is_quote, is_separator, lemma_numeric_end_bounds, lemma_run_end_bounds,
    numeric_end, open_bracket, opening, opening_of, operator_char, run_end, separator, Run,
};
use crate::error::LexerError;
use crate::position::{line_col, lemma_line_col_bounds};
use crate::token::{token_text, kind_of, Token, TokenKind, TokenType, PunctuationKind};

verus! {

broadcast use vstd::std_specs::hash::group_hash_axioms;

/// The abstract state of a lexer: the text, how many codepoints of it have
/// been consumed, the line and column reached, and for each bracket pair (by
/// the scalar value of its opening bracket) how many of its opens are unmatched.
pub ghost struct LexState {
    pub src: Seq<char>,
    pub offset: int,
    pub line: nat,
    pub col: nat,
    pub depths: Map<u32, usize>,
}

/// The number of unmatched opens of the bracket pair of `c`, counted under
/// the scalar value of its opening bracket; a pair never seen has none.
pub open spec fn depth_of(d: Map<u32, usize>, c: char) -> nat {
    if d.contains_key(opening_of(c) as u32) {
        d[opening_of(c) as u32] as nat
    } else {
        0
    }
}

/// A state that a lexer can be in: the offset lies within the text, the
/// text is shorter than the largest `usize`, and no character has more
/// unmatched opens than codepoints consumed.
pub open spec fn valid(st: LexState) -> bool {
    &&& 0 <= st.offset <= st.src.len() < usize::MAX
    &&& forall|k: u32| #[trigger] st.depths.contains_key(k) ==> st.depths[k] <= st.offset
}

/// The line and column fields of `st` agree with the codepoints consumed.
pub open spec fn positioned(st: LexState) -> bool {
    (st.line, st.col) == line_col(st.src.take(st.offset))
}

/// Reading at `s` in `src`, with unmatched-open counts `d`, gives token `t`,
/// ends at `e`, and leaves counts `d2`. Classification goes by the first
/// codepoint, in this order: end of text, bracket or separator, operator,
/// identifier, quoted character, number, anything else.
pub open spec fn lexes(
    src: Seq<char>,
    s: int,
    d: Map<u32, usize>,
    t: TokenType,
    e: int,
    d2: Map<u32, usize>,
) -> bool {
    if s >= src.len() {
        t is EOF && e == s && d2 == d
    } else {
        let c = src[s];
        if is_open(c) {
            &&& t == TokenType::Punctuation {
                raw: c,
                kind: PunctuationKind::Open(depth_of(d, c) as usize),
            }
            &&& e == s + 1
            &&& d2 == d.insert(opening_of(c) as u32, (depth_of(d, c) + 1) as usize)
        } else if is_close(c) {
            &&& depth_of(d, c) > 0
            &&& t == TokenType::Punctuation {
                raw: c,
                kind: PunctuationKind::Close((depth_of(d, c) - 1) as usize),
            }
            &&& e == s + 1
            &&& d2 == d.insert(opening_of(c) as u32, (depth_of(d, c) - 1) as usize)
        } else if is_separator(c) {
            t == (TokenType::Punctuation { raw: c, kind: PunctuationKind::Separator }) && e == s + 1
                && d2 == d
        } else if is_operator_char(c) {
            &&& e == run_end(src, s, Run::Operator)
            &&& t is Operators && token_text(t) == src.subrange(s, e)
            &&& d2 == d
        } else if is_ident_start(c) {
            &&& e == run_end(src, s, Run::Identifier)
            &&& t is Identifier && token_text(t) == src.subrange(s, e)
            &&& d2 == d
        } else if is_quote(c) {
            s + 2 < src.len() && is_quote(src[s + 2]) && t == TokenType::Char(src[s + 1]) && e == s
                + 3 && d2 == d
        } else if is_digit(c) {
            &&& e == numeric_end(src, s, false, false)
            &&& t is Numeric && token_text(t) == src.subrange(s, e)
            &&& d2 == d
        } else {
            t == TokenType::Unknown(c) && e == s + 1 && d2 == d
        }
    }
}

/// Reading at `s` fails with `err`: a close with no unmatched open of its
/// character, or a quote not followed by one codepoint and a closing quote.
pub open spec fn fails(src: Seq<char>, s: int, d: Map<u32, usize>, err: LexerError) -> bool {
    &&& 0 <= s < src.len()
    &&& {
        ||| is_close(src[s]) && depth_of(d, src[s]) == 0 && err == (LexerError::UnbalancedPunctuation {
            raw: src[s],
        })
        ||| is_quote(src[s]) && !(s + 2 < src.len() && is_quote(src[s + 2])) && err
            == (LexerError::UnterminatedLiteral { offset: s as usize })
    }
}

/// One call of `next_token` from `st` returns `r` and leaves `st2`: the
/// whitespace is skipped, then one token is read, or on failure nothing more
/// is consumed.
pub open spec fn step(st: LexState, r: Result<TokenType, LexerError>, st2: LexState) -> bool {
    let s = run_end(st.src, st.offset, Run::Whitespace);
    &&& st2.src == st.src
    &&& valid(st2)
    &&& positioned(st2)
    &&& match r {
        Ok(t) => lexes(st.src, s, st.depths, t, st2.offset, st2.depths),
        Err(e) => st2.offset == s && st2.depths == st.depths && fails(st.src, s, st.depths, e),
    }
}

/// A lexer over a text that it owns as a decoded sequence of codepoints.
///
/// The text is fixed at construction. Each call of `next_token` consumes the
/// whitespace before a token and the token itself, and nothing else.
pub struct Lexer {
    cur_line: usize,
    cur_cel: usize,
    codepoint_offset: usize,
    source: String,
    chars: Vec<char>,
    balancing_state: HashMapWithView<u32, usize>,
}

impl View for Lexer {
    type V = LexState;

    closed spec fn view(&self) -> LexState {
        LexState {
            src: self.chars@,
            offset: self.codepoint_offset as int,
            line: self.cur_line as nat,
            col: self.cur_cel as nat,
            depths: self.balancing_state@,
        }
    }
}

impl Lexer {
    /// The lexer's invariant: the position fields agree with the consumed
    /// prefix, and no bracket pair has more unmatched opens than codepoints consumed.
    pub closed spec fn wf(&self) -> bool {
        &&& self.source@ == self.chars@
        &&& self.chars@.len() < usize::MAX
        &&& self.codepoint_offset <= self.chars@.len()
        &&& (self.cur_line as nat, self.cur_cel as nat) == line_col(
            self.chars@.take(self.codepoint_offset as int),
        )
        &&& forall|k: u32| #[trigger]
            self.balancing_state@.contains_key(k) ==> self.balancing_state@[k]
                <= self.codepoint_offset
    }

    /// A lexer at the start of `chars`, with no punctuation open.
    pub fn new(chars: &str) -> (l: Lexer)
        requires
            chars@.len() < usize::MAX,
        ensures
            l.wf(),
            l@.src == chars@,
            l@.offset == 0,
            l@.depths == Map::<u32, usize>::empty(),
            l@.line == 1 && l@.col == 1,
            valid(l@),
            positioned(l@),
    {
        let mut decoded: Vec<char> = Vec::new();
        for c in it: chars.chars()
            invariant
                decoded@ == it.seq().take(it.index() as int),
        {
            decoded.push(c);
        }
        proof {
            assert(decoded@ =~= chars@);
        }
        let l = Lexer {
            cur_line: 1,
            cur_cel: 1,
            codepoint_offset: 0,
            source: chars.to_owned(),
            chars: decoded,
            balancing_state: HashMapWithView::new(),
        };
        assert(l.chars@.take(0) =~= Seq::<char>::empty());
        l
    }

    /// The current line, from 1.
    pub fn line(&self) -> (r: usize)
        ensures
            r == self@.line,
    {
        self.cur_line
    }

    /// The current column, from 1.
    pub fn column(&self) -> (r: usize)
        ensures
            r == self@.col,
    {
        self.cur_cel
    }

    /// How many codepoints have been consumed.
    pub fn codepoint_offset(&self) -> (r: usize)
        ensures
            r == self@.offset,
    {
        self.codepoint_offset
    }

    /// The number of unmatched opens of the bracket pair of `c`.
    pub fn depth(&self, c: char) -> (r: usize)
        ensures
            r == depth_of(self@.depths, c),
    {
        match self.balancing_state.get(&(opening(c) as u32)) {
            Some(v) => *v,
            None => 0,
        }
    }

    /// Consumes one codepoint: a newline moves to column 1 of the next line,
    /// any other codepoint one column on; the offset grows by one either way.
    fn advance(&mut self)
        requires
            old(self).wf(),
            old(self)@.offset < old(self)@.src.len(),
        ensures
            final(self).wf(),
            positioned(final(self)@),
            final(self)@.src == old(self)@.src,
            final(self)@.depths == old(self)@.depths,
            final(self)@.offset == old(self)@.offset + 1,
            old(self)@.src[old(self)@.offset] == '\n' ==> final(self)@.line == old(self)@.line + 1
                && final(self)@.col == 1,
            old(self)@.src[old(self)@.offset] != '\n' ==> final(self)@.line == old(self)@.line
                && final(self)@.col == old(self)@.col + 1,
    {
        let c = self.chars[self.codepoint_offset];
        proof {
            let s = self.chars@.take(self.codepoint_offset as int);
            lemma_line_col_bounds(s);
            let t = self.chars@.take(self.codepoint_offset + 1);
            assert(t.drop_last() =~= s);
        }
        if c == '\n' {
            self.cur_line = self.cur_line + 1;
            self.cur_cel = 1;
        } else {
            self.cur_cel = self.cur_cel + 1;
        }
        self.codepoint_offset = self.codepoint_offset + 1;
    }

    /// Records one more unmatched open of the bracket pair of `c` and returns
    /// its depth: the number of opens of that pair unmatched before it.
    pub fn push_open(&mut self, c: char) -> (depth: usize)
        requires
            depth_of(old(self)@.depths, c) < usize::MAX,
        ensures
            depth == depth_of(old(self)@.depths, c),
            final(self)@ == (LexState {
                depths: old(self)@.depths.insert(opening_of(c) as u32, (depth + 1) as usize),
                ..old(self)@
            }),
            old(self).wf() && depth < old(self)@.offset ==> final(self).wf(),
    {
        let depth = self.depth(c);
        self.balancing_state.insert(opening(c) as u32, depth + 1);
        depth
    }

    /// Matches a close of `c` with the innermost unmatched open of its bracket
    /// pair and returns that open's depth; `None`, with nothing changed, where
    /// no open of the pair is unmatched.
    pub fn pop_close(&mut self, c: char) -> (depth: Option<usize>)
        ensures
            depth_of(old(self)@.depths, c) == 0 ==> depth is None && *final(self) == *old(self),
            depth_of(old(self)@.depths, c) > 0 ==> depth == Some(
                (depth_of(old(self)@.depths, c) - 1) as usize,
            ) && final(self)@ == (LexState {
                depths: old(self)@.depths.insert(opening_of(c) as u32, depth->0),
                ..old(self)@
            }),
            old(self).wf() ==> final(self).wf(),
    {
        let open = self.depth(c);
        if open == 0 {
            None
        } else {
            self.balancing_state.insert(opening(c) as u32, open - 1);
            Some(open - 1)
        }
    }

    /// Reads the bracket or separator at the current codepoint `c`: an open
    /// gets the next depth of its character, a close the depth of the open it
    /// matches, a separator none. `Ok(None)`, with nothing consumed, where `c`
    /// is no punctuation; an error, with nothing consumed, for an unmatched close.
    pub fn transform_to_type(&mut self, c: char) -> (r: Result<Option<TokenType>, LexerError>)
        requires
            old(self).wf(),
            old(self)@.offset < old(self)@.src.len(),
            old(self)@.src[old(self)@.offset] == c,
        ensures
            final(self).wf(),
            positioned(final(self)@),
            final(self)@.src == old(self)@.src,
            match r {
                Ok(Some(t)) => (is_open(c) || is_close(c) || is_separator(c)) && lexes(
                    old(self)@.src,
                    old(self)@.offset,
                    old(self)@.depths,
                    t,
                    final(self)@.offset,
                    final(self)@.depths,
                ),
                Ok(None) => !(is_open(c) || is_close(c) || is_separator(c)) && *final(self)
                    == *old(self),
                Err(e) => fails(old(self)@.src, old(self)@.offset, old(self)@.depths, e)
                    && *final(self) == *old(self),
            },
    {
        if open_bracket(c) {
            self.advance();
            let depth = self.push_open(c);
            Ok(Some(TokenType::Punctuation { raw: c, kind: PunctuationKind::Open(depth) }))
        } else if close_bracket(c) {
            match self.pop_close(c) {
                Some(depth) => {
                    self.advance();
                    Ok(Some(TokenType::Punctuation { raw: c, kind: PunctuationKind::Close(depth) }))
                },
                None => Err(LexerError::UnbalancedPunctuation { raw: c }),
            }
        } else if separator(c) {
            self.advance();
            Ok(Some(TokenType::Punctuation { raw: c, kind: PunctuationKind::Separator }))
        } else {
            Ok(None)
        }
    }

    /// Consumes the maximal run of class `k` from the current codepoint and
    /// returns where it ends.
    fn scan_run(&mut self, k: Run) -> (end: usize)
        requires
            old(self).wf(),
        ensures
            final(self).wf(),
            positioned(final(self)@),
            final(self)@.src == old(self)@.src,
            final(self)@.depths == old(self)@.depths,
            end == final(self)@.offset,
            end == run_end(old(self)@.src, old(self)@.offset, k),
    {
        let ghost st = self@;
        proof {
            lemma_run_end_bounds(st.src, st.offset, k);
        }
        let len = self.chars.len();
        while self.codepoint_offset < len && in_run_exec(k, self.chars[self.codepoint_offset])
            invariant
                self.wf(),
                positioned(self@),
                self@.src == st.src,
                self@.depths == st.depths,
                len == st.src.len(),
                st.offset <= self@.offset <= st.src.len(),
                run_end(st.src, self@.offset, k) == run_end(st.src, st.offset, k),
            decreases len - self@.offset,
        {
            self.advance();
        }
        self.codepoint_offset
    }

    /// Consumes a numeric literal's text from the current codepoint and
    /// returns where it ends.
    fn scan_numeric(&mut self) -> (end: usize)
        requires
            old(self).wf(),
        ensures
            final(self).wf(),
            positioned(final(self)@),
            final(self)@.src == old(self)@.src,
            final(self)@.depths == old(self)@.depths,
            end == final(self)@.offset,
            end == numeric_end(old(self)@.src, old(self)@.offset, false, false),
    {
        let ghost st = self@;
        let len = self.chars.len();
        let mut dot = false;
        let mut exp = false;
        loop
            invariant
                self.wf(),
                positioned(self@),
                self@.src == st.src,
                self@.depths == st.depths,
                len == st.src.len(),
                st.offset <= self@.offset <= st.src.len(),
                numeric_end(st.src, self@.offset, dot, exp) == numeric_end(
                    st.src,
                    st.offset,
                    false,
                    false,
                ),
            ensures
                numeric_end(st.src, self@.offset, dot, exp) == self@.offset,
            decreases len - self@.offset,
        {
            if self.codepoint_offset >= len {
                break;
            }
            let c = self.chars[self.codepoint_offset];
            if digit(c) {
            } else if c == '.' && !dot && !exp {
                dot = true;
            } else if (c == 'e' || c == 'E') && !exp {
                exp = true;
            } else {
                break;
            }
            self.advance();
        }
        self.codepoint_offset
    }

    /// Skips whitespace, then reads one token. At the end of the text the
    /// token is `EOF`, and every later call gives `EOF` again without moving.
    /// Fails, having consumed only the whitespace, on a close with no
    /// unmatched open of its character and on an unterminated character literal.
    pub fn next_token(&mut self) -> (r: Result<Token, LexerError>)
        requires
            old(self).wf(),
        ensures
            final(self).wf(),
            step(old(self)@, r, final(self)@),
    {
        let ghost st = self@;
        self.scan_run(Run::Whitespace);
        let len = self.chars.len();
        let start = self.codepoint_offset;
        if start >= len {
            return Ok(TokenType::EOF);
        }
        let c = self.chars[start];
        match self.transform_to_type(c) {
            Ok(Some(t)) => {
                return Ok(t);
            },
            Err(e) => {
                return Err(e);
            },
            Ok(None) => {},
        }
        if operator_char(c) {
            let end = self.scan_run(Run::Operator);
            proof {
                lemma_run_end_bounds(st.src, start as int, Run::Operator);
            }
            let text = self.source.as_str().substring_char(start, end).to_owned();
            Ok(TokenType::Operators(text))
        } else if ident_start(c) {
            let end = self.scan_run(Run::Identifier);
            proof {
                lemma_run_end_bounds(st.src, start as int, Run::Identifier);
            }
            let text = self.source.as_str().substring_char(start, end).to_owned();
            Ok(TokenType::Identifier(text))
        } else if c == '\'' {
            if start + 2 < len && self.chars[start + 2] == '\'' {
                let payload = self.chars[start + 1];
                self.advance();
                self.advance();
                self.advance();
                Ok(TokenType::Char(payload))
            } else {
                Err(LexerError::UnterminatedLiteral { offset: start })
            }
        } else if digit(c) {
            let end = self.scan_numeric();
            proof {
                lemma_numeric_end_bounds(st.src, start as int, false, false);
            }
            let text = self.source.as_str().substring_char(start, end).to_owned();
            Ok(TokenType::Numeric(text))
        } else {
            self.advance();
            Ok(TokenType::Unknown(c))
        }
    }

    /// Reads one token as `next_token` does and checks that it is of kind
    /// `expected`; if it is of another kind, fails with the expected kind and
    /// the token found.
    pub fn expect(&mut self, expected: TokenKind) -> (r: Result<Token, LexerError>)
        requires
            old(self).wf(),
        ensures
            final(self).wf(),
            match r {
                Ok(t) => kind_of(t) == expected && step(old(self)@, Ok(t), final(self)@),
                Err(LexerError::MissingExpectedSymbol { expected: k, found }) => k == expected
                    && kind_of(found) != expected && step(old(self)@, Ok(found), final(self)@),
                Err(e) => step(old(self)@, Err(e), final(self)@),
            },
    {
        match self.next_token() {
            Ok(t) => {
                if t.kind() == expected {
                    Ok(t)
                } else {
                    Err(LexerError::MissingExpectedSymbol { expected, found: t })
                }
            },
            Err(e) => Err(e),
        }
    }
}

} // verus!
