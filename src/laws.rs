use vstd::prelude::*;
use crate::class::{
    in_run, is_close, is_open, is_operator_char, is_whitespace, lemma_numeric_end_bounds,
    lemma_run_end_bounds, opening_of, run_end, Run,
};
use crate::error::LexerError;
use crate::lexer::{depth_of, step, valid, LexState};
use crate::position::line_col;
use crate::token::{token_text, PunctuationKind, TokenType};

verus! {

/// Reading a codepoint other than a newline moves one column on along the
/// same line; reading a newline moves to column 1 of the next line.
pub proof fn lemma_advance_position(s: Seq<char>, c: char)
    ensures
        c != '\n' ==> line_col(s.push(c)) == (line_col(s).0, line_col(s).1 + 1),
        c == '\n' ==> line_col(s.push(c)) == (line_col(s).0 + 1, 1nat),
{
    assert(s.push(c).drop_last() =~= s);
}

proof fn lemma_run_end_whitespace(src: Seq<char>, i: int)
    requires
        0 <= i <= src.len(),
        forall|j: int| i <= j < src.len() ==> is_whitespace(#[trigger] src[j]),
    ensures
        run_end(src, i, Run::Whitespace) == src.len(),
    decreases src.len() - i,
{
    if i < src.len() {
        lemma_run_end_whitespace(src, i + 1);
    }
}

/// Where all that is left of the text is whitespace, the next call returns
/// `EOF`, consumes it all, and fails in no way.
pub proof fn lemma_whitespace_only(st: LexState, r: Result<TokenType, LexerError>, st2: LexState)
    requires
        0 <= st.offset <= st.src.len(),
        forall|j: int| st.offset <= j < st.src.len() ==> is_whitespace(#[trigger] st.src[j]),
        step(st, r, st2),
    ensures
        r == Ok::<TokenType, LexerError>(TokenType::EOF),
        st2.offset == st.src.len(),
{
    lemma_run_end_whitespace(st.src, st.offset);
}

/// After a call that returned `EOF`, the next call returns `EOF` again and
/// leaves the state, position included, as it was.
pub proof fn lemma_eof_is_terminal(
    st: LexState,
    st2: LexState,
    r: Result<TokenType, LexerError>,
    st3: LexState,
)
    requires
        0 <= st.offset <= st.src.len(),
        step(st, Ok(TokenType::EOF), st2),
        step(st2, r, st3),
    ensures
        r == Ok::<TokenType, LexerError>(TokenType::EOF),
        st3 == st2,
{
    lemma_run_end_bounds(st.src, st.offset, Run::Whitespace);
    lemma_run_end_bounds(st2.src, st2.offset, Run::Whitespace);
}

/// An operator token is a maximal run: every codepoint of it is an operator
/// character, and the codepoint after it, if any, is not; so `->` is one
/// token, never `-` followed by `>`.
pub proof fn lemma_operator_is_maximal(st: LexState, t: TokenType, st2: LexState)
    requires
        0 <= st.offset <= st.src.len(),
        step(st, Ok(t), st2),
        t is Operators,
    ensures
        token_text(t).len() >= 1,
        forall|j: int| 0 <= j < token_text(t).len() ==> is_operator_char(#[trigger] token_text(t)[j]),
        st2.offset < st.src.len() ==> !is_operator_char(st.src[st2.offset]),
{
    let s = run_end(st.src, st.offset, Run::Whitespace);
    lemma_run_end_bounds(st.src, st.offset, Run::Whitespace);
    lemma_run_end_bounds(st.src, s, Run::Operator);
    assert forall|j: int| 0 <= j < token_text(t).len() implies is_operator_char(
        #[trigger] token_text(t)[j],
    ) by {
        assert(in_run(Run::Operator, st.src[s + j]));
    }
}

/// The whitespace that a call skips from `st`.
pub open spec fn skipped(st: LexState) -> Seq<char> {
    st.src.subrange(st.offset, run_end(st.src, st.offset, Run::Whitespace))
}

/// A successful call consumes exactly the whitespace it skips followed by the
/// source text of the token it returns.
pub proof fn lemma_step_span(st: LexState, t: TokenType, st2: LexState)
    requires
        0 <= st.offset <= st.src.len(),
        step(st, Ok(t), st2),
    ensures
        st.offset <= st2.offset,
        st.src.subrange(st.offset, st2.offset) == skipped(st) + token_text(t),
        forall|j: int| 0 <= j < skipped(st).len() ==> is_whitespace(#[trigger] skipped(st)[j]),
{
    let src = st.src;
    let s = run_end(src, st.offset, Run::Whitespace);
    lemma_run_end_bounds(src, st.offset, Run::Whitespace);
    assert forall|j: int| 0 <= j < skipped(st).len() implies is_whitespace(
        #[trigger] skipped(st)[j],
    ) by {
        assert(in_run(Run::Whitespace, src[st.offset + j]));
    }
    if s < src.len() {
        lemma_run_end_bounds(src, s, Run::Operator);
        lemma_run_end_bounds(src, s, Run::Identifier);
        lemma_numeric_end_bounds(src, s, false, false);
    }
    assert(src.subrange(st.offset, st2.offset) =~= skipped(st) + token_text(t));
}

/// `states` and `results` record successive calls of `next_token` on one
/// lexer: call `i` goes from `states[i]` to `states[i + 1]` and returns `results[i]`.
pub open spec fn is_run(states: Seq<LexState>, results: Seq<Result<TokenType, LexerError>>) -> bool {
    &&& states.len() == results.len() + 1
    &&& valid(states[0])
    &&& forall|i: int| 0 <= i < results.len() ==> step(states[i], #[trigger] results[i], states[i + 1])
}

proof fn lemma_run_valid(states: Seq<LexState>, results: Seq<Result<TokenType, LexerError>>, i: int)
    requires
        is_run(states, results),
        0 <= i <= results.len(),
    ensures
        valid(states[i]),
{
    if i > 0 {
        assert(step(states[i - 1], results[i - 1], states[i]));
    }
}

/// The text of what the first `n` calls of a run skipped and emitted, in order.
pub open spec fn emitted(
    states: Seq<LexState>,
    results: Seq<Result<TokenType, LexerError>>,
    n: int,
) -> Seq<char>
    decreases n,
{
    if n <= 0 {
        Seq::empty()
    } else {
        emitted(states, results, n - 1) + skipped(states[n - 1]) + match results[n - 1] {
            Ok(t) => token_text(t),
            Err(_) => Seq::empty(),
        }
    }
}

proof fn lemma_emitted_prefix(
    states: Seq<LexState>,
    results: Seq<Result<TokenType, LexerError>>,
    n: int,
)
    requires
        is_run(states, results),
        0 <= n <= results.len(),
    ensures
        states[n].src == states[0].src,
        states[0].offset <= states[n].offset <= states[0].src.len(),
        emitted(states, results, n) == states[0].src.subrange(states[0].offset, states[n].offset),
    decreases n,
{
    if n > 0 {
        lemma_emitted_prefix(states, results, n - 1);
        let st = states[n - 1];
        let st2 = states[n];
        assert(step(st, results[n - 1], st2));
        let src = st.src;
        let o0 = states[0].offset;
        let piece = skipped(st) + match results[n - 1] {
            Ok(t) => token_text(t),
            Err(_) => Seq::empty(),
        };
        match results[n - 1] {
            Ok(t) => {
                lemma_step_span(st, t, st2);
            },
            Err(_) => {
                lemma_run_end_bounds(src, st.offset, Run::Whitespace);
                assert(piece =~= skipped(st));
            },
        }
        assert(src.subrange(st.offset, st2.offset) == piece);
        assert(emitted(states, results, n) =~= emitted(states, results, n - 1) + piece);
        assert(src.subrange(o0, st.offset) + src.subrange(st.offset, st2.offset) =~= src.subrange(
            o0,
            st2.offset,
        ));
    }
}

/// In a run from the start of the text that ends with `EOF`, the skipped
/// whitespace and the tokens' source text, concatenated in order, give back
/// the whole text.
pub proof fn lemma_round_trip(states: Seq<LexState>, results: Seq<Result<TokenType, LexerError>>)
    requires
        is_run(states, results),
        states[0].offset == 0,
        results.len() > 0,
        results.last() == Ok::<TokenType, LexerError>(TokenType::EOF),
    ensures
        emitted(states, results, results.len() as int) == states[0].src,
{
    let n = results.len() as int;
    lemma_emitted_prefix(states, results, n);
    lemma_emitted_prefix(states, results, n - 1);
    assert(step(states[n - 1], results[n - 1], states[n]));
    lemma_run_end_bounds(states[n - 1].src, states[n - 1].offset, Run::Whitespace);
    assert(states[0].src.subrange(0, states[n].offset) =~= states[0].src);
}

/// How a result changes the count of unmatched opens of the bracket pair of
/// `c` (pairs are told apart by the scalar values of their opening brackets).
pub open spec fn balance_delta(r: Result<TokenType, LexerError>, c: char) -> int {
    match r {
        Ok(TokenType::Punctuation { raw, kind }) => if opening_of(raw) as u32 != opening_of(c) as u32 {
            0
        } else {
            match kind {
                PunctuationKind::Open(_) => 1,
                PunctuationKind::Close(_) => -1,
                PunctuationKind::Separator => 0,
            }
        },
        _ => 0,
    }
}

/// Opens less closes of the bracket pair of `c` among `results[a..b]`.
pub open spec fn net_opens(results: Seq<Result<TokenType, LexerError>>, c: char, a: int, b: int) -> int
    decreases b - a,
{
    if b <= a {
        0
    } else {
        net_opens(results, c, a, b - 1) + balance_delta(results[b - 1], c)
    }
}

proof fn lemma_step_depth(st: LexState, r: Result<TokenType, LexerError>, st2: LexState, c: char)
    requires
        valid(st),
        step(st, r, st2),
    ensures
        depth_of(st2.depths, c) == depth_of(st.depths, c) + balance_delta(r, c),
        forall|k: usize|
            r == Ok::<TokenType, LexerError>(
                TokenType::Punctuation { raw: c, kind: PunctuationKind::Open(k) },
            ) ==> k == depth_of(st.depths, c),
        forall|k: usize|
            r == Ok::<TokenType, LexerError>(
                TokenType::Punctuation { raw: c, kind: PunctuationKind::Close(k) },
            ) ==> k == depth_of(st.depths, c) - 1,
{
    lemma_run_end_bounds(st.src, st.offset, Run::Whitespace);
    let s = run_end(st.src, st.offset, Run::Whitespace);
    if s < st.src.len() {
        let x = st.src[s];
        if r is Ok {
            if is_open(x) || is_close(x) {
                if opening_of(x) as u32 == opening_of(c) as u32 {
                    assert(depth_of(st.depths, x) == depth_of(st.depths, c));
                    if is_open(x) {
                        assert(st2.depths == st.depths.insert(x as u32, (depth_of(st.depths, x) + 1) as usize));
                        assert(balance_delta(r, c) == 1);
                        assert(depth_of(st2.depths, c) == depth_of(st.depths, c) + 1);
                    } else {
                        assert(balance_delta(r, c) == -1);
                        assert(depth_of(st2.depths, c) == depth_of(st.depths, c) - 1);
                    }
                } else {
                    assert(depth_of(st2.depths, c) == depth_of(st.depths, c));
                }
            }
        }
    }
}

proof fn lemma_depth_tracks_net(
    states: Seq<LexState>,
    results: Seq<Result<TokenType, LexerError>>,
    c: char,
    a: int,
    m: int,
)
    requires
        is_run(states, results),
        0 <= a <= m <= results.len(),
    ensures
        depth_of(states[m].depths, c) == depth_of(states[a].depths, c) + net_opens(results, c, a, m),
    decreases m - a,
{
    if m > a {
        lemma_depth_tracks_net(states, results, c, a, m - 1);
        lemma_run_valid(states, results, m - 1);
        assert(step(states[m - 1], results[m - 1], states[m]));
        lemma_step_depth(states[m - 1], results[m - 1], states[m], c);
    }
}

/// Stack discipline per bracket pair: an open bracket gets as its depth the
/// number of opens of its pair unmatched before it, and the close that
/// matches it (a close of the same pair after it, where the opens and closes
/// of the pair in between balance out and never leave more closes than opens)
/// returns the same depth.
pub proof fn lemma_close_matches_open(
    states: Seq<LexState>,
    results: Seq<Result<TokenType, LexerError>>,
    open: char,
    close: char,
    i: int,
    j: int,
    k: usize,
    k2: usize,
)
    requires
        is_run(states, results),
        0 <= i < j < results.len(),
        opening_of(close) == opening_of(open),
        results[i] == Ok::<TokenType, LexerError>(
            TokenType::Punctuation { raw: open, kind: PunctuationKind::Open(k) },
        ),
        results[j] == Ok::<TokenType, LexerError>(
            TokenType::Punctuation { raw: close, kind: PunctuationKind::Close(k2) },
        ),
        forall|m: int| i + 1 <= m <= j ==> #[trigger] net_opens(results, open, i + 1, m) >= 0,
        net_opens(results, open, i + 1, j) == 0,
    ensures
        k == depth_of(states[i].depths, open),
        k2 == k,
{
    assert(step(states[i], results[i], states[i + 1]));
    assert(step(states[j], results[j], states[j + 1]));
    lemma_run_valid(states, results, i);
    lemma_run_valid(states, results, j);
    lemma_step_depth(states[i], results[i], states[i + 1], open);
    lemma_step_depth(states[j], results[j], states[j + 1], close);
    lemma_step_depth(states[j], results[j], states[j + 1], open);
    lemma_depth_tracks_net(states, results, open, i + 1, j);
}

/// Once a call of a run has returned `EOF`, every later call returns `EOF`
/// and leaves the state, position included, as that call left it.
pub proof fn lemma_run_eof_absorbs(
    states: Seq<LexState>,
    results: Seq<Result<TokenType, LexerError>>,
    i: int,
    j: int,
)
    requires
        is_run(states, results),
        0 <= i < j < results.len(),
        results[i] == Ok::<TokenType, LexerError>(TokenType::EOF),
    ensures
        results[j] == Ok::<TokenType, LexerError>(TokenType::EOF),
        states[j + 1] == states[i + 1],
    decreases j - i,
{
    if j > i + 1 {
        lemma_run_eof_absorbs(states, results, i, j - 1);
    }
    lemma_run_valid(states, results, j - 1);
    assert(step(states[j - 1], results[j - 1], states[j]));
    assert(step(states[j], results[j], states[j + 1]));
    lemma_eof_is_terminal(states[j - 1], states[j], results[j], states[j + 1]);
}

/// A run over text that holds only whitespace (possibly none), from its
/// start, returns `EOF` at every call and emits no other token.
pub proof fn lemma_run_whitespace_only(
    states: Seq<LexState>,
    results: Seq<Result<TokenType, LexerError>>,
    i: int,
)
    requires
        is_run(states, results),
        states[0].offset == 0,
        forall|j: int| 0 <= j < states[0].src.len() ==> is_whitespace(#[trigger] states[0].src[j]),
        0 <= i < results.len(),
    ensures
        results[i] == Ok::<TokenType, LexerError>(TokenType::EOF),
{
    assert(step(states[0], results[0], states[1]));
    lemma_whitespace_only(states[0], results[0], states[1]);
    if i > 0 {
        lemma_run_eof_absorbs(states, results, 0, i);
    }
}

/// Every operator token of a run is a maximal run of operator characters.
pub proof fn lemma_run_operator_is_maximal(
    states: Seq<LexState>,
    results: Seq<Result<TokenType, LexerError>>,
    i: int,
)
    requires
        is_run(states, results),
        0 <= i < results.len(),
        results[i] is Ok,
        results[i]->Ok_0 is Operators,
    ensures
        token_text(results[i]->Ok_0).len() >= 1,
        forall|j: int|
            0 <= j < token_text(results[i]->Ok_0).len() ==> is_operator_char(
                #[trigger] token_text(results[i]->Ok_0)[j],
            ),
        states[i + 1].offset < states[0].src.len() ==> !is_operator_char(
            states[0].src[states[i + 1].offset],
        ),
{
    lemma_run_valid(states, results, i);
    lemma_emitted_prefix(states, results, i);
    assert(step(states[i], results[i], states[i + 1]));
    lemma_operator_is_maximal(states[i], results[i]->Ok_0, states[i + 1]);
}

/// The number of newlines in `s`.
pub open spec fn newlines(s: Seq<char>) -> nat
    decreases s.len(),
{
    if s.len() == 0 {
        0
    } else {
        newlines(s.drop_last()) + if s.last() == '\n' {
            1nat
        } else {
            0nat
        }
    }
}

/// Where the last line of `s` starts: just after its last newline, or 0.
pub open spec fn last_line_start(s: Seq<char>) -> int
    decreases s.len(),
{
    if s.len() == 0 {
        0
    } else if s.last() == '\n' {
        s.len() as int
    } else {
        last_line_start(s.drop_last())
    }
}

/// After reading `s`, the line is one more than the number of newlines read,
/// and the column one more than the number of codepoints after the last
/// newline (after all of `s` where it has none).
pub proof fn lemma_line_col_closed_form(s: Seq<char>)
    ensures
        line_col(s).0 == 1 + newlines(s),
        0 <= last_line_start(s) <= s.len(),
        line_col(s).1 == 1 + s.len() - last_line_start(s),
        forall|j: int| last_line_start(s) <= j < s.len() ==> #[trigger] s[j] != '\n',
        last_line_start(s) > 0 ==> s[last_line_start(s) - 1] == '\n',
    decreases s.len(),
{
    if s.len() > 0 {
        lemma_line_col_closed_form(s.drop_last());
        assert forall|j: int| last_line_start(s) <= j < s.len() implies #[trigger] s[j] != '\n' by {
            if j < s.len() - 1 {
                assert(s.drop_last()[j] == s[j]);
            }
        }
        if s.last() != '\n' && last_line_start(s) > 0 {
            assert(s.drop_last()[last_line_start(s) - 1] == s[last_line_start(s) - 1]);
        }
    }
}

/// A close of a bracket pair that returned depth `d` leaves that depth free:
/// the next open of the pair, once the opens and closes of the pair in
/// between have balanced out, gets depth `d` again.
pub proof fn lemma_depth_reused(
    states: Seq<LexState>,
    results: Seq<Result<TokenType, LexerError>>,
    close: char,
    open: char,
    i: int,
    j: int,
    d: usize,
    k: usize,
)
    requires
        is_run(states, results),
        0 <= i < j < results.len(),
        opening_of(close) == opening_of(open),
        results[i] == Ok::<TokenType, LexerError>(
            TokenType::Punctuation { raw: close, kind: PunctuationKind::Close(d) },
        ),
        results[j] == Ok::<TokenType, LexerError>(
            TokenType::Punctuation { raw: open, kind: PunctuationKind::Open(k) },
        ),
        net_opens(results, open, i + 1, j) == 0,
    ensures
        k == d,
{
    assert(step(states[i], results[i], states[i + 1]));
    assert(step(states[j], results[j], states[j + 1]));
    lemma_run_valid(states, results, i);
    lemma_run_valid(states, results, j);
    lemma_step_depth(states[i], results[i], states[i + 1], close);
    lemma_step_depth(states[i], results[i], states[i + 1], open);
    lemma_step_depth(states[j], results[j], states[j + 1], open);
    lemma_depth_tracks_net(states, results, open, i + 1, j);
}

} // verus!
