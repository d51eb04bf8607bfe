use vstd::prelude::*;

verus! {

/// Whitespace: space, tab and newline. It separates tokens and is never emitted.
pub open spec fn is_whitespace(c: char) -> bool {
    c == ' ' || c == '\t' || c == '\n'
}

/// Opening brackets.
pub open spec fn is_open(c: char) -> bool {
    c == '(' || c == '[' || c == '{'
}

/// Closing brackets.
pub open spec fn is_close(c: char) -> bool {
    c == ')' || c == ']' || c == '}'
}

/// The character under which a bracket's depth is counted: the opening
/// bracket of its pair. Any other character stands for itself.
pub open spec fn opening_of(c: char) -> char {
    if c == ')' {
        '('
    } else if c == ']' {
        '['
    } else if c == '}' {
        '{'
    } else {
        c
    }
}

/// Separators, `,` and `:`: punctuation without depth.
pub open spec fn is_separator(c: char) -> bool {
    c == ',' || c == ':'
}

/// Characters that make up operators; a run of them is one operator.
pub open spec fn is_operator_char(c: char) -> bool {
    c == '+' || c == '-' || c == '*' || c == '/' || c == '%' || c == '=' || c == '<' || c == '>'
        || c == '!' || c == '&' || c == '|' || c == '^' || c == '~' || c == '?' || c == '.'
        || c == '@'
}

/// ASCII decimal digits.
pub open spec fn is_digit(c: char) -> bool {
    '0' <= c && c <= '9'
}

/// ASCII letters and the underscore: the characters that may start an identifier.
pub open spec fn is_ident_start(c: char) -> bool {
    ('a' <= c && c <= 'z') || ('A' <= c && c <= 'Z') || c == '_'
}

/// The characters that may continue an identifier.
pub open spec fn is_ident_char(c: char) -> bool {
    is_ident_start(c) || is_digit(c)
}

/// The character that opens and closes a character literal.
pub open spec fn is_quote(c: char) -> bool {
    c == '\''
}

/// A class of characters of which a token takes a maximal run.
#[derive(Clone, Copy)]
pub enum Run {
    Whitespace,
    Operator,
    Identifier,
}

pub open spec fn in_run(k: Run, c: char) -> bool {
    match k {
        Run::Whitespace => is_whitespace(c),
        Run::Operator => is_operator_char(c),
        Run::Identifier => is_ident_char(c),
    }
}

/// The end of the maximal run of class `k` that starts at `i`.
pub open spec fn run_end(src: Seq<char>, i: int, k: Run) -> int
    decreases src.len() - i,
{
    if 0 <= i < src.len() && in_run(k, src[i]) {
        run_end(src, i + 1, k)
    } else {
        i
    }
}

/// The end of a numeric literal's text from `i`: digits, with at most one
/// decimal point before any exponent marker, and at most one exponent marker.
pub open spec fn numeric_end(src: Seq<char>, i: int, dot: bool, exp: bool) -> int
    decreases src.len() - i,
{
    if 0 <= i < src.len() {
        let c = src[i];
        if is_digit(c) {
            numeric_end(src, i + 1, dot, exp)
        } else if c == '.' && !dot && !exp {
            numeric_end(src, i + 1, true, exp)
        } else if (c == 'e' || c == 'E') && !exp {
            numeric_end(src, i + 1, dot, true)
        } else {
            i
        }
    } else {
        i
    }
}

pub proof fn lemma_run_end_bounds(src: Seq<char>, i: int, k: Run)
    requires
        0 <= i <= src.len(),
    ensures
        i <= run_end(src, i, k) <= src.len(),
        forall|j: int| i <= j < run_end(src, i, k) ==> in_run(k, #[trigger] src[j]),
        run_end(src, i, k) < src.len() ==> !in_run(k, src[run_end(src, i, k)]),
    decreases src.len() - i,
{
    if i < src.len() && in_run(k, src[i]) {
        lemma_run_end_bounds(src, i + 1, k);
    }
}

pub proof fn lemma_numeric_end_bounds(src: Seq<char>, i: int, dot: bool, exp: bool)
    requires
        0 <= i <= src.len(),
    ensures
        i <= numeric_end(src, i, dot, exp) <= src.len(),
    decreases src.len() - i,
{
    if i < src.len() {
        let c = src[i];
        if is_digit(c) {
            lemma_numeric_end_bounds(src, i + 1, dot, exp);
        } else if c == '.' && !dot && !exp {
            lemma_numeric_end_bounds(src, i + 1, true, exp);
        } else if (c == 'e' || c == 'E') && !exp {
            lemma_numeric_end_bounds(src, i + 1, dot, true);
        }
    }
}

pub fn whitespace(c: char) -> (r: bool)
    ensures
        r == is_whitespace(c),
{
    c == ' ' || c == '\t' || c == '\n'
}

pub fn open_bracket(c: char) -> (r: bool)
    ensures
        r == is_open(c),
{
    c == '(' || c == '[' || c == '{'
}

pub fn close_bracket(c: char) -> (r: bool)
    ensures
        r == is_close(c),
{
    c == ')' || c == ']' || c == '}'
}

pub fn opening(c: char) -> (r: char)
    ensures
        r == opening_of(c),
{
    if c == ')' {
        '('
    } else if c == ']' {
        '['
    } else if c == '}' {
        '{'
    } else {
        c
    }
}

pub fn separator(c: char) -> (r: bool)
    ensures
        r == is_separator(c),
{
    c == ',' || c == ':'
}

pub fn operator_char(c: char) -> (r: bool)
    ensures
        r == is_operator_char(c),
{
    c == '+' || c == '-' || c == '*' || c == '/' || c == '%' || c == '=' || c == '<' || c == '>'
        || c == '!' || c == '&' || c == '|' || c == '^' || c == '~' || c == '?' || c == '.'
        || c == '@'
}

pub fn digit(c: char) -> (r: bool)
    ensures
        r == is_digit(c),
{
    '0' <= c && c <= '9'
}

pub fn ident_start(c: char) -> (r: bool)
    ensures
        r == is_ident_start(c),
{
    ('a' <= c && c <= 'z') || ('A' <= c && c <= 'Z') || c == '_'
}

pub fn in_run_exec(k: Run, c: char) -> (r: bool)
    ensures
        r == in_run(k, c),
{
    match k {
        Run::Whitespace => whitespace(c),
        Run::Operator => operator_char(c),
        Run::Identifier => ident_start(c) || digit(c),
    }
}

} // verus!
