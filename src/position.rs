use vstd::prelude::*;

verus! {

/// The line and column reached after reading `s` from the start of a text:
/// a newline moves to column 1 of the next line, any other codepoint one column on.
pub open spec fn line_col(s: Seq<char>) -> (nat, nat)
    decreases s.len(),
{
    if s.len() == 0 {
        (1, 1)
    } else {
        let (l, c) = line_col(s.drop_last());
        if s.last() == '\n' {
            (l + 1, 1)
        } else {
            (l, c + 1)
        }
    }
}

pub proof fn lemma_line_col_bounds(s: Seq<char>)
    ensures
        1 <= line_col(s).0 <= s.len() + 1,
        1 <= line_col(s).1 <= s.len() + 1,
    decreases s.len(),
{
    if s.len() > 0 {
        lemma_line_col_bounds(s.drop_last());
    }
}

} // verus!
