//! Line joining: removal of carriage-return and line-feed characters,
//! with everything else preserved in order.

use vstd::prelude::*;

verus! {

/// A character that the line joiner removes.
pub open spec fn is_line_break(c: char) -> bool {
    c == '\r' || c == '\n'
}

/// The input with every carriage return and line feed removed.
pub open spec fn strip_line_breaks(s: Seq<char>) -> Seq<char> {
    s.filter(|c: char| !is_line_break(c))
}

/// How many carriage returns and line feeds the input holds.
pub open spec fn line_break_count(s: Seq<char>) -> nat
    decreases s.len(),
{
    if s.len() == 0 {
        0
    } else {
        line_break_count(s.drop_last()) + if is_line_break(s.last()) {
            1nat
        } else {
            0nat
        }
    }
}

/// Joining lines removes a character exactly when it is a line break.
proof fn lemma_strip_push(s: Seq<char>, c: char)
    ensures
        !is_line_break(c) ==> strip_line_breaks(s.push(c)) == strip_line_breaks(s).push(c),
        is_line_break(c) ==> strip_line_breaks(s.push(c)) == strip_line_breaks(s),
{
    reveal(Seq::filter);
    assert(s.push(c).drop_last() =~= s);
    assert(s.push(c).last() == c);
}

/// The line joiner is idempotent: a second pass removes nothing.
pub proof fn lemma_oneline_idempotent(s: Seq<char>)
    ensures
        strip_line_breaks(strip_line_breaks(s)) == strip_line_breaks(s),
    decreases s.len(),
{
    reveal(Seq::filter);
    if s.len() > 0 {
        lemma_oneline_idempotent(s.drop_last());
        if !is_line_break(s.last()) {
            lemma_strip_push(strip_line_breaks(s.drop_last()), s.last());
        }
    }
}

/// The line joiner changes the character count by exactly the number of
/// line-break characters it removes, and by nothing else.
pub proof fn lemma_oneline_length(s: Seq<char>)
    ensures
        strip_line_breaks(s).len() + line_break_count(s) == s.len(),
    decreases s.len(),
{
    reveal(Seq::filter);
    if s.len() > 0 {
        lemma_oneline_length(s.drop_last());
    }
}

/// Removes every carriage return and line feed from the characters.
pub fn strip_chars(s: &Vec<char>) -> (r: Vec<char>)
    ensures
        r@ == strip_line_breaks(s@),
{
    let mut out: Vec<char> = Vec::new();
    let mut i: usize = 0;
    while i < s.len()
        invariant
            i <= s.len(),
            out@ == strip_line_breaks(s@.take(i as int)),
        decreases s.len() - i,
    {
        let c = s[i];
        proof {
            assert(s@.take(i as int).push(c) =~= s@.take(i + 1 as int));
            lemma_strip_push(s@.take(i as int), c);
        }
        if c != '\r' && c != '\n' {
            out.push(c);
        }
        i = i + 1;
    }
    proof {
        assert(s@.take(s@.len() as int) =~= s@);
    }
    out
}

} // verus!
