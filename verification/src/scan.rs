//! Scanning a text that is held as a sequence of characters.
//!
//! Positions count characters from the start of the text. Every function
//! here is total: a position beyond the end of the text matches nothing.

use crate::chars::CharClass;
use vstd::prelude::*;

verus! {

/// Where the run of `class` characters that begins at `i` ends: the first
/// position from `i` on that holds no character of the class, or the end of
/// the text.
pub open spec fn run_end(s: Seq<char>, i: int, class: CharClass) -> int
    decreases s.len() - i,
{
    if 0 <= i < s.len() && class.has(s[i]) {
        run_end(s, i + 1, class)
    } else {
        i
    }
}

/// Whether every character of `s` belongs to `class`.
pub open spec fn all_in(s: Seq<char>, class: CharClass) -> bool {
    forall|k: int| 0 <= k < s.len() ==> class.has(#[trigger] s[k])
}

/// Whether the characters of `lit` stand in `s` from position `i` on.
pub open spec fn has_literal_at(s: Seq<char>, i: int, lit: Seq<char>) -> bool {
    0 <= i && i + lit.len() <= s.len() && s.subrange(i, i + lit.len()) =~= lit
}

/// A run lies within the text, holds only characters of its class, and stops
/// at the end of the text or at a character outside the class.
pub proof fn lemma_run_end(s: Seq<char>, i: int, class: CharClass)
    requires
        0 <= i <= s.len(),
    ensures
        i <= run_end(s, i, class) <= s.len(),
        all_in(s.subrange(i, run_end(s, i, class)), class),
        run_end(s, i, class) < s.len() ==> !class.has(s[run_end(s, i, class)]),
    decreases s.len() - i,
{
    if i < s.len() && class.has(s[i]) {
        lemma_run_end(s, i + 1, class);
        let j = run_end(s, i, class);
        assert forall|k: int| 0 <= k < j - i implies class.has(#[trigger] s.subrange(i, j)[k]) by {
            if k > 0 {
                assert(s.subrange(i + 1, j)[k - 1] == s[i + k]);
            }
        }
    }
}

/// The end of a run is the only position with the properties that
/// [`lemma_run_end`] states.
pub proof fn lemma_run_end_unique(s: Seq<char>, i: int, j: int, class: CharClass)
    requires
        0 <= i <= j <= s.len(),
        all_in(s.subrange(i, j), class),
        j < s.len() ==> !class.has(s[j]),
    ensures
        run_end(s, i, class) == j,
    decreases j - i,
{
    if i < j {
        assert(s.subrange(i, j)[0] == s[i]);
        assert forall|k: int| 0 <= k < j - (i + 1) implies class.has(
            #[trigger] s.subrange(i + 1, j)[k],
        ) by {
            assert(s.subrange(i, j)[k + 1] == s[i + 1 + k]);
        }
        lemma_run_end_unique(s, i + 1, j, class);
    }
}

/// Runs over the characters of `class` from `start` on and returns where the
/// run ends.
pub fn scan(text: &[char], start: usize, class: CharClass) -> (end: usize)
    ensures
        end == run_end(text@, start as int, class),
        start <= end,
        start <= text.len() ==> end <= text.len(),
{
    let mut pos: usize = start;
    while pos < text.len() && class.contains(text[pos])
        invariant
            start <= pos,
            start <= text.len() ==> pos <= text.len(),
            run_end(text@, start as int, class) == run_end(text@, pos as int, class),
        decreases text.len() - pos,
    {
        pos = pos + 1;
    }
    pos
}

/// Tests whether `lit` stands in the text at `pos`, and returns the position
/// behind it if it does.
pub fn after_literal(text: &[char], pos: usize, lit: &str) -> (end: Option<usize>)
    ensures
        end is Some <==> has_literal_at(text@, pos as int, lit@),
        end matches Some(e) ==> e == pos + lit@.len(),
{
    if pos > text.len() {
        return None;
    }
    let mut at: usize = pos;
    for c in it: lit.chars()
        invariant
            it.seq() == lit@,
            at == pos + it.index(),
            at <= text.len(),
            forall|k: int| 0 <= k < it.index() ==> text@[pos + k] == #[trigger] lit@[k],
    {
        let ghost k = at - pos;
        assert(0 <= k < lit@.len() && c == lit@[k]);
        if at >= text.len() || text[at] != c {
            assert(!has_literal_at(text@, pos as int, lit@)) by {
                if pos + lit@.len() <= text.len() {
                    assert(text@.subrange(pos as int, pos + lit@.len())[k] == text@[pos + k]);
                }
            }
            return None;
        }
        at = at + 1;
    }
    assert(text@.subrange(pos as int, pos + lit@.len()) =~= lit@);
    Some(at)
}

/// The characters of `input`, one element each.
pub fn to_chars(input: &str) -> (chars: Vec<char>)
    ensures
        chars@ == input@,
{
    let mut chars: Vec<char> = Vec::new();
    for c in it: input.chars()
        invariant
            it.seq() == input@,
            chars@ == input@.take(it.index()),
    {
        chars.push(c);
    }
    chars
}

/// Appends one character with `String::push`, which puts it at the end of
/// the string and leaves what was there in place.
#[verifier::external_body]
fn push_char(s: &mut String, c: char)
    ensures
        final(s)@ == old(s)@.push(c),
{
    s.push(c);
}

/// The characters of `chars` as a string.
pub fn string_of(chars: &[char]) -> (s: String)
    ensures
        s@ == chars@,
{
    let mut s = String::new();
    let mut pos: usize = 0;
    while pos < chars.len()
        invariant
            pos <= chars.len(),
            s@ == chars@.take(pos as int),
        decreases chars.len() - pos,
    {
        push_char(&mut s, chars[pos]);
        assert(chars@.take(pos + 1) =~= chars@.take(pos as int).push(chars@[pos as int]));
        pos = pos + 1;
    }
    assert(chars@.take(pos as int) =~= chars@);
    s
}

} // verus!
