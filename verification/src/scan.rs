//! Character classes and whitespace/word runs over a line of text.
//!
//! The todo.txt grammar splits a line at runs of ASCII whitespace; these
//! helpers describe such runs over the view of a string and give the
//! verified executable scanners the parser and the tag extractor share.

use vstd::prelude::*;

verus! {

/// ASCII whitespace, the only separator the format recognizes.
pub open spec fn is_space(c: char) -> bool {
    c == ' ' || c == '\t' || c == '\n' || c == '\r' || c == '\x0C'
}

/// ASCII decimal digit.
pub open spec fn is_digit(c: char) -> bool {
    '0' <= c && c <= '9'
}

/// ASCII uppercase letter, the only admissible priority.
pub open spec fn is_upper(c: char) -> bool {
    'A' <= c && c <= 'Z'
}

/// End of the whitespace run that starts at `i`: the first position at or
/// after `i` that holds a non-space character, or the end of the text.
pub open spec fn space_run_end(s: Seq<char>, i: int) -> int
    decreases s.len() - i,
{
    if 0 <= i < s.len() && is_space(s[i]) {
        space_run_end(s, i + 1)
    } else {
        i
    }
}

/// End of the word that starts at `i`: the first position at or after `i`
/// that holds a space, or the end of the text.
pub open spec fn word_run_end(s: Seq<char>, i: int) -> int
    decreases s.len() - i,
{
    if 0 <= i < s.len() && !is_space(s[i]) {
        word_run_end(s, i + 1)
    } else {
        i
    }
}

pub proof fn lemma_space_run_end(s: Seq<char>, i: int)
    requires
        0 <= i <= s.len(),
    ensures
        i <= space_run_end(s, i) <= s.len(),
        forall|k: int| i <= k < space_run_end(s, i) ==> is_space(s[k]),
        space_run_end(s, i) < s.len() ==> !is_space(s[space_run_end(s, i)]),
    decreases s.len() - i,
{
    if i < s.len() && is_space(s[i]) {
        lemma_space_run_end(s, i + 1);
    }
}

pub proof fn lemma_word_run_end(s: Seq<char>, i: int)
    requires
        0 <= i <= s.len(),
    ensures
        i <= word_run_end(s, i) <= s.len(),
        forall|k: int| i <= k < word_run_end(s, i) ==> !is_space(s[k]),
        word_run_end(s, i) < s.len() ==> is_space(s[word_run_end(s, i)]),
    decreases s.len() - i,
{
    if i < s.len() && !is_space(s[i]) {
        lemma_word_run_end(s, i + 1);
    }
}

/// A whitespace run ends where a non-space character (or the end of the
/// text) follows it; used to pin the position reached after a separator.
pub proof fn lemma_space_run_single(s: Seq<char>, i: int)
    requires
        0 <= i < s.len(),
        is_space(s[i]),
        i + 1 == s.len() || !is_space(s[i + 1]),
    ensures
        space_run_end(s, i) == i + 1,
{
    assert(space_run_end(s, i) == space_run_end(s, i + 1));
}

pub fn space_char(c: char) -> (b: bool)
    ensures
        b == is_space(c),
{
    c == ' ' || c == '\t' || c == '\n' || c == '\r' || c == '\x0C'
}

pub fn digit_char(c: char) -> (b: bool)
    ensures
        b == is_digit(c),
{
    '0' <= c && c <= '9'
}

pub fn upper_char(c: char) -> (b: bool)
    ensures
        b == is_upper(c),
{
    'A' <= c && c <= 'Z'
}

/// Advance from `i` past the whitespace run starting there.
pub fn skip_spaces(s: &str, i: usize) -> (j: usize)
    requires
        i <= s@.len(),
    ensures
        j as int == space_run_end(s@, i as int),
        i <= j <= s@.len(),
{
    let n = s.unicode_len();
    let mut j = i;
    while j < n && space_char(s.get_char(j))
        invariant
            i <= j <= n,
            n == s@.len(),
            space_run_end(s@, i as int) == space_run_end(s@, j as int),
        decreases n - j,
    {
        j = j + 1;
    }
    assert(space_run_end(s@, j as int) == j as int);
    j
}

/// Advance from `i` past the word starting there.
pub fn skip_word(s: &str, i: usize) -> (j: usize)
    requires
        i <= s@.len(),
    ensures
        j as int == word_run_end(s@, i as int),
        i <= j <= s@.len(),
{
    let n = s.unicode_len();
    let mut j = i;
    while j < n && !space_char(s.get_char(j))
        invariant
            i <= j <= n,
            n == s@.len(),
            word_run_end(s@, i as int) == word_run_end(s@, j as int),
        decreases n - j,
    {
        j = j + 1;
    }
    assert(word_run_end(s@, j as int) == j as int);
    j
}

} // verus!
