//! Primitive recognizers: character classes and maximal runs of one class.
//!
//! Each recognizer consumes a non-empty run of a single character class from
//! the front of the remaining input; the higher grammar rules in `command`
//! backtrack between alternatives, so a failed recognizer consumes nothing.

use vstd::prelude::*;

verus! {

/// The separator inside identifiers: a single ASCII space.
pub open spec fn is_space_char(c: char) -> bool {
    c == ' '
}

/// Word characters within the first 128 code points: ASCII letters and digits.
pub open spec fn is_ascii_word_char(c: char) -> bool {
    ||| 'a' as u32 <= c as u32 <= 'z' as u32
    ||| 'A' as u32 <= c as u32 <= 'Z' as u32
    ||| '0' as u32 <= c as u32 <= '9' as u32
}

/// Which characters beyond ASCII count as alphanumeric. The answer depends on
/// the character alone; `word_char` below ties it to the standard library.
pub uninterp spec fn is_unicode_word_char(c: char) -> bool;

/// A word character: any alphanumeric character, ASCII or not.
pub open spec fn is_word_char(c: char) -> bool {
    if (c as u32) < 128 {
        is_ascii_word_char(c)
    } else {
        is_unicode_word_char(c)
    }
}

/// A character an identifier may contain: a word character or a space.
pub open spec fn is_ident_char(c: char) -> bool {
    is_word_char(c) || is_space_char(c)
}

/// Relies on `char::is_alphanumeric`: the result depends on the character
/// alone, and on ASCII input it holds exactly for the letters `a`-`z`,
/// `A`-`Z` and the digits `0`-`9`.
#[verifier::external_body]
pub fn word_char(c: char) -> (r: bool)
    ensures
        r == is_word_char(c),
        (c as u32) >= 128 ==> r == is_unicode_word_char(c),
{
    c.is_alphanumeric()
}

/// The end of the maximal run of spaces that starts at `i`.
pub open spec fn space_end(s: Seq<char>, i: int) -> int
    decreases s.len() - i,
{
    if 0 <= i < s.len() && is_space_char(s[i]) {
        space_end(s, i + 1)
    } else {
        i
    }
}

/// The end of the maximal run of word characters that starts at `i`.
pub open spec fn word_end(s: Seq<char>, i: int) -> int
    decreases s.len() - i,
{
    if 0 <= i < s.len() && is_word_char(s[i]) {
        word_end(s, i + 1)
    } else {
        i
    }
}

/// What `space_end` returns: the run it spans is all spaces, and it is maximal.
pub proof fn lemma_space_end(s: Seq<char>, i: int)
    requires
        0 <= i <= s.len(),
    ensures
        i <= space_end(s, i) <= s.len(),
        forall|k: int| i <= k < space_end(s, i) ==> is_space_char(s[k]),
        space_end(s, i) < s.len() ==> !is_space_char(s[space_end(s, i)]),
    decreases s.len() - i,
{
    if i < s.len() && is_space_char(s[i]) {
        lemma_space_end(s, i + 1);
    }
}

/// What `word_end` returns: the run it spans is all word characters, and it
/// is maximal.
pub proof fn lemma_word_end(s: Seq<char>, i: int)
    requires
        0 <= i <= s.len(),
    ensures
        i <= word_end(s, i) <= s.len(),
        forall|k: int| i <= k < word_end(s, i) ==> is_word_char(s[k]),
        word_end(s, i) < s.len() ==> !is_word_char(s[word_end(s, i)]),
    decreases s.len() - i,
{
    if i < s.len() && is_word_char(s[i]) {
        lemma_word_end(s, i + 1);
    }
}

/// A run of spaces followed by a non-space (or the end) pins `space_end` down.
pub proof fn lemma_space_end_of_run(s: Seq<char>, i: int, e: int)
    requires
        0 <= i <= e <= s.len(),
        forall|k: int| i <= k < e ==> is_space_char(s[k]),
        e < s.len() ==> !is_space_char(s[e]),
    ensures
        space_end(s, i) == e,
    decreases e - i,
{
    if i < e {
        lemma_space_end_of_run(s, i + 1, e);
    }
}

/// A run of word characters followed by a non-word character (or the end)
/// pins `word_end` down.
pub proof fn lemma_word_end_of_run(s: Seq<char>, i: int, e: int)
    requires
        0 <= i <= e <= s.len(),
        forall|k: int| i <= k < e ==> is_word_char(s[k]),
        e < s.len() ==> !is_word_char(s[e]),
    ensures
        word_end(s, i) == e,
    decreases e - i,
{
    if i < e {
        lemma_word_end_of_run(s, i + 1, e);
    }
}

/// Consume the maximal run of spaces that starts at `from`.
pub fn space_to(s: &str, from: usize) -> (r: usize)
    requires
        from <= s@.len(),
    ensures
        r == space_end(s@, from as int),
        from <= r <= s@.len(),
{
    let n = s.unicode_len();
    let mut j = from;
    while j < n && s.get_char(j) == ' '
        invariant
            from <= j <= n == s@.len(),
            space_end(s@, from as int) == space_end(s@, j as int),
        decreases n - j,
    {
        j = j + 1;
    }
    proof {
        lemma_space_end(s@, j as int);
    }
    j
}

/// Consume the maximal run of word characters that starts at `from`.
pub fn word_to(s: &str, from: usize) -> (r: usize)
    requires
        from <= s@.len(),
    ensures
        r == word_end(s@, from as int),
        from <= r <= s@.len(),
{
    let n = s.unicode_len();
    let mut j = from;
    loop
        invariant
            from <= j <= n == s@.len(),
            word_end(s@, from as int) == word_end(s@, j as int),
        decreases n - j,
    {
        if j < n && word_char(s.get_char(j)) {
            j = j + 1;
        } else {
            proof {
                lemma_word_end(s@, j as int);
            }
            return j;
        }
    }
}

} // verus!
