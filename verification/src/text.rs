//! Character classification and word counting over raw text lines.
//!
//! A word is a maximal run of non-whitespace characters; counting them
//! is phrased through word starts: positions whose character is not
//! whitespace while the previous one (if any) is.

use vstd::prelude::*;
use vstd::string::StrSliceExecFns;

verus! {

/// Whether `c` has the Unicode `White_Space` property, the class that
/// whitespace-delimited word splitting breaks on.
pub open spec fn is_space(c: char) -> bool {
    let u = c as u32;
    ||| u == 0x20
    ||| (0x09 <= u && u <= 0x0D)
    ||| u == 0x85
    ||| u == 0xA0
    ||| u == 0x1680
    ||| (0x2000 <= u && u <= 0x200A)
    ||| u == 0x2028
    ||| u == 0x2029
    ||| u == 0x202F
    ||| u == 0x205F
    ||| u == 0x3000
}

/// Executable test for [`is_space`].
pub fn is_space_char(c: char) -> (r: bool)
    ensures
        r == is_space(c),
{
    let u = c as u32;
    u == 0x20 || (0x09 <= u && u <= 0x0D) || u == 0x85 || u == 0xA0 || u == 0x1680 || (0x2000 <= u
        && u <= 0x200A) || u == 0x2028 || u == 0x2029 || u == 0x202F || u == 0x205F || u == 0x3000
}

/// A word starts at position `i` when the character there is not
/// whitespace and either `i` is the first position or the character
/// before it is whitespace.
pub open spec fn word_start_at(s: Seq<char>, i: int) -> bool {
    !is_space(s[i]) && (i == 0 || is_space(s[i - 1]))
}

/// Number of word starts among the first `i` positions of `s`.
pub open spec fn words_up_to(s: Seq<char>, i: int) -> nat
    decreases i,
{
    if i <= 0 {
        0
    } else {
        words_up_to(s, i - 1) + if word_start_at(s, i - 1) {
            1nat
        } else {
            0nat
        }
    }
}

/// Number of maximal whitespace-delimited non-empty tokens in `s`.
pub open spec fn word_count(s: Seq<char>) -> nat {
    words_up_to(s, s.len() as int)
}

/// There are at most as many word starts as inspected positions.
pub proof fn lemma_words_up_to_le(s: Seq<char>, i: int)
    requires
        0 <= i,
    ensures
        words_up_to(s, i) <= i,
    decreases i,
{
    if i > 0 {
        lemma_words_up_to_le(s, i - 1);
    }
}

/// A line holds at least as many characters as words.
pub proof fn lemma_words_le_chars(s: Seq<char>)
    ensures
        word_count(s) <= s.len(),
{
    lemma_words_up_to_le(s, s.len() as int);
}

/// Counts the whitespace-delimited words of one line.
pub fn count_words(s: &str) -> (n: usize)
    ensures
        n == word_count(s@),
{
    let len = s.unicode_len();
    let mut n: usize = 0;
    let mut i: usize = 0;
    let mut after_space = true;
    while i < len
        invariant
            len == s@.len(),
            i <= len,
            n == words_up_to(s@, i as int),
            n <= i,
            after_space == (i == 0 || is_space(s@[i as int - 1])),
        decreases len - i,
    {
        let c = s.get_char(i);
        let sp = is_space_char(c);
        if !sp && after_space {
            n = n + 1;
        }
        after_space = sp;
        i = i + 1;
    }
    n
}

} // verus!
