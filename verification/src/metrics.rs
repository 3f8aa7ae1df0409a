//! The stream metrics accumulator: counts of lines, words, bytes and
//! Unicode characters over a fully consumed line source.
//!
//! A line source is a vector of raw lines, each still carrying the
//! terminator bytes it was read with, so byte and character totals
//! include terminators exactly as they appeared in the input.

use vstd::prelude::*;
use vstd::string::StrSliceExecFns;
use vstd::utf8::encode_utf8;

use crate::text::{lemma_words_le_chars, word_count};

verus! {

/// Metrics of one fully consumed line source.
#[derive(Clone, Copy, Debug, PartialEq, Eq, Structural)]
pub struct FileInfo {
    pub num_lines: usize,
    pub num_words: usize,
    pub num_bytes: usize,
    pub num_chars: usize,
}

/// UTF-8 byte length of one line.
pub open spec fn line_bytes(s: Seq<char>) -> nat {
    encode_utf8(s).len()
}

/// Sum of the word counts of all lines.
pub open spec fn total_words(ls: Seq<Seq<char>>) -> nat
    decreases ls.len(),
{
    if ls.len() == 0 {
        0
    } else {
        total_words(ls.drop_last()) + word_count(ls.last())
    }
}

/// Sum of the UTF-8 byte lengths of all lines.
pub open spec fn total_bytes(ls: Seq<Seq<char>>) -> nat
    decreases ls.len(),
{
    if ls.len() == 0 {
        0
    } else {
        total_bytes(ls.drop_last()) + line_bytes(ls.last())
    }
}

/// Sum of the character counts of all lines.
pub open spec fn total_chars(ls: Seq<Seq<char>>) -> nat
    decreases ls.len(),
{
    if ls.len() == 0 {
        0
    } else {
        total_chars(ls.drop_last()) + ls.last().len()
    }
}

/// Every UTF-8 encoded character takes at least one byte, so a line's
/// byte length is at least its character count.
pub proof fn lemma_chars_le_bytes(s: Seq<char>)
    ensures
        s.len() <= line_bytes(s),
    decreases s.len(),
{
    if s.len() > 0 {
        lemma_chars_le_bytes(s.drop_first());
    }
}

/// Character totals never exceed byte totals, and word totals never
/// exceed character totals, over any line source.
pub proof fn lemma_total_order(ls: Seq<Seq<char>>)
    ensures
        total_words(ls) <= total_chars(ls),
        total_chars(ls) <= total_bytes(ls),
    decreases ls.len(),
{
    if ls.len() > 0 {
        lemma_total_order(ls.drop_last());
        lemma_words_le_chars(ls.last());
        lemma_chars_le_bytes(ls.last());
    }
}

/// A total over a prefix never exceeds the total over the whole source.
pub proof fn lemma_total_bytes_take(ls: Seq<Seq<char>>, i: int)
    requires
        0 <= i <= ls.len(),
    ensures
        total_bytes(ls.take(i)) <= total_bytes(ls),
    decreases ls.len(),
{
    if i < ls.len() {
        assert(ls.drop_last().take(i) =~= ls.take(i));
        lemma_total_bytes_take(ls.drop_last(), i);
    } else {
        assert(ls.take(i) =~= ls);
    }
}

/// Consumes a line source and produces its metrics: one line per
/// element, and words, bytes and characters summed over all lines with
/// terminators included.
pub fn count(lines: &Vec<String>) -> (info: FileInfo)
    requires
        total_bytes(lines.deep_view()) <= usize::MAX,
    ensures
        info.num_lines == lines@.len(),
        info.num_words == total_words(lines.deep_view()),
        info.num_bytes == total_bytes(lines.deep_view()),
        info.num_chars == total_chars(lines.deep_view()),
        info.num_words <= info.num_chars <= info.num_bytes,
{
    let ghost dv = lines.deep_view();
    let mut num_words: usize = 0;
    let mut num_bytes: usize = 0;
    let mut num_chars: usize = 0;
    let mut i: usize = 0;
    while i < lines.len()
        invariant
            i <= lines.len(),
            dv == lines.deep_view(),
            total_bytes(dv) <= usize::MAX,
            num_words == total_words(dv.take(i as int)),
            num_bytes == total_bytes(dv.take(i as int)),
            num_chars == total_chars(dv.take(i as int)),
        decreases lines.len() - i,
    {
        let line = &lines[i];
        let line_word_count = crate::text::count_words(line.as_str());
        let line_byte_count = line.as_str().len();
        let line_char_count = line.as_str().unicode_len();
        proof {
            assert(dv.take(i + 1).drop_last() =~= dv.take(i as int));
            assert(dv.take(i + 1).last() == line@);
            lemma_total_bytes_take(dv, i + 1);
            lemma_total_order(dv.take(i + 1));
        }
        num_bytes = num_bytes + line_byte_count;
        num_chars = num_chars + line_char_count;
        num_words = num_words + line_word_count;
        i = i + 1;
    }
    proof {
        assert(dv.take(lines@.len() as int) =~= dv);
        lemma_total_order(dv);
    }
    FileInfo { num_lines: lines.len(), num_words, num_bytes, num_chars }
}

} // verus!
