//! Splitting whole text into raw lines.
//!
//! A line ends just after each `\n`; text after the last `\n` forms a
//! final unterminated line. Each line keeps its terminator bytes, so
//! concatenating the lines gives back the original text.

use vstd::prelude::*;
use vstd::string::{StrSliceExecFns, StringExecFns};

verus! {

/// Length of the first line of `text`: everything up to and including
/// the first `\n`, or all of `text` when it holds none.
pub open spec fn first_line_len(text: Seq<char>) -> nat
    decreases text.len(),
{
    if text.len() == 0 {
        0
    } else if text[0] == '\n' {
        1
    } else {
        1 + first_line_len(text.drop_first())
    }
}

/// The first line is non-empty, within bounds, holds no `\n` before
/// its last position, and ends with `\n` unless it is all of `text`.
pub proof fn lemma_first_line_shape(text: Seq<char>)
    requires
        text.len() > 0,
    ensures
        1 <= first_line_len(text) <= text.len(),
        forall|i: int| 0 <= i < first_line_len(text) - 1 ==> text[i] != '\n',
        text[first_line_len(text) - 1] == '\n' || first_line_len(text) == text.len(),
    decreases text.len(),
{
    if text[0] == '\n' {
        assert(first_line_len(text) == 1);
    } else if text.len() == 1 {
        assert(first_line_len(text.drop_first()) == 0);
        assert(first_line_len(text) == 1);
    } else {
        let tail = text.drop_first();
        lemma_first_line_shape(tail);
        assert(first_line_len(text) == 1 + first_line_len(tail));
        assert forall|i: int| 0 <= i < first_line_len(text) - 1 implies text[i] != '\n' by {
            if i >= 1 {
                assert(text[i] == tail[i - 1]);
            }
        }
        assert(text[first_line_len(text) - 1] == tail[first_line_len(tail) - 1]);
    }
}

/// `text` split into raw lines, each line ending just after a `\n`,
/// with any text after the last `\n` kept as a final unterminated line.
pub open spec fn split_lines_spec(text: Seq<char>) -> Seq<Seq<char>>
    decreases text.len(),
    via split_lines_spec_decreases
{
    if text.len() == 0 {
        Seq::empty()
    } else {
        seq![text.take(first_line_len(text) as int)] + split_lines_spec(
            text.skip(first_line_len(text) as int),
        )
    }
}

#[via_fn]
proof fn split_lines_spec_decreases(text: Seq<char>) {
    if text.len() > 0 {
        lemma_first_line_shape(text);
    }
}

/// Number of `\n` characters in `text`.
pub open spec fn newline_count(text: Seq<char>) -> nat
    decreases text.len(),
{
    if text.len() == 0 {
        0
    } else {
        newline_count(text.drop_last()) + if text.last() == '\n' {
            1nat
        } else {
            0nat
        }
    }
}

/// Newline counting distributes over concatenation.
pub proof fn lemma_newline_count_concat(a: Seq<char>, b: Seq<char>)
    ensures
        newline_count(a + b) == newline_count(a) + newline_count(b),
    decreases b.len(),
{
    if b.len() == 0 {
        assert(a + b =~= a);
    } else {
        assert((a + b).drop_last() =~= a + b.drop_last());
        assert((a + b).last() == b.last());
        lemma_newline_count_concat(a, b.drop_last());
    }
}

/// Text without `\n` characters counts no newlines.
pub proof fn lemma_newline_count_none(s: Seq<char>)
    requires
        forall|i: int| 0 <= i < s.len() ==> s[i] != '\n',
    ensures
        newline_count(s) == 0,
    decreases s.len(),
{
    if s.len() > 0 {
        lemma_newline_count_none(s.drop_last());
    }
}

/// The first line of `a + b` is the first line of `a`, provided `a`
/// ends with a newline.
proof fn lemma_first_line_concat(a: Seq<char>, b: Seq<char>)
    requires
        a.len() > 0,
        a.last() == '\n',
    ensures
        first_line_len(a + b) == first_line_len(a),
    decreases a.len(),
{
    if a[0] != '\n' {
        assert(a.len() >= 2);
        assert((a + b).drop_first() =~= a.drop_first() + b);
        assert(a.drop_first().last() == '\n');
        lemma_first_line_concat(a.drop_first(), b);
    } else {
        assert((a + b)[0] == '\n');
    }
}

/// Splitting distributes over concatenation at a line boundary: when
/// `a` is empty or ends with `\n`, the lines of `a + b` are the lines
/// of `a` followed by the lines of `b`.
pub proof fn lemma_split_concat(a: Seq<char>, b: Seq<char>)
    requires
        a.len() == 0 || a.last() == '\n',
    ensures
        split_lines_spec(a + b) == split_lines_spec(a) + split_lines_spec(b),
    decreases a.len(),
{
    if a.len() == 0 {
        assert(a + b =~= b);
        assert(split_lines_spec(a) + split_lines_spec(b) =~= split_lines_spec(b));
    } else {
        let k = first_line_len(a) as int;
        lemma_first_line_shape(a);
        lemma_first_line_concat(a, b);
        assert((a + b).take(k) =~= a.take(k));
        assert((a + b).skip(k) =~= a.skip(k) + b);
        if a.skip(k).len() > 0 {
            assert(a.skip(k).last() == a.last());
        }
        lemma_split_concat(a.skip(k), b);
        assert(split_lines_spec(a + b) =~= split_lines_spec(a) + split_lines_spec(b));
    }
}

/// A non-empty piece with no `\n` before its final position is a
/// single line.
pub proof fn lemma_split_single(l: Seq<char>)
    requires
        l.len() > 0,
        forall|i: int| 0 <= i < l.len() - 1 ==> l[i] != '\n',
    ensures
        split_lines_spec(l) == seq![l],
{
    lemma_first_line_shape(l);
    let k = first_line_len(l) as int;
    assert(k == l.len()) by {
        if k < l.len() {
            assert(l[k - 1] == '\n');
        }
    }
    assert(l.take(k) =~= l);
    assert(l.skip(k) =~= Seq::<char>::empty());
    assert(split_lines_spec(Seq::<char>::empty()) =~= Seq::<Seq<char>>::empty());
    assert(split_lines_spec(l) =~= seq![l]);
}

/// The line count law: text with `N` newline characters splits into
/// `N` lines when it ends with a terminator (or is empty), and into
/// `N + 1` lines when a final unterminated line remains.
pub proof fn lemma_split_line_count(text: Seq<char>)
    ensures
        split_lines_spec(text).len() == newline_count(text) + if text.len() > 0 && text.last()
            != '\n' {
            1nat
        } else {
            0nat
        },
    decreases text.len(),
{
    if text.len() > 0 {
        let k = first_line_len(text) as int;
        lemma_first_line_shape(text);
        let head = text.take(k);
        let rest = text.skip(k);
        assert(text =~= head + rest);
        lemma_newline_count_concat(head, rest);
        assert(head.drop_last() =~= text.take(k - 1));
        lemma_newline_count_none(head.drop_last());
        lemma_split_line_count(rest);
        if k < text.len() {
            assert(text[k - 1] == '\n');
            assert(rest.last() == text.last());
        } else {
            assert(rest.len() == 0);
            assert(head.last() == text.last());
        }
    }
}

/// The split is lossless: concatenating the split lines in order gives
/// back the original text.
pub proof fn lemma_split_join(text: Seq<char>)
    ensures
        split_lines_spec(text).flatten() == text,
    decreases text.len(),
{
    if text.len() == 0 {
        assert(split_lines_spec(text).flatten() =~= text);
    } else {
        lemma_first_line_shape(text);
        let k = first_line_len(text) as int;
        let s = split_lines_spec(text);
        lemma_split_join(text.skip(k));
        assert(s.first() == text.take(k));
        assert(s.drop_first() =~= split_lines_spec(text.skip(k)));
        assert(s.flatten() == s.first() + s.drop_first().flatten());
        assert(text.take(k) + text.skip(k) =~= text);
    }
}

/// Splits whole text into its raw lines, terminators kept.
pub fn split_lines(text: &str) -> (lines: Vec<String>)
    ensures
        lines.deep_view() == split_lines_spec(text@),
{
    let n = text.unicode_len();
    let mut lines: Vec<String> = Vec::new();
    let mut start: usize = 0;
    let mut i: usize = 0;
    while i < n
        invariant
            n == text@.len(),
            start <= i <= n,
            lines.deep_view() == split_lines_spec(text@.take(start as int)),
            start == 0 || text@[start as int - 1] == '\n',
            forall|j: int| start <= j < i ==> text@[j] != '\n',
        decreases n - i,
    {
        let c = text.get_char(i);
        if c == '\n' {
            let part = text.substring_char(start, i + 1);
            lines.push(String::from_str(part));
            proof {
                let a = text@.take(start as int);
                let piece = text@.subrange(start as int, i + 1);
                assert(text@.take(i + 1) =~= a + piece);
                lemma_split_concat(a, piece);
                lemma_split_single(piece);
                assert(lines.deep_view() =~~= split_lines_spec(text@.take(i + 1)));
            }
            start = i + 1;
        }
        i = i + 1;
    }
    if start < n {
        let part = text.substring_char(start, n);
        lines.push(String::from_str(part));
        proof {
            let a = text@.take(start as int);
            let piece = text@.subrange(start as int, n as int);
            assert(text@ =~= a + piece);
            lemma_split_concat(a, piece);
            lemma_split_single(piece);
            assert(lines.deep_view() =~~= split_lines_spec(text@));
        }
    } else {
        proof {
            assert(text@.take(start as int) =~= text@);
        }
    }
    lines
}

} // verus!
