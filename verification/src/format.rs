//! Decimal rendering and the fixed-width row format of the counter.
//!
//! Each selected metric is rendered right-aligned in an 8-wide field and
//! the fields are concatenated in the fixed order lines, words, bytes,
//! characters; an unselected metric contributes nothing.

use vstd::prelude::*;
use vstd::string::{StrSliceExecFns, StringExecFns};

use crate::metrics::FileInfo;

verus! {

/// The decimal digit character for `d`.
pub open spec fn digit_char(d: nat) -> char {
    if d == 0 {
        '0'
    } else if d == 1 {
        '1'
    } else if d == 2 {
        '2'
    } else if d == 3 {
        '3'
    } else if d == 4 {
        '4'
    } else if d == 5 {
        '5'
    } else if d == 6 {
        '6'
    } else if d == 7 {
        '7'
    } else if d == 8 {
        '8'
    } else {
        '9'
    }
}

/// Decimal representation of `n`, most significant digit first, with no
/// leading zeros (a single zero digit for zero).
pub open spec fn dec_str(n: nat) -> Seq<char>
    decreases n,
{
    if n < 10 {
        seq![digit_char(n)]
    } else {
        dec_str(n / 10) + seq![digit_char(n % 10)]
    }
}

/// `n` space characters.
pub open spec fn spaces(n: nat) -> Seq<char>
    decreases n,
{
    if n == 0 {
        Seq::empty()
    } else {
        spaces((n - 1) as nat) + seq![' ']
    }
}

/// `s` right-aligned in a field of `w` characters; a value that is
/// already wider is kept unpadded.
pub open spec fn pad_left(s: Seq<char>, w: nat) -> Seq<char> {
    if s.len() >= w {
        s
    } else {
        spaces((w - s.len()) as nat) + s
    }
}

/// One metric field: the value right-aligned in an 8-wide field when
/// selected, nothing at all when not.
pub open spec fn field_str(value: nat, show: bool) -> Seq<char> {
    if show {
        pad_left(dec_str(value), 8)
    } else {
        Seq::empty()
    }
}

/// The selected-metric fields for the four metric values, concatenated
/// in the fixed order lines, words, bytes, characters.
pub open spec fn counts_row_vals(
    lines: nat,
    words: nat,
    bytes: nat,
    chars: nat,
    sel: Selection,
) -> Seq<char> {
    field_str(lines, sel.lines) + field_str(words, sel.words) + field_str(bytes, sel.bytes)
        + field_str(chars, sel.chars)
}

/// The selected-metric fields of one metrics record, concatenated in
/// the fixed order lines, words, bytes, characters.
pub open spec fn counts_row(info: FileInfo, sel: Selection) -> Seq<char> {
    counts_row_vals(
        info.num_lines as nat,
        info.num_words as nat,
        info.num_bytes as nat,
        info.num_chars as nat,
        sel,
    )
}

/// Which metrics a counter run was asked to show.
#[derive(Clone, Copy, Debug, PartialEq, Eq, Structural)]
pub struct Selection {
    pub lines: bool,
    pub words: bool,
    pub bytes: bool,
    pub chars: bool,
}

/// The selection actually rendered: when no metric was requested, the
/// default of lines, words and bytes applies; otherwise the request is
/// kept as given.
pub open spec fn spec_effective_selection(sel: Selection) -> Selection {
    if !sel.lines && !sel.words && !sel.bytes && !sel.chars {
        Selection { lines: true, words: true, bytes: true, chars: false }
    } else {
        sel
    }
}

/// Applies the default of lines, words and bytes to an empty request.
pub fn effective_selection(sel: Selection) -> (r: Selection)
    ensures
        r == spec_effective_selection(sel),
{
    if !sel.lines && !sel.words && !sel.bytes && !sel.chars {
        Selection { lines: true, words: true, bytes: true, chars: false }
    } else {
        sel
    }
}

/// The one-character string for decimal digit `d`.
fn digit_literal(d: u64) -> (s: &'static str)
    requires
        d < 10,
    ensures
        s@ == seq![digit_char(d as nat)],
{
    proof {
        reveal_strlit("0");
        reveal_strlit("1");
        reveal_strlit("2");
        reveal_strlit("3");
        reveal_strlit("4");
        reveal_strlit("5");
        reveal_strlit("6");
        reveal_strlit("7");
        reveal_strlit("8");
        reveal_strlit("9");
    }
    let s: &'static str = if d == 0 {
        "0"
    } else if d == 1 {
        "1"
    } else if d == 2 {
        "2"
    } else if d == 3 {
        "3"
    } else if d == 4 {
        "4"
    } else if d == 5 {
        "5"
    } else if d == 6 {
        "6"
    } else if d == 7 {
        "7"
    } else if d == 8 {
        "8"
    } else {
        "9"
    };
    proof {
        assert(s@ =~= seq![digit_char(d as nat)]);
    }
    s
}

/// Renders `n` in decimal, most significant digit first.
pub fn to_decimal(n: u64) -> (s: String)
    ensures
        s@ == dec_str(n as nat),
    decreases n,
{
    if n < 10 {
        String::from_str(digit_literal(n))
    } else {
        let mut s = to_decimal(n / 10);
        s.append(digit_literal(n % 10));
        s
    }
}

/// Right-aligns `s` in a field of `width` characters.
pub fn pad_field(s: String, width: usize) -> (r: String)
    ensures
        r@ == pad_left(s@, width as nat),
{
    let len = s.unicode_len();
    if len >= width {
        s
    } else {
        let mut r = String::new();
        let mut k: usize = 0;
        while k < width - len
            invariant
                len < width,
                len == s@.len(),
                k <= width - len,
                r@ == spaces(k as nat),
            decreases width - len - k,
        {
            proof {
                reveal_strlit(" ");
            }
            r.append(" ");
            k = k + 1;
        }
        r.append(s.as_str());
        r
    }
}

/// Renders one metric value: right-aligned in an 8-wide field when
/// `show` is set, the empty string when not.
pub fn format_field(value: usize, show: bool) -> (r: String)
    ensures
        r@ == field_str(value as nat, show),
{
    if show {
        pad_field(to_decimal(value as u64), 8)
    } else {
        String::new()
    }
}

/// Renders the selected metrics of one record as one row, without any
/// filename suffix.
pub fn format_row(info: &FileInfo, sel: &Selection) -> (r: String)
    ensures
        r@ == counts_row(*info, *sel),
{
    let mut r = format_field(info.num_lines, sel.lines);
    let words = format_field(info.num_words, sel.words);
    let bytes = format_field(info.num_bytes, sel.bytes);
    let chars = format_field(info.num_chars, sel.chars);
    r.append(words.as_str());
    r.append(bytes.as_str());
    r.append(chars.as_str());
    r
}

} // verus!
