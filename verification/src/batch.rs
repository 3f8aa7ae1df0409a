//! The batch driver of the counter: it walks the requested inputs in
//! order, turns each successfully read one into a metrics row, records
//! one error line per failed input, and appends an aggregate totals row
//! when more than one input was requested.
//!
//! Opening and reading happen outside; each input arrives here as its
//! name together with either its raw lines or the failure message of
//! the attempt to read it.

use vstd::prelude::*;
use vstd::string::{StrSliceExecFns, StringExecFns};

use crate::format::{
    counts_row_vals, effective_selection, format_row, spec_effective_selection, Selection,
};
use crate::metrics::{
    count, lemma_total_order, total_bytes, total_chars, total_words, FileInfo,
};

verus! {

/// One requested input: its identifier, and either the raw lines read
/// from it or the message of the failure that prevented reading.
pub struct BatchFile {
    pub name: String,
    pub content: Result<Vec<String>, String>,
}

/// Everything a batch run writes: the metrics rows (totals row
/// included) in output order, and one line per failed input in the
/// order the failures happened.
pub struct BatchOutput {
    pub rows: Vec<String>,
    pub errors: Vec<String>,
}

/// The raw lines of a successfully read input.
pub open spec fn file_lines(f: BatchFile) -> Seq<Seq<char>> {
    f.content->Ok_0.deep_view()
}

/// Total line count over the successfully read inputs.
pub open spec fn batch_lines(files: Seq<BatchFile>) -> nat
    decreases files.len(),
{
    if files.len() == 0 {
        0
    } else {
        batch_lines(files.drop_last()) + if files.last().content is Ok {
            file_lines(files.last()).len()
        } else {
            0nat
        }
    }
}

/// Total word count over the successfully read inputs.
pub open spec fn batch_words(files: Seq<BatchFile>) -> nat
    decreases files.len(),
{
    if files.len() == 0 {
        0
    } else {
        batch_words(files.drop_last()) + if files.last().content is Ok {
            total_words(file_lines(files.last()))
        } else {
            0nat
        }
    }
}

/// Total byte count over the successfully read inputs.
pub open spec fn batch_bytes(files: Seq<BatchFile>) -> nat
    decreases files.len(),
{
    if files.len() == 0 {
        0
    } else {
        batch_bytes(files.drop_last()) + if files.last().content is Ok {
            total_bytes(file_lines(files.last()))
        } else {
            0nat
        }
    }
}

/// Total character count over the successfully read inputs.
pub open spec fn batch_chars(files: Seq<BatchFile>) -> nat
    decreases files.len(),
{
    if files.len() == 0 {
        0
    } else {
        batch_chars(files.drop_last()) + if files.last().content is Ok {
            total_chars(file_lines(files.last()))
        } else {
            0nat
        }
    }
}

/// The filename suffix of a metrics row: a space and the name, except
/// for a single-input batch and for standard input's reserved name.
pub open spec fn name_suffix(name: Seq<char>, multiple: bool) -> Seq<char> {
    if multiple && name != seq!['-'] {
        seq![' '] + name
    } else {
        Seq::empty()
    }
}

/// The metrics row of one successfully read input.
pub open spec fn file_row(f: BatchFile, sel: Selection, multiple: bool) -> Seq<char> {
    counts_row_vals(
        file_lines(f).len(),
        total_words(file_lines(f)),
        total_bytes(file_lines(f)),
        total_chars(file_lines(f)),
        sel,
    ) + name_suffix(f.name@, multiple)
}

/// The metrics rows of the successfully read inputs, in input order.
pub open spec fn file_rows(files: Seq<BatchFile>, sel: Selection, multiple: bool) -> Seq<
    Seq<char>,
>
    decreases files.len(),
{
    if files.len() == 0 {
        Seq::empty()
    } else {
        file_rows(files.drop_last(), sel, multiple) + if files.last().content is Ok {
            seq![file_row(files.last(), sel, multiple)]
        } else {
            Seq::<Seq<char>>::empty()
        }
    }
}

/// The error lines of the failed inputs, in input order: the input's
/// name, a colon and a space, then the failure message.
pub open spec fn error_lines(files: Seq<BatchFile>) -> Seq<Seq<char>>
    decreases files.len(),
{
    if files.len() == 0 {
        Seq::empty()
    } else {
        error_lines(files.drop_last()) + if files.last().content is Err {
            seq![files.last().name@ + seq![':', ' '] + files.last().content->Err_0@]
        } else {
            Seq::<Seq<char>>::empty()
        }
    }
}

/// The aggregate row: the four batch totals followed by the label.
pub open spec fn totals_row(files: Seq<BatchFile>, sel: Selection) -> Seq<char> {
    counts_row_vals(
        batch_lines(files),
        batch_words(files),
        batch_bytes(files),
        batch_chars(files),
        sel,
    ) + seq![' ', 't', 'o', 't', 'a', 'l']
}

/// All metrics rows of a batch: one per successfully read input, and
/// the totals row exactly when more than one input was requested.
pub open spec fn batch_rows(files: Seq<BatchFile>, sel: Selection) -> Seq<Seq<char>> {
    file_rows(files, sel, files.len() > 1) + if files.len() > 1 {
        seq![totals_row(files, sel)]
    } else {
        Seq::<Seq<char>>::empty()
    }
}

/// Word totals stay within character totals, and character totals
/// within byte totals, over any batch.
pub proof fn lemma_batch_order(files: Seq<BatchFile>)
    ensures
        batch_words(files) <= batch_chars(files) <= batch_bytes(files),
    decreases files.len(),
{
    if files.len() > 0 {
        lemma_batch_order(files.drop_last());
        if files.last().content is Ok {
            lemma_total_order(file_lines(files.last()));
        }
    }
}

/// Batch totals over a prefix never exceed the totals of the whole
/// batch.
pub proof fn lemma_batch_take(files: Seq<BatchFile>, i: int)
    requires
        0 <= i <= files.len(),
    ensures
        batch_lines(files.take(i)) <= batch_lines(files),
        batch_bytes(files.take(i)) <= batch_bytes(files),
    decreases files.len(),
{
    if i < files.len() {
        assert(files.drop_last().take(i) =~= files.take(i));
        lemma_batch_take(files.drop_last(), i);
    } else {
        assert(files.take(i) =~= files);
    }
}

/// Whether `name` is the reserved identifier of standard input.
fn is_stdin_name(name: &str) -> (r: bool)
    ensures
        r == (name@ == seq!['-']),
{
    if name.unicode_len() == 1 {
        let r = name.get_char(0) == '-';
        proof {
            if r {
                assert(name@ =~= seq!['-']);
            }
        }
        r
    } else {
        false
    }
}

/// Builds one error line for a failed input.
fn error_line(name: &str, cause: &str) -> (r: String)
    ensures
        r@ == name@ + seq![':', ' '] + cause@,
{
    let mut r = String::from_str(name);
    proof {
        reveal_strlit(": ");
        assert(": "@ =~= seq![':', ' ']);
    }
    r.append(": ");
    r.append(cause);
    r
}

/// Runs a whole batch: per-input metrics rows with filename suffixes,
/// error lines for the inputs that could not be read, and the totals
/// row when more than one input was requested. The empty metric
/// request falls back to the default of lines, words and bytes.
pub fn run(files: &Vec<BatchFile>, sel: Selection) -> (out: BatchOutput)
    requires
        batch_lines(files@) <= usize::MAX,
        batch_bytes(files@) <= usize::MAX,
    ensures
        out.rows.deep_view() == batch_rows(files@, spec_effective_selection(sel)),
        out.errors.deep_view() == error_lines(files@),
{
    let eff = effective_selection(sel);
    let multiple = files.len() > 1;
    let mut rows: Vec<String> = Vec::new();
    let mut errors: Vec<String> = Vec::new();
    let mut totals = FileInfo { num_lines: 0, num_words: 0, num_bytes: 0, num_chars: 0 };
    let mut i: usize = 0;
    while i < files.len()
        invariant
            i <= files.len(),
            batch_lines(files@) <= usize::MAX,
            batch_bytes(files@) <= usize::MAX,
            eff == spec_effective_selection(sel),
            multiple == (files@.len() > 1),
            rows.deep_view() == file_rows(files@.take(i as int), eff, multiple),
            errors.deep_view() == error_lines(files@.take(i as int)),
            totals.num_lines == batch_lines(files@.take(i as int)),
            totals.num_words == batch_words(files@.take(i as int)),
            totals.num_bytes == batch_bytes(files@.take(i as int)),
            totals.num_chars == batch_chars(files@.take(i as int)),
        decreases files.len() - i,
    {
        let file = &files[i];
        proof {
            assert(files@.take(i + 1).drop_last() =~= files@.take(i as int));
            assert(files@.take(i + 1).last() == files@[i as int]);
            lemma_batch_take(files@, i + 1);
            lemma_batch_order(files@.take(i + 1));
        }
        match &file.content {
            Ok(file_content) => {
                proof {
                    assert(file.content->Ok_0 == *file_content);
                    crate::metrics::lemma_total_order(file_content.deep_view());
                }
                let info = count(file_content);
                let mut row = format_row(&info, &eff);
                if multiple && !is_stdin_name(file.name.as_str()) {
                    proof {
                        reveal_strlit(" ");
                        assert(" "@ =~= seq![' ']);
                    }
                    row.append(" ");
                    row.append(file.name.as_str());
                }
                rows.push(row);
                totals = FileInfo {
                    num_lines: totals.num_lines + info.num_lines,
                    num_words: totals.num_words + info.num_words,
                    num_bytes: totals.num_bytes + info.num_bytes,
                    num_chars: totals.num_chars + info.num_chars,
                };
                proof {
                    assert(rows.deep_view() =~~= file_rows(files@.take(i + 1), eff, multiple));
                    assert(errors.deep_view() =~~= error_lines(files@.take(i + 1)));
                }
            },
            Err(cause) => {
                let e = error_line(file.name.as_str(), cause.as_str());
                errors.push(e);
                proof {
                    assert(errors.deep_view() =~~= error_lines(files@.take(i + 1)));
                    assert(rows.deep_view() =~~= file_rows(files@.take(i + 1), eff, multiple));
                }
            },
        }
        i = i + 1;
    }
    proof {
        assert(files@.take(files@.len() as int) =~= files@);
    }
    if multiple {
        let mut total_row = format_row(&totals, &eff);
        proof {
            reveal_strlit(" total");
            assert(" total"@ =~= seq![' ', 't', 'o', 't', 'a', 'l']);
        }
        total_row.append(" total");
        rows.push(total_row);
    }
    proof {
        assert(rows.deep_view() =~~= batch_rows(files@, spec_effective_selection(sel)));
    }
    BatchOutput { rows, errors }
}

} // verus!
