//! The adjacent-run collapser: consecutive lines that are equal once
//! their trailing terminator is stripped merge into one run, emitted as
//! the run's first line, optionally prefixed with the run length.

use vstd::prelude::*;
use vstd::string::{StrSliceExecFns, StringExecFns};

use crate::format::{dec_str, pad_left};

verus! {

/// `s` with one trailing line terminator removed: a final `\n`
/// (together with a `\r` just before it) or a final bare `\r`.
/// Everything before the terminator is kept byte-exact.
pub open spec fn trim_term(s: Seq<char>) -> Seq<char> {
    if s.len() > 0 && s.last() == '\n' {
        if s.len() > 1 && s[s.len() - 2] == '\r' {
            s.take(s.len() - 2)
        } else {
            s.take(s.len() - 1)
        }
    } else if s.len() > 0 && s.last() == '\r' {
        s.take(s.len() - 1)
    } else {
        s
    }
}

/// Number of characters of `s` that remain after trimming its
/// terminator; the trimmed line is exactly that prefix.
fn trimmed_len(s: &str) -> (k: usize)
    ensures
        k <= s@.len(),
        trim_term(s@) == s@.take(k as int),
{
    let n = s.unicode_len();
    let k = if n > 0 && s.get_char(n - 1) == '\n' {
        if n > 1 && s.get_char(n - 2) == '\r' {
            n - 2
        } else {
            n - 1
        }
    } else if n > 0 && s.get_char(n - 1) == '\r' {
        n - 1
    } else {
        n
    };
    proof {
        assert(trim_term(s@) =~= s@.take(k as int));
    }
    k
}

/// Whether two raw lines are adjacent-duplicates: equal once their
/// trailing terminators are stripped, byte-exact otherwise.
pub fn lines_match(a: &str, b: &str) -> (r: bool)
    ensures
        r == (trim_term(a@) == trim_term(b@)),
{
    let ka = trimmed_len(a);
    let kb = trimmed_len(b);
    if ka != kb {
        proof {
            assert(trim_term(a@).len() != trim_term(b@).len());
        }
        return false;
    }
    let mut i: usize = 0;
    while i < ka
        invariant
            ka == kb,
            ka <= a@.len(),
            kb <= b@.len(),
            trim_term(a@) == a@.take(ka as int),
            trim_term(b@) == b@.take(kb as int),
            i <= ka,
            forall|j: int| 0 <= j < i ==> a@[j] == b@[j],
        decreases ka - i,
    {
        if a.get_char(i) != b.get_char(i) {
            proof {
                assert(trim_term(a@)[i as int] != trim_term(b@)[i as int]);
            }
            return false;
        }
        i = i + 1;
    }
    proof {
        assert(trim_term(a@) =~= trim_term(b@));
    }
    true
}

/// The runs of a line source: each maximal block of adjacent lines that
/// are equal after terminator trimming becomes one pair of the block's
/// length and its first line, kept in input order.
pub open spec fn runs_spec(ls: Seq<Seq<char>>) -> Seq<(nat, Seq<char>)>
    decreases ls.len(),
{
    if ls.len() == 0 {
        Seq::empty()
    } else if ls.len() >= 2 && trim_term(ls.last()) == trim_term(ls[ls.len() - 2]) {
        let prev = runs_spec(ls.drop_last());
        prev.update(prev.len() - 1, ((prev.last().0 + 1) as nat, prev.last().1))
    } else {
        runs_spec(ls.drop_last()).push((1nat, ls.last()))
    }
}

/// Shape facts about [`runs_spec`]: a non-empty source has runs, every
/// run is non-empty, and the last run represents the last input line.
pub proof fn lemma_runs_basic(ls: Seq<Seq<char>>)
    ensures
        ls.len() == 0 ==> runs_spec(ls).len() == 0,
        ls.len() > 0 ==> runs_spec(ls).len() >= 1,
        ls.len() > 0 ==> trim_term(runs_spec(ls).last().1) == trim_term(ls.last()),
        forall|i: int| 0 <= i < runs_spec(ls).len() ==> (#[trigger] runs_spec(ls)[i]).0 >= 1,
    decreases ls.len(),
{
    if ls.len() > 0 {
        lemma_runs_basic(ls.drop_last());
    }
}

/// One run of adjacent-duplicate lines: how many there were, and the
/// first line of the run as it was read.
#[derive(Clone, Debug)]
pub struct Run {
    pub count: u64,
    pub text: String,
}

/// Collapses a line source into its runs.
pub fn collapse_runs(lines: &Vec<String>) -> (rs: Vec<Run>)
    ensures
        ({
            let runs = runs_spec(lines.deep_view());
            &&& rs@.len() == runs.len()
            &&& forall|i: int|
                0 <= i < runs.len() ==> (#[trigger] rs@[i]).count as nat == runs[i].0
                    && rs@[i].text@ == runs[i].1
        }),
{
    let ghost dv = lines.deep_view();
    let mut rs: Vec<Run> = Vec::new();
    let mut pending_text: String = String::new();
    let mut pending_count: u64 = 0;
    let mut i: usize = 0;
    while i < lines.len()
        invariant
            dv == lines.deep_view(),
            dv.len() == lines@.len(),
            i <= lines.len(),
            (pending_count == 0) <==> (i == 0),
            i == 0 ==> rs@.len() == 0,
            i > 0 ==> ({
                let runs = runs_spec(dv.take(i as int));
                &&& runs.len() == rs@.len() + 1
                &&& forall|j: int|
                    0 <= j < rs@.len() ==> (#[trigger] rs@[j]).count as nat == runs[j].0
                        && rs@[j].text@ == runs[j].1
                &&& pending_count as nat == runs.last().0
                &&& pending_text@ == runs.last().1
                &&& trim_term(pending_text@) == trim_term(dv[i as int - 1])
            }),
            pending_count as nat <= i,
        decreases lines.len() - i,
    {
        let line = &lines[i];
        proof {
            assert(dv[i as int] == lines@[i as int]@);
            assert(dv.take(i + 1).drop_last() =~= dv.take(i as int));
            assert(dv.take(i + 1).last() == dv[i as int]);
            lemma_runs_basic(dv.take(i as int));
        }
        if pending_count == 0 {
            pending_text = line.clone();
            pending_count = 1;
        } else if lines_match(line.as_str(), pending_text.as_str()) {
            pending_count = pending_count + 1;
        } else {
            rs.push(Run { count: pending_count, text: pending_text });
            pending_text = line.clone();
            pending_count = 1;
        }
        i = i + 1;
    }
    if pending_count > 0 {
        rs.push(Run { count: pending_count, text: pending_text });
    }
    proof {
        assert(dv.take(dv.len() as int) =~= dv);
    }
    rs
}

/// One emitted line of the collapser: when counts are requested, the
/// run length right-aligned in a 4-wide field, one space, then the line
/// text as read; otherwise the line text alone.
pub open spec fn run_line(count: nat, text: Seq<char>, show_counts: bool) -> Seq<char> {
    if show_counts {
        pad_left(dec_str(count), 4) + seq![' '] + text
    } else {
        text
    }
}

/// The full collapser output for a line source: one emitted line per
/// run, in order.
pub open spec fn collapse_spec(ls: Seq<Seq<char>>, show_counts: bool) -> Seq<Seq<char>> {
    Seq::new(runs_spec(ls).len(), |i: int| run_line(runs_spec(ls)[i].0, runs_spec(ls)[i].1, show_counts))
}

/// Renders one run as an output line.
pub fn format_run(count: u64, text: &str, show_counts: bool) -> (r: String)
    ensures
        r@ == run_line(count as nat, text@, show_counts),
{
    if show_counts {
        let mut r = crate::format::pad_field(crate::format::to_decimal(count), 4);
        proof {
            reveal_strlit(" ");
            assert(" "@ =~= seq![' ']);
        }
        r.append(" ");
        r.append(text);
        r
    } else {
        String::from_str(text)
    }
}

/// Collapses a line source and renders each run as the collapser
/// writes it.
pub fn collapse(lines: &Vec<String>, show_counts: bool) -> (out: Vec<String>)
    ensures
        out.deep_view() == collapse_spec(lines.deep_view(), show_counts),
{
    let rs = collapse_runs(lines);
    let mut out: Vec<String> = Vec::new();
    let mut i: usize = 0;
    while i < rs.len()
        invariant
            ({
                let runs = runs_spec(lines.deep_view());
                &&& rs@.len() == runs.len()
                &&& forall|j: int|
                    0 <= j < runs.len() ==> (#[trigger] rs@[j]).count as nat == runs[j].0
                        && rs@[j].text@ == runs[j].1
            }),
            i <= rs@.len(),
            out@.len() == i,
            forall|j: int|
                0 <= j < i ==> (#[trigger] out@[j])@ == collapse_spec(
                    lines.deep_view(),
                    show_counts,
                )[j],
        decreases rs.len() - i,
    {
        let row = format_run(rs[i].count, rs[i].text.as_str(), show_counts);
        out.push(row);
        i = i + 1;
    }
    proof {
        assert(out.deep_view() =~~= collapse_spec(lines.deep_view(), show_counts));
    }
    out
}

/// No two adjacent lines of `ls` are equal after terminator trimming.
pub open spec fn no_adjacent_duplicates(ls: Seq<Seq<char>>) -> bool {
    forall|i: int| 1 <= i < ls.len() ==> trim_term(#[trigger] ls[i]) != trim_term(ls[i - 1])
}

/// A source without adjacent duplicates collapses to one run per line.
pub proof fn lemma_runs_of_distinct(ls: Seq<Seq<char>>)
    requires
        no_adjacent_duplicates(ls),
    ensures
        runs_spec(ls) == Seq::new(ls.len(), |i: int| (1nat, ls[i])),
    decreases ls.len(),
{
    if ls.len() > 0 {
        assert(no_adjacent_duplicates(ls.drop_last())) by {
            assert(forall|i: int|
                1 <= i < ls.drop_last().len() ==> trim_term(#[trigger] ls.drop_last()[i])
                    != trim_term(ls.drop_last()[i - 1]));
        }
        lemma_runs_of_distinct(ls.drop_last());
        assert(runs_spec(ls) =~= Seq::new(ls.len(), |i: int| (1nat, ls[i])));
    }
}

/// The collapser's own output carries no adjacent duplicates: each
/// emitted line is the first line of a run, and neighbouring runs
/// differ by definition.
pub proof fn lemma_collapsed_distinct(ls: Seq<Seq<char>>)
    ensures
        no_adjacent_duplicates(collapse_spec(ls, false)),
    decreases ls.len(),
{
    if ls.len() > 0 {
        lemma_collapsed_distinct(ls.drop_last());
        lemma_runs_basic(ls.drop_last());
        if ls.len() >= 2 && trim_term(ls.last()) == trim_term(ls[ls.len() - 2]) {
            assert(collapse_spec(ls, false) =~= collapse_spec(ls.drop_last(), false));
        } else {
            assert(collapse_spec(ls, false) =~= collapse_spec(ls.drop_last(), false).push(
                ls.last(),
            ));
        }
    }
}

/// Collapsing is idempotent: running the collapser on its own
/// count-free output changes nothing, because adjacent duplicates are
/// already gone.
pub proof fn lemma_collapse_idempotent(ls: Seq<Seq<char>>)
    ensures
        collapse_spec(collapse_spec(ls, false), false) == collapse_spec(ls, false),
{
    let out = collapse_spec(ls, false);
    lemma_collapsed_distinct(ls);
    lemma_runs_of_distinct(out);
    assert(collapse_spec(out, false) =~= out);
}

} // verus!
