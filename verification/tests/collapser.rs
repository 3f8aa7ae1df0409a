use textutils::collapse::{collapse, collapse_runs};

fn lines(raw: &[&str]) -> Vec<String> {
    raw.iter().map(|s| s.to_string()).collect()
}

#[test]
fn only_adjacent_duplicates_merge() {
    let input = lines(&["a\n", "a\n", "b\n", "a\n"]);
    let runs = collapse_runs(&input);
    assert_eq!(runs.len(), 3);
    assert_eq!((runs[0].count, runs[0].text.as_str()), (2, "a\n"));
    assert_eq!((runs[1].count, runs[1].text.as_str()), (1, "b\n"));
    assert_eq!((runs[2].count, runs[2].text.as_str()), (1, "a\n"));
}

#[test]
fn counts_are_four_wide_with_one_space() {
    let input = lines(&["a\n", "a\n", "b\n", "a\n"]);
    let out = collapse(&input, true);
    assert_eq!(out, lines(&["   2 a\n", "   1 b\n", "   1 a\n"]));
}

#[test]
fn without_counts_first_line_of_each_run_is_kept() {
    let input = lines(&["a\n", "a\n", "b\n", "a\n"]);
    let out = collapse(&input, false);
    assert_eq!(out, lines(&["a\n", "b\n", "a\n"]));
}

#[test]
fn collapsing_twice_changes_nothing() {
    let input = lines(&["x\n", "x\n", "y\n", "y\n", "x\n"]);
    let once = collapse(&input, false);
    let twice = collapse(&once, false);
    assert_eq!(twice, once);
}

#[test]
fn terminator_is_ignored_in_comparisons() {
    let input = lines(&["x\r\n", "x\n", "x"]);
    let runs = collapse_runs(&input);
    assert_eq!(runs.len(), 1);
    assert_eq!(runs[0].count, 3);
    assert_eq!(runs[0].text.as_str(), "x\r\n");
}

#[test]
fn final_unterminated_line_still_counts() {
    let input = lines(&["a\n", "a"]);
    let out = collapse(&input, true);
    assert_eq!(out, lines(&["   2 a\n"]));
}

#[test]
fn empty_source_emits_nothing() {
    let input: Vec<String> = Vec::new();
    assert!(collapse(&input, true).is_empty());
    assert!(collapse(&input, false).is_empty());
}

#[test]
fn large_runs_widen_the_count_field() {
    let input: Vec<String> = std::iter::repeat("z\n".to_string()).take(12345).collect();
    let out = collapse(&input, true);
    assert_eq!(out, lines(&["12345 z\n"]));
}
