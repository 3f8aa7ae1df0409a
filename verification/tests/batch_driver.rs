use textutils::batch::{run, BatchFile, BatchOutput};
use textutils::format::Selection;

fn ok_file(name: &str, raw: &[&str]) -> BatchFile {
    BatchFile {
        name: name.to_string(),
        content: Ok(raw.iter().map(|s| s.to_string()).collect()),
    }
}

fn bad_file(name: &str, cause: &str) -> BatchFile {
    BatchFile { name: name.to_string(), content: Err(cause.to_string()) }
}

fn default_selection() -> Selection {
    Selection { lines: false, words: false, bytes: false, chars: false }
}

#[test]
fn totals_row_sums_all_files() {
    let files = vec![ok_file("f1", &["x\n", "y\n"]), ok_file("f2", &["a\n", "b\n", "c\n"])];
    let BatchOutput { rows, errors } = run(&files, default_selection());
    assert!(errors.is_empty());
    assert_eq!(rows.len(), 3);
    assert_eq!(rows[0], "       2       2       4 f1");
    assert_eq!(rows[1], "       3       3       6 f2");
    assert_eq!(rows[2], "       5       5      10 total");
}

#[test]
fn single_file_has_no_suffix_and_no_totals() {
    let files = vec![ok_file("f1", &["x\n", "y\n"])];
    let out = run(&files, default_selection());
    assert_eq!(out.rows.len(), 1);
    assert_eq!(out.rows[0], "       2       2       4");
}

#[test]
fn failed_file_is_reported_and_skipped() {
    let files = vec![
        ok_file("f1", &["x\n", "y\n"]),
        bad_file("missing", "No such file or directory (os error 2)"),
        ok_file("f2", &["a\n", "b\n", "c\n"]),
    ];
    let out = run(&files, default_selection());
    assert_eq!(out.errors.len(), 1);
    assert_eq!(out.errors[0], "missing: No such file or directory (os error 2)");
    assert_eq!(out.rows.len(), 3);
    assert_eq!(out.rows[0], "       2       2       4 f1");
    assert_eq!(out.rows[1], "       3       3       6 f2");
    assert_eq!(out.rows[2], "       5       5      10 total");
}

#[test]
fn stdin_identifier_gets_no_suffix() {
    let files = vec![ok_file("-", &["x\n"]), ok_file("f2", &["a\n"])];
    let out = run(&files, default_selection());
    assert_eq!(out.rows[0], "       1       1       2");
    assert_eq!(out.rows[1], "       1       1       2 f2");
}

#[test]
fn explicit_selection_is_respected() {
    let files = vec![ok_file("f1", &["one two\n"])];
    let sel = Selection { lines: true, words: false, bytes: false, chars: false };
    let out = run(&files, sel);
    assert_eq!(out.rows[0], "       1");

    let chars_only = Selection { lines: false, words: false, bytes: false, chars: true };
    let out = run(&files, chars_only);
    assert_eq!(out.rows[0], "       8");
}
