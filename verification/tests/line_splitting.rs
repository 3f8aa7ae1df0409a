use textutils::lines::split_lines;

#[test]
fn lines_end_after_each_newline() {
    assert_eq!(split_lines("a\nb\n"), vec!["a\n", "b\n"]);
    assert_eq!(split_lines("a\r\nb\r\n"), vec!["a\r\n", "b\r\n"]);
}

#[test]
fn text_after_last_newline_is_a_line() {
    assert_eq!(split_lines("a\nb"), vec!["a\n", "b"]);
    assert_eq!(split_lines("b"), vec!["b"]);
}

#[test]
fn empty_text_has_no_lines() {
    assert!(split_lines("").is_empty());
}

#[test]
fn blank_lines_are_kept() {
    assert_eq!(split_lines("\n\n"), vec!["\n", "\n"]);
    assert_eq!(split_lines("a\n\nb\n"), vec!["a\n", "\n", "b\n"]);
}
