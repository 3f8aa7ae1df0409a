use textutils::format::{effective_selection, format_field, format_row, Selection};
use textutils::lines::split_lines;
use textutils::metrics::{count, FileInfo};

#[test]
fn test_count() {
    let text = "I don't want the world.\nI just want your half.\r\n";
    let info = count(&split_lines(text));
    let expected = FileInfo { num_lines: 2, num_words: 10, num_bytes: 48, num_chars: 48 };
    assert_eq!(info, expected);
}

#[test]
fn test_format_field() {
    assert_eq!(format_field(1, false), "");
    assert_eq!(format_field(3, true), "       3");
    assert_eq!(format_field(10, true), "      10");
}

#[test]
fn format_field_wider_than_field() {
    assert_eq!(format_field(123456789, true), "123456789");
    assert_eq!(format_field(0, true), "       0");
}

#[test]
fn words_split_on_whitespace_runs() {
    let info = count(&split_lines("a  b\tc\n"));
    assert_eq!(info.num_words, 3);
}

#[test]
fn lines_count_terminated_and_unterminated() {
    assert_eq!(count(&split_lines("one\ntwo\n")).num_lines, 2);
    assert_eq!(count(&split_lines("one\ntwo")).num_lines, 2);
    assert_eq!(count(&split_lines("")).num_lines, 0);
}

#[test]
fn bytes_at_least_chars() {
    let info = count(&split_lines("h\u{e9}llo\n"));
    assert_eq!(info.num_chars, 6);
    assert_eq!(info.num_bytes, 7);
    assert!(info.num_bytes >= info.num_chars);
}

#[test]
fn empty_selection_defaults_to_lines_words_bytes() {
    let none = Selection { lines: false, words: false, bytes: false, chars: false };
    let eff = effective_selection(none);
    assert_eq!(eff, Selection { lines: true, words: true, bytes: true, chars: false });

    let chars_only = Selection { lines: false, words: false, bytes: false, chars: true };
    assert_eq!(effective_selection(chars_only), chars_only);
}

#[test]
fn default_row_is_three_eight_wide_fields() {
    let text = "I don't want the world.\nI just want your half.\r\n";
    let info = count(&split_lines(text));
    let none = Selection { lines: false, words: false, bytes: false, chars: false };
    let row = format_row(&info, &effective_selection(none));
    assert_eq!(row, "       2      10      48");
}

#[test]
fn unselected_metrics_leave_no_separator() {
    let info = FileInfo { num_lines: 3, num_words: 4, num_bytes: 20, num_chars: 18 };
    let sel = Selection { lines: true, words: false, bytes: false, chars: true };
    assert_eq!(format_row(&info, &sel), "       3      18");
}
