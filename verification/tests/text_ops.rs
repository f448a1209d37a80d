use duat_treesitter::TextBuf;
use duat_treesitter::text::col_after;

fn buf(s: &str) -> TextBuf {
    TextBuf::new(s.as_bytes().to_vec())
}

#[test]
fn line_count_counts_newlines_plus_one() {
    assert_eq!(buf("ab\ncd\n").line_count(), 3);
    assert_eq!(buf("").line_count(), 1);
    assert_eq!(buf("abc").line_count(), 1);
}

#[test]
fn line_range_spans_through_the_newline() {
    let t = buf("ab\ncd\n");
    assert_eq!(t.line_range(0), (0, 3));
    assert_eq!(t.line_range(1), (3, 6));
    assert_eq!(t.line_range(2), (6, 6));
}

#[test]
fn first_non_ws_skips_leading_blanks() {
    let t = buf("  \tx y\n");
    assert_eq!(t.first_non_ws(0, 7), Some(3));
    assert_eq!(t.first_non_ws(4, 5), None);
}

#[test]
fn last_non_ws_skips_trailing_blanks() {
    let t = buf("  x y \n");
    assert_eq!(t.last_non_ws(0, 7), Some(4));
    assert_eq!(t.last_non_ws(5, 7), None);
}

#[test]
fn col_of_counts_bytes_since_the_last_newline() {
    let t = buf("ab\ncd\n");
    assert_eq!(t.col_of(0), 0);
    assert_eq!(t.col_of(2), 2);
    assert_eq!(t.col_of(4), 1);
    assert_eq!(t.col_of(6), 0);
}

#[test]
fn rest_blank_stops_at_the_newline() {
    let t = buf("ab  \ncd");
    assert!(t.rest_blank(2));
    assert!(!t.rest_blank(1));
    assert!(t.rest_blank(7));
}

#[test]
fn col_after_same_line_advances_by_length() {
    let s = "abc".as_bytes().to_vec();
    assert_eq!(col_after(2, 2, 5, &s), 8);
}

#[test]
fn col_after_other_line_counts_from_last_newline() {
    let s = "ab\ncde".as_bytes().to_vec();
    assert_eq!(col_after(3, 2, 5, &s), 3);
}
