use duat_treesitter::bytes::{
    bytes_eq, clone_bytes, contains_bytes, parse_usize, slice_of, starts_with, suffix_from,
};

fn v(s: &str) -> Vec<u8> {
    s.as_bytes().to_vec()
}

#[test]
fn bytes_eq_compares_content() {
    assert!(bytes_eq(&v("abc"), &v("abc")));
    assert!(!bytes_eq(&v("abc"), &v("abd")));
    assert!(!bytes_eq(&v("abc"), &v("ab")));
}

#[test]
fn starts_with_checks_the_prefix() {
    assert!(starts_with(&v("indent.begin"), &v("indent.")));
    assert!(!starts_with(&v("inden"), &v("indent.")));
    assert!(!starts_with(&v("xndent.begin"), &v("indent.")));
}

#[test]
fn contains_bytes_finds_a_run_anywhere() {
    assert!(contains_bytes(&v("line_comment"), &v("comment")));
    assert!(contains_bytes(&v("comment"), &v("comment")));
    assert!(!contains_bytes(&v("commen"), &v("comment")));
    assert!(contains_bytes(&v("anything"), &v("")));
}

#[test]
fn parse_usize_reads_decimal_digits() {
    assert_eq!(parse_usize(&v("0")), Some(0));
    assert_eq!(parse_usize(&v("123")), Some(123));
    assert_eq!(parse_usize(&v("")), None);
    assert_eq!(parse_usize(&v("12a")), None);
    assert_eq!(parse_usize(&v("99999999999999999999999999")), None);
}

#[test]
fn clone_bytes_copies_content() {
    let a = v("xyz");
    assert_eq!(clone_bytes(&a), a);
}

#[test]
fn slice_and_suffix_copy_ranges() {
    let a = v("abcdef");
    assert_eq!(slice_of(&a, 1, 4), v("bcd"));
    assert_eq!(suffix_from(&a, 4), v("ef"));
}
