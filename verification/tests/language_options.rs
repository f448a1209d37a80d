use duat_treesitter::lang::{
    crate_name, lib_file_name, merge_queries, parse_inherits, split_commas, LanguageOptions,
};

fn v(s: &str) -> Vec<u8> {
    s.as_bytes().to_vec()
}

#[test]
fn crate_name_writes_underscores_as_dashes() {
    assert_eq!(crate_name(&v("foo_bar")), v("foo-bar"));
    assert_eq!(crate_name(&v("lua")), v("lua"));
}

#[test]
fn lib_file_name_is_the_dylib_of_the_crate() {
    assert_eq!(lib_file_name(&v("foo-bar")), v("libfoo_bar.so"));
    assert_eq!(lib_file_name(&v("lua")), v("liblua.so"));
}

#[test]
fn pair_uses_the_conventional_language_symbol() {
    let (lang, opts) = LanguageOptions::pair(&v("foo_bar"), &v("https://example.invalid/g"), vec![]);
    assert_eq!(lang, v("foo_bar"));
    assert_eq!(opts.crate_name, v("foo-bar"));
    assert_eq!(opts.symbols.len(), 1);
    assert_eq!(opts.symbols[0].0, v("LANGUAGE"));
    assert!(!opts.symbols[0].1);
}

#[test]
fn pairs_with_symbol_keeps_the_given_symbols() {
    let syms = vec![(v("LANGUAGE_FOO"), true)];
    let (lang, opts) =
        LanguageOptions::pairs_with_symbol(&v("foo"), &v("g"), syms, vec![v("someone")]);
    assert_eq!(lang, v("foo"));
    assert_eq!(opts.symbols.len(), 1);
    assert_eq!(opts.symbols[0].0, v("LANGUAGE_FOO"));
    assert!(opts.symbols[0].1);
}

#[test]
fn pairs_with_symbol_and_crate_keeps_the_crate_name() {
    let (_, opts) = LanguageOptions::pairs_with_symbol_and_crate(
        &v("foo"),
        &v("g"),
        vec![(v("LANGUAGE"), false)],
        v("other-crate"),
        vec![],
    );
    assert_eq!(opts.crate_name, v("other-crate"));
}

#[test]
fn split_commas_keeps_empty_pieces() {
    let r = split_commas(&v("a,bc,"));
    assert_eq!(r, vec![v("a"), v("bc"), v("")]);
    assert_eq!(split_commas(&v("")), vec![v("")]);
}

#[test]
fn parse_inherits_reads_the_first_line_marker() {
    let r = parse_inherits(&v("; inherits: c,cpp\n(node) @x"));
    assert_eq!(r, Some(vec![v("c"), v("cpp")]));
    assert_eq!(parse_inherits(&v("(node) @x")), None);
}

#[test]
fn merge_queries_prepends_the_inherited_text() {
    assert_eq!(merge_queries(&v("(a) @x"), &v("(b) @y")), v("(a) @x\n(b) @y"));
}
