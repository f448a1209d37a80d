use duat_treesitter::priority::{capture_priorities, priority_of, PREFIX_COUNT};

fn v(s: &str) -> Vec<u8> {
    s.as_bytes().to_vec()
}

#[test]
fn priority_is_the_position_of_the_first_matching_prefix() {
    assert_eq!(priority_of(&v("markup.heading")), 0);
    assert_eq!(priority_of(&v("comment")), 1);
    assert_eq!(priority_of(&v("string")), 2);
    assert_eq!(priority_of(&v("diff.plus")), 3);
    assert_eq!(priority_of(&v("variable.builtin")), 4);
    assert_eq!(priority_of(&v("keyword")), 17);
    assert_eq!(priority_of(&v("punctuation.bracket")), 18);
}

#[test]
fn unmatched_names_get_the_maximum_priority() {
    assert_eq!(priority_of(&v("zzz")) as usize, PREFIX_COUNT);
    assert_eq!(priority_of(&v("")) as usize, PREFIX_COUNT);
}

#[test]
fn capture_priorities_maps_each_name() {
    let out = capture_priorities(&vec![v("keyword"), v("zzz"), v("type.builtin")]);
    assert_eq!(out, vec![17, PREFIX_COUNT as u8, 10]);
}
