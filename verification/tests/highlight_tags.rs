use duat_treesitter::highlight::{highlight_edits, HlCapture, Tag, TagEdit};

#[test]
fn edits_are_one_removal_then_one_insert_per_non_empty_capture() {
    let captures = vec![
        HlCapture { capture: 2, start_byte: 5, end_byte: 9 },
        HlCapture { capture: 0, start_byte: 7, end_byte: 7 },
        HlCapture { capture: 1, start_byte: 12, end_byte: 14 },
    ];
    let priorities = vec![3u8, 4, 1];
    let edits = highlight_edits(&captures, &priorities, 9, 4, 20);
    assert_eq!(edits.len(), 3);
    assert_eq!(edits[0], TagEdit::Remove { tagger: 9, start: 4, end: 20 });
    assert_eq!(
        edits[1],
        TagEdit::Insert(Tag { tagger: 9, start: 5, end: 9, capture: 2, priority: 1 })
    );
    assert_eq!(
        edits[2],
        TagEdit::Insert(Tag { tagger: 9, start: 12, end: 14, capture: 1, priority: 4 })
    );
}

#[test]
fn a_capture_index_without_a_priority_gets_zero() {
    let captures = vec![HlCapture { capture: 7, start_byte: 1, end_byte: 2 }];
    let priorities = vec![3u8];
    let edits = highlight_edits(&captures, &priorities, 1, 0, 10);
    assert_eq!(
        edits[1],
        TagEdit::Insert(Tag { tagger: 1, start: 1, end: 2, capture: 7, priority: 0 })
    );
}

#[test]
fn the_same_pass_twice_emits_the_same_edits() {
    let captures = vec![
        HlCapture { capture: 0, start_byte: 0, end_byte: 3 },
        HlCapture { capture: 1, start_byte: 3, end_byte: 6 },
    ];
    let priorities = vec![2u8, 5];
    let a = highlight_edits(&captures, &priorities, 4, 0, 6);
    let b = highlight_edits(&captures, &priorities, 4, 0, 6);
    assert_eq!(a, b);
}

fn apply(store: &mut Vec<Tag>, edits: &[TagEdit]) {
    for e in edits {
        match e {
            TagEdit::Remove { tagger, start, end } => {
                store.retain(|t| !(t.tagger == *tagger && *start <= t.start && t.start < *end));
            }
            TagEdit::Insert(tag) => {
                if !store.contains(tag) {
                    store.push(*tag);
                }
            }
        }
    }
}

fn sorted(mut v: Vec<Tag>) -> Vec<Tag> {
    v.sort_by_key(|t| (t.tagger, t.start, t.end, t.capture, t.priority));
    v
}

#[test]
fn applying_a_highlight_pass_twice_leaves_the_same_tag_store() {
    let captures = vec![
        HlCapture { capture: 0, start_byte: 6, end_byte: 9 },
        HlCapture { capture: 1, start_byte: 12, end_byte: 15 },
    ];
    let priorities = vec![2u8, 5];
    let edits = highlight_edits(&captures, &priorities, 4, 5, 20);
    // a store holding this namespace's stale tags, a tag outside the
    // window, and another namespace's tag inside it
    let start = vec![
        Tag { tagger: 4, start: 7, end: 8, capture: 9, priority: 9 },
        Tag { tagger: 4, start: 30, end: 33, capture: 0, priority: 2 },
        Tag { tagger: 7, start: 6, end: 9, capture: 1, priority: 1 },
    ];
    let mut once = start.clone();
    apply(&mut once, &edits);
    let mut twice = once.clone();
    apply(&mut twice, &edits);
    assert_eq!(sorted(once.clone()), sorted(twice));
    // the stale tag went, the outside and foreign tags stayed
    assert!(!once.contains(&Tag { tagger: 4, start: 7, end: 8, capture: 9, priority: 9 }));
    assert!(once.contains(&Tag { tagger: 4, start: 30, end: 33, capture: 0, priority: 2 }));
    assert!(once.contains(&Tag { tagger: 7, start: 6, end: 9, capture: 1, priority: 1 }));
}
