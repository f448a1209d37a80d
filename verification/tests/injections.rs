use duat_treesitter::injection::{
    reconcile, resolve_injections, ChildAction, ChildInfo, InjCapture, InjMatch, Resolved,
};
use duat_treesitter::query::QueryProp;
use duat_treesitter::TextBuf;

fn v(s: &str) -> Vec<u8> {
    s.as_bytes().to_vec()
}

fn resolved(start: usize, end: usize, lang: &str) -> Resolved {
    Resolved { start, end, row: 0, col: 0, lang: v(lang), query_override: None }
}

fn child(start: usize, end: usize, lang: &str) -> ChildInfo {
    ChildInfo { start, end, lang: v(lang) }
}

#[test]
fn language_switch_replaces_the_sub_tree() {
    let children = vec![child(20, 40, "alpha")];
    let res = vec![resolved(20, 40, "beta")];
    let (actions, adds) = reconcile(&children, &res, 0, 100);
    assert_eq!(actions, vec![ChildAction::Replace]);
    assert_eq!(adds, vec![0]);
}

#[test]
fn same_language_keeps_the_sub_tree() {
    let children = vec![child(20, 40, "alpha")];
    let res = vec![resolved(20, 45, "alpha")];
    let (actions, adds) = reconcile(&children, &res, 0, 100);
    assert_eq!(actions, vec![ChildAction::KeepRecurse]);
    assert!(adds.is_empty());
}

#[test]
fn unresolved_sub_tree_inside_the_window_is_removed() {
    let children = vec![child(20, 40, "alpha")];
    let res: Vec<Resolved> = Vec::new();
    let (actions, adds) = reconcile(&children, &res, 0, 100);
    assert_eq!(actions, vec![ChildAction::Remove]);
    assert!(adds.is_empty());
}

#[test]
fn unresolved_sub_tree_outside_the_window_is_kept() {
    let children = vec![child(20, 40, "alpha")];
    let res: Vec<Resolved> = Vec::new();
    let (actions, adds) = reconcile(&children, &res, 30, 100);
    assert_eq!(actions, vec![ChildAction::KeepOutside]);
    assert!(adds.is_empty());
}

#[test]
fn reconciling_the_reconciled_state_changes_nothing() {
    // one kept sub-tree, one removed, one addition
    let children = vec![child(20, 40, "alpha"), child(50, 60, "beta")];
    let res = vec![resolved(20, 40, "alpha"), resolved(45, 48, "gamma")];
    let (actions, adds) = reconcile(&children, &res, 0, 100);
    assert_eq!(actions, vec![ChildAction::KeepRecurse, ChildAction::Remove]);
    assert_eq!(adds, vec![1]);
    // apply: keep child 0, drop child 1, add resolved 1
    let children2 = vec![child(20, 40, "alpha"), child(45, 48, "gamma")];
    let (actions2, adds2) = reconcile(&children2, &res, 0, 100);
    assert_eq!(actions2, vec![ChildAction::KeepRecurse, ChildAction::KeepRecurse]);
    assert!(adds2.is_empty());
}

#[test]
fn injections_resolve_from_a_pattern_property() {
    // capture 0 is the injection content; the language is a static
    // pattern property
    let names = vec![v("injection.content"), v("injection.language")];
    let matches = vec![InjMatch {
        pattern: 0,
        captures: vec![InjCapture { capture: 0, start_byte: 30, end_byte: 40, start_row: 2, start_col: 1 }],
    }];
    let props = vec![vec![QueryProp { key: v("injection.language"), value: Some(v("lua")) }]];
    let text = TextBuf::new(vec![97; 50]);
    let r = resolve_injections(&matches, &names, &props, &text);
    assert_eq!(r.len(), 1);
    assert_eq!((r[0].start, r[0].end), (30, 40));
    assert_eq!((r[0].row, r[0].col), (2, 1));
    assert_eq!(r[0].lang, v("lua"));
}

#[test]
fn injections_resolve_from_a_language_capture() {
    // no property: the language is read from the buffer under the
    // injection.language capture
    let names = vec![v("injection.content"), v("injection.language")];
    let text = TextBuf::new("....lua[content here]......".as_bytes().to_vec());
    let matches = vec![InjMatch {
        pattern: 0,
        captures: vec![
            InjCapture { capture: 1, start_byte: 4, end_byte: 7, start_row: 0, start_col: 4 },
            InjCapture { capture: 0, start_byte: 8, end_byte: 20, start_row: 0, start_col: 8 },
        ],
    }];
    let props = vec![Vec::new()];
    let r = resolve_injections(&matches, &names, &props, &text);
    assert_eq!(r.len(), 1);
    assert_eq!(r[0].lang, v("lua"));
    assert_eq!((r[0].start, r[0].end), (8, 20));
}

#[test]
fn first_match_wins_a_start_offset_and_entries_sort() {
    let names = vec![v("injection.content")];
    let text = TextBuf::new(vec![97; 100]);
    let m = |s: usize, e: usize| InjMatch {
        pattern: 0,
        captures: vec![InjCapture { capture: 0, start_byte: s, end_byte: e, start_row: 0, start_col: s }],
    };
    let matches = vec![m(50, 60), m(10, 20), m(50, 99)];
    let props = vec![vec![QueryProp { key: v("injection.language"), value: Some(v("lua")) }]];
    let r = resolve_injections(&matches, &names, &props, &text);
    assert_eq!(r.len(), 2);
    assert_eq!((r[0].start, r[0].end), (10, 20));
    // the first discovery of start 50 won
    assert_eq!((r[1].start, r[1].end), (50, 60));
}
