use duat_treesitter::syntax::{SynNode, SyntaxTree};
use duat_treesitter::ts::NativeState;
use duat_treesitter::{BufPoint, Change, Moment, TsParser};

fn pt(byte: usize, line: usize, col: usize) -> BufPoint {
    BufPoint { byte, line, col }
}

fn tiny_tree(sb: usize, eb: usize) -> SyntaxTree {
    SyntaxTree {
        nodes: vec![SynNode {
            start_byte: sb,
            end_byte: eb,
            start_row: 0,
            start_col: 0,
            end_row: 0,
            end_col: 0,
            parent: None,
            kind: Vec::new(),
            is_error: false,
        }],
    }
}

fn plain_node(lang: &str, start: usize, end: usize, off_row: usize, tagger: usize) -> TsParser {
    TsParser {
        lang: lang.as_bytes().to_vec(),
        range_start: start,
        range_end: end,
        off_row,
        off_col: 0,
        tree: tiny_tree(start, end),
        ids: vec![0],
        has_pending_diff: false,
        tagger,
        injection_query: None,
        native: NativeState::empty(),
        sub_trees: Vec::new(),
    }
}

#[test]
fn a_moment_before_a_child_shifts_it_once_by_the_net_sum() {
    // insert 5 bytes at offset 10, then delete 3 bytes at offset 50:
    // a child at [60, 80) takes the net shift (+2) exactly once
    let mut top = plain_node("alpha", 0, 100, 0, 1);
    top.sub_trees.push(plain_node("beta", 60, 80, 3, 2));
    let m = Moment {
        changes: vec![
            Change { start: pt(10, 1, 2), taken_end: pt(10, 1, 2), added_end: pt(15, 1, 7) },
            Change { start: pt(50, 2, 4), taken_end: pt(53, 2, 7), added_end: pt(50, 2, 4) },
        ],
    };
    let top = top.apply_moment(&m);
    assert_eq!((top.range_start, top.range_end), (0, 102));
    assert_eq!(top.sub_trees.len(), 1);
    assert_eq!(top.sub_trees[0].range_start, 62);
    assert_eq!(top.sub_trees[0].range_end, 82);
    assert_eq!(top.sub_trees[0].off_row, 3);
}

#[test]
fn a_change_clipping_a_child_destroys_it() {
    let mut top = plain_node("alpha", 0, 100, 0, 1);
    top.sub_trees.push(plain_node("beta", 60, 80, 3, 2));
    // remove [55, 90): the child's whole span goes with it
    let m = Moment {
        changes: vec![Change {
            start: pt(55, 2, 0),
            taken_end: pt(90, 4, 0),
            added_end: pt(55, 2, 0),
        }],
    };
    let top = top.apply_moment(&m);
    assert_eq!((top.range_start, top.range_end), (0, 65));
    assert!(top.sub_trees.is_empty());
}

#[test]
fn a_change_inside_a_child_moves_only_its_end() {
    let mut top = plain_node("alpha", 0, 100, 0, 1);
    top.sub_trees.push(plain_node("beta", 60, 80, 3, 2));
    // insert 4 bytes at offset 70, inside the child
    let m = Moment {
        changes: vec![Change {
            start: pt(70, 3, 5),
            taken_end: pt(70, 3, 5),
            added_end: pt(74, 3, 9),
        }],
    };
    let top = top.apply_moment(&m);
    assert_eq!((top.range_start, top.range_end), (0, 104));
    assert_eq!(top.sub_trees[0].range_start, 60);
    assert_eq!(top.sub_trees[0].range_end, 84);
    // the edit invalidated the child's pending diff
    assert!(!top.sub_trees[0].has_pending_diff);
}

#[test]
fn a_change_ending_on_the_offset_row_adjusts_the_column() {
    let mut top = plain_node("alpha", 0, 100, 0, 1);
    let mut child = plain_node("beta", 60, 80, 3, 2);
    child.off_col = 10;
    top.sub_trees.push(child);
    // replace [40, 45) by 2 bytes, ending on the child's start row
    let m = Moment {
        changes: vec![Change {
            start: pt(40, 3, 2),
            taken_end: pt(45, 3, 7),
            added_end: pt(42, 3, 4),
        }],
    };
    let top = top.apply_moment(&m);
    assert_eq!(top.sub_trees[0].range_start, 57);
    assert_eq!(top.sub_trees[0].off_row, 3);
    assert_eq!(top.sub_trees[0].off_col, 7);
}

#[test]
fn apply_changes_without_a_native_parser_reports_a_fatal_reparse() {
    let top = plain_node("alpha", 0, 100, 0, 1);
    let text = duat_treesitter::TextBuf::new(vec![97; 102]);
    let m = Moment {
        changes: vec![Change {
            start: pt(10, 0, 10),
            taken_end: pt(10, 0, 10),
            added_end: pt(12, 0, 12),
        }],
    };
    let (node, _ranges, fatal) = top.apply_changes(&m, &text, 1024);
    assert!(fatal);
    assert_eq!(node.range_end, 102);
}

#[test]
fn make_remote_reads_the_root_error_flag() {
    let mut top = plain_node("alpha", 0, 100, 0, 1);
    assert!(!top.make_remote());
    top.tree.nodes[0].is_error = true;
    assert!(top.make_remote());
}
