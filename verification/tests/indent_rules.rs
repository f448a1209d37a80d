use duat_treesitter::indent::{indent_on_tree, walk_indent, IndentResult};
use duat_treesitter::query::{AlignProps, BeginProps, CaptureRec, IndentCaps, QueryProp};
use duat_treesitter::syntax::{SynNode, SyntaxTree};
use duat_treesitter::TextBuf;

fn v(s: &str) -> Vec<u8> {
    s.as_bytes().to_vec()
}

fn node(
    sb: usize,
    eb: usize,
    sr: usize,
    sc: usize,
    er: usize,
    parent: Option<usize>,
    kind: &str,
) -> SynNode {
    SynNode {
        start_byte: sb,
        end_byte: eb,
        start_row: sr,
        start_col: sc,
        end_row: er,
        end_col: 0,
        parent,
        kind: v(kind),
        is_error: false,
    }
}

fn empty_caps() -> IndentCaps {
    IndentCaps {
        begin: Vec::new(),
        dedent: Vec::new(),
        branch: Vec::new(),
        end_mark: Vec::new(),
        zero: Vec::new(),
        ignore: Vec::new(),
        auto: Vec::new(),
        align: Vec::new(),
    }
}

#[test]
fn zero_capture_forces_level_zero_despite_ancestors() {
    // the root asks for a begin indent, but the anchor carries `zero`
    let tree = SyntaxTree {
        nodes: vec![node(0, 100, 0, 0, 9, None, "src"), node(10, 20, 1, 0, 1, Some(0), "leaf")],
    };
    let mut caps = empty_caps();
    caps.begin.push((0, BeginProps { immediate: false, start_at_same_line: false }));
    caps.zero.push(1);
    let text = TextBuf::new(vec![10; 100]);
    let r = walk_indent(&tree, &caps, &text, 3, 4, 1);
    assert_eq!(r, IndentResult::Level(0));
}

#[test]
fn begin_on_a_multi_line_node_adds_one_tab() {
    let tree = SyntaxTree {
        nodes: vec![node(0, 100, 0, 0, 9, None, "src"), node(10, 20, 1, 0, 1, Some(0), "leaf")],
    };
    let mut caps = empty_caps();
    caps.begin.push((0, BeginProps { immediate: false, start_at_same_line: false }));
    let text = TextBuf::new(vec![10; 100]);
    let r = walk_indent(&tree, &caps, &text, 3, 4, 1);
    assert_eq!(r, IndentResult::Level(4));
}

#[test]
fn dedent_subtracting_below_zero_defers() {
    let tree = SyntaxTree {
        nodes: vec![node(0, 100, 0, 0, 9, None, "src"), node(10, 20, 1, 0, 1, Some(0), "leaf")],
    };
    let mut caps = empty_caps();
    caps.dedent.push(1);
    let text = TextBuf::new(vec![10; 100]);
    let r = walk_indent(&tree, &caps, &text, 3, 4, 1);
    assert_eq!(r, IndentResult::Defer);
}

#[test]
fn auto_on_a_spanning_node_defers() {
    let tree = SyntaxTree {
        nodes: vec![node(0, 100, 0, 0, 9, None, "src"), node(10, 60, 1, 0, 6, Some(0), "block")],
    };
    let mut caps = empty_caps();
    caps.auto.push(1);
    let text = TextBuf::new(vec![10; 100]);
    // target line 3 is spanned by node 1 (rows 1..=6) without being its start
    let r = walk_indent(&tree, &caps, &text, 3, 4, 1);
    assert_eq!(r, IndentResult::Defer);
}

#[test]
fn ignore_on_a_spanning_node_yields_zero() {
    let tree = SyntaxTree {
        nodes: vec![node(0, 100, 0, 0, 9, None, "src"), node(10, 60, 1, 0, 6, Some(0), "block")],
    };
    let mut caps = empty_caps();
    caps.ignore.push(1);
    let text = TextBuf::new(vec![10; 100]);
    let r = walk_indent(&tree, &caps, &text, 3, 4, 1);
    assert_eq!(r, IndentResult::Level(0));
}

#[test]
fn absolute_align_ends_the_walk_unmodified() {
    // text row 1: "0123456789(ab\n" -- the delimiter is not last on its
    // line, so the align level is absolute: column 10 plus increment 4
    let mut bytes = Vec::new();
    bytes.extend_from_slice("0123456789(ab\n".as_bytes());
    bytes.resize(100, 32);
    let text = TextBuf::new(bytes);
    let tree = SyntaxTree {
        nodes: vec![
            node(0, 100, 0, 0, 9, None, "src"),
            node(5, 50, 0, 5, 5, Some(0), "call"),
            node(10, 11, 0, 10, 0, Some(1), "("),
        ],
    };
    let mut caps = empty_caps();
    // an enclosing begin that must NOT alter the absolute level
    caps.begin.push((0, BeginProps { immediate: false, start_at_same_line: false }));
    caps.align.push((
        1,
        AlignProps {
            open_delim: Some(v("(")),
            close_delim: None,
            increment: 4,
            avoid_last_matching_next: false,
        },
    ));
    let r = walk_indent(&tree, &caps, &text, 3, 4, 1);
    assert_eq!(r, IndentResult::Level(14));
}

#[test]
fn relative_align_keeps_walking_to_ancestors() {
    // the delimiter ends its own line, so align indents one tab and the
    // enclosing begin still applies
    let mut bytes = Vec::new();
    bytes.extend_from_slice("0123456789(\n".as_bytes());
    bytes.resize(100, 32);
    let text = TextBuf::new(bytes);
    let tree = SyntaxTree {
        nodes: vec![
            node(0, 100, 0, 0, 9, None, "src"),
            node(5, 50, 0, 5, 5, Some(0), "call"),
            node(10, 11, 0, 10, 0, Some(1), "("),
        ],
    };
    let mut caps = empty_caps();
    caps.align.push((
        1,
        AlignProps {
            open_delim: Some(v("(")),
            close_delim: None,
            increment: 4,
            avoid_last_matching_next: false,
        },
    ));
    let r = walk_indent(&tree, &caps, &text, 3, 4, 1);
    assert_eq!(r, IndentResult::Level(4));
}

#[test]
fn no_indent_patterns_means_no_opinion() {
    let tree = SyntaxTree { nodes: vec![node(0, 100, 0, 0, 9, None, "src")] };
    let text = TextBuf::new(vec![10; 100]);
    let captures: Vec<CaptureRec> = Vec::new();
    let names: Vec<Vec<u8>> = Vec::new();
    let props: Vec<Vec<QueryProp>> = Vec::new();
    let r = indent_on_tree(&tree, &text, 0, &captures, &names, &props, 3, 4);
    assert_eq!(r, IndentResult::NoOpinion);
}

#[test]
fn with_patterns_but_no_captures_the_engine_still_answers() {
    let tree = SyntaxTree { nodes: vec![node(0, 100, 0, 0, 9, None, "src")] };
    let mut bytes = vec![32u8; 100];
    bytes[5] = 120;
    let text = TextBuf::new(bytes);
    let captures: Vec<CaptureRec> = Vec::new();
    let names: Vec<Vec<u8>> = Vec::new();
    let props: Vec<Vec<QueryProp>> = Vec::new();
    let r = indent_on_tree(&tree, &text, 1, &captures, &names, &props, 0, 4);
    assert!(r != IndentResult::NoOpinion);
}

#[test]
fn blank_document_above_target_aligns_to_zero() {
    // a blank target line with only blank lines above it
    let tree = SyntaxTree { nodes: vec![node(0, 12, 0, 0, 3, None, "src")] };
    let text = TextBuf::new("   \n  \n    \n".as_bytes().to_vec());
    let captures: Vec<CaptureRec> = Vec::new();
    let names: Vec<Vec<u8>> = Vec::new();
    let props: Vec<Vec<QueryProp>> = Vec::new();
    let r = indent_on_tree(&tree, &text, 1, &captures, &names, &props, 2, 4);
    assert_eq!(r, IndentResult::Level(0));
}

#[test]
fn capture_index_is_built_from_indent_captures() {
    let names = vec![v("indent.begin"), v("indent.zero"), v("other")];
    let captures = vec![
        CaptureRec { pattern: 0, capture: 0, node: 3 },
        CaptureRec { pattern: 0, capture: 1, node: 4 },
        CaptureRec { pattern: 0, capture: 2, node: 5 },
    ];
    let props = vec![vec![QueryProp { key: v("indent.immediate"), value: None }]];
    let caps = IndentCaps::build(&captures, &names, &props);
    assert_eq!(caps.begin.len(), 1);
    assert_eq!(caps.begin[0].0, 3);
    assert!(caps.begin[0].1.immediate);
    assert!(!caps.begin[0].1.start_at_same_line);
    assert_eq!(caps.zero, vec![4]);
    assert!(caps.dedent.is_empty());
}

#[test]
fn branch_on_the_target_line_subtracts_one_tab() {
    let tree = SyntaxTree {
        nodes: vec![
            node(0, 100, 0, 0, 9, None, "src"),
            node(10, 60, 1, 0, 6, Some(0), "block"),
            node(30, 40, 3, 0, 3, Some(1), "else"),
        ],
    };
    let mut caps = empty_caps();
    caps.begin.push((1, BeginProps { immediate: false, start_at_same_line: false }));
    caps.branch.push(2);
    let text = TextBuf::new(vec![10; 100]);
    // the anchor's own line is the target: branch applies, then the
    // enclosing begin adds one tab back
    let r = walk_indent(&tree, &caps, &text, 3, 4, 2);
    assert_eq!(r, IndentResult::Level(0));
}

#[test]
fn each_start_line_is_processed_at_most_once() {
    // two nested begin nodes starting on the same line count once
    let tree = SyntaxTree {
        nodes: vec![
            node(0, 100, 0, 0, 9, None, "src"),
            node(10, 80, 1, 0, 8, Some(0), "outer"),
            node(10, 70, 1, 2, 7, Some(1), "inner"),
        ],
    };
    let mut caps = empty_caps();
    caps.begin.push((1, BeginProps { immediate: false, start_at_same_line: false }));
    caps.begin.push((2, BeginProps { immediate: false, start_at_same_line: false }));
    let text = TextBuf::new(vec![10; 100]);
    let r = walk_indent(&tree, &caps, &text, 3, 4, 2);
    assert_eq!(r, IndentResult::Level(4));
}

#[test]
fn avoid_last_matching_next_adds_a_tab_to_the_absolute_level() {
    // open delimiter on row 0 (not last on its line), close delimiter
    // on the target row: the absolute level gains one more tab
    let mut bytes = Vec::new();
    bytes.extend_from_slice("0123456789(ab\n".as_bytes());
    bytes.extend_from_slice("x\n".as_bytes());
    bytes.extend_from_slice("x\n".as_bytes());
    bytes.extend_from_slice(")\n".as_bytes());
    bytes.resize(100, 32);
    let text = TextBuf::new(bytes);
    let tree = SyntaxTree {
        nodes: vec![
            node(0, 100, 0, 0, 9, None, "src"),
            node(5, 50, 0, 5, 5, Some(0), "call"),
            node(10, 11, 0, 10, 0, Some(1), "("),
            node(18, 19, 3, 0, 3, Some(1), ")"),
        ],
    };
    let mut caps = empty_caps();
    caps.align.push((
        1,
        AlignProps {
            open_delim: Some(v("(")),
            close_delim: Some(v(")")),
            increment: 4,
            avoid_last_matching_next: true,
        },
    ));
    let r = walk_indent(&tree, &caps, &text, 3, 4, 1);
    assert_eq!(r, IndentResult::Level(18));
}

#[test]
fn a_blank_line_anchors_past_a_trailing_comment() {
    // line 0: "foo bar ;; c" ends in a comment; the blank line below
    // anchors on the word before the comment, whose immediate begin
    // then indents
    let text = TextBuf::new("foo bar ;; c\n   \n".as_bytes().to_vec());
    let tree = SyntaxTree {
        nodes: vec![
            node(0, 17, 0, 0, 1, None, "src"),
            node(4, 8, 0, 4, 0, Some(0), "word"),
            node(8, 12, 0, 8, 0, Some(0), "line_comment"),
        ],
    };
    let names = vec![v("indent.begin")];
    let captures = vec![CaptureRec { pattern: 0, capture: 0, node: 1 }];
    let props = vec![vec![QueryProp { key: v("indent.immediate"), value: None }]];
    let r = indent_on_tree(&tree, &text, 1, &captures, &names, &props, 1, 4);
    assert_eq!(r, IndentResult::Level(4));
}

#[test]
fn an_end_marked_anchor_reanchors_at_the_target_line() {
    // the previous line's last node closes a construct: the blank line
    // anchors at its own start instead, so the begin mark on that node
    // no longer applies
    let text = TextBuf::new("foo bar\n   \n".as_bytes().to_vec());
    let tree = SyntaxTree {
        nodes: vec![node(0, 12, 0, 0, 1, None, "src"), node(4, 7, 0, 4, 0, Some(0), "word")],
    };
    let names = vec![v("indent.begin"), v("indent.end")];
    let captures = vec![
        CaptureRec { pattern: 0, capture: 0, node: 1 },
        CaptureRec { pattern: 0, capture: 1, node: 1 },
    ];
    let props = vec![vec![QueryProp { key: v("indent.immediate"), value: None }]];
    let r = indent_on_tree(&tree, &text, 1, &captures, &names, &props, 1, 4);
    assert_eq!(r, IndentResult::Level(0));
}

#[test]
fn dedent_applies_only_away_from_the_target_line() {
    let tree = SyntaxTree {
        nodes: vec![
            node(0, 100, 0, 0, 9, None, "src"),
            node(10, 60, 1, 0, 6, Some(0), "block"),
            node(30, 40, 3, 0, 3, Some(1), "stmt"),
        ],
    };
    let mut caps = empty_caps();
    caps.begin.push((1, BeginProps { immediate: false, start_at_same_line: false }));
    caps.dedent.push(2);
    let text = TextBuf::new(vec![10; 100]);
    // the dedent node starts on the target line: the rule does not fire
    let r = walk_indent(&tree, &caps, &text, 3, 4, 2);
    assert_eq!(r, IndentResult::Level(4));
    // one line further down it does
    let r2 = walk_indent(&tree, &caps, &text, 4, 4, 2);
    assert_eq!(r2, IndentResult::Level(0));
}

#[test]
fn begin_on_the_target_line_needs_start_at_same_line() {
    let tree = SyntaxTree {
        nodes: vec![node(0, 100, 0, 0, 9, None, "src"), node(10, 60, 3, 0, 6, Some(0), "block")],
    };
    let text = TextBuf::new(vec![10; 100]);
    let mut caps = empty_caps();
    caps.begin.push((1, BeginProps { immediate: false, start_at_same_line: false }));
    // the node starts on the target line: no indent without the flag
    assert_eq!(walk_indent(&tree, &caps, &text, 3, 4, 1), IndentResult::Level(0));
    let mut caps2 = empty_caps();
    caps2.begin.push((1, BeginProps { immediate: false, start_at_same_line: true }));
    assert_eq!(walk_indent(&tree, &caps2, &text, 3, 4, 1), IndentResult::Level(4));
}
