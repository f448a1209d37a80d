use duat_treesitter::engine::LanguageRegistry;
use duat_treesitter::highlight::TagEdit;
use duat_treesitter::indent::IndentResult;
use duat_treesitter::syntax::{SynNode, SyntaxTree};
use duat_treesitter::ts::NativeState;
use duat_treesitter::{TextBuf, TsParser};

fn plain_node(lang: &str, start: usize, end: usize) -> TsParser {
    TsParser {
        lang: lang.as_bytes().to_vec(),
        range_start: start,
        range_end: end,
        off_row: 0,
        off_col: 0,
        tree: SyntaxTree {
            nodes: vec![SynNode {
                start_byte: start,
                end_byte: end,
                start_row: 0,
                start_col: 0,
                end_row: 0,
                end_col: 0,
                parent: None,
                kind: Vec::new(),
                is_error: false,
            }],
        },
        ids: vec![0],
        has_pending_diff: false,
        tagger: 1,
        injection_query: None,
        native: NativeState::empty(),
        sub_trees: Vec::new(),
    }
}

#[test]
fn an_unknown_language_gives_no_indentation_opinion() {
    let node = plain_node("alpha", 0, 20);
    let text = TextBuf::new("x\ny\nz\n".as_bytes().to_vec());
    let registry = LanguageRegistry::new();
    let r = node.indent_on(&text, &registry, 1, 4);
    assert_eq!(r, IndentResult::NoOpinion);
}

#[test]
fn a_line_outside_the_buffer_defers() {
    let node = plain_node("alpha", 0, 20);
    let text = TextBuf::new("x\ny\n".as_bytes().to_vec());
    let registry = LanguageRegistry::new();
    let r = node.indent_on(&text, &registry, 9, 4);
    assert_eq!(r, IndentResult::Defer);
}

#[test]
fn detached_nodes_validate_their_ranges() {
    let tree = SyntaxTree {
        nodes: vec![SynNode {
            start_byte: 0,
            end_byte: 10,
            start_row: 0,
            start_col: 0,
            end_row: 0,
            end_col: 0,
            parent: None,
            kind: Vec::new(),
            is_error: false,
        }],
    };
    let ok = TsParser::detached("a".as_bytes().to_vec(), 0, 10, 0, 0, tree, vec![0], 1);
    assert!(ok.is_ok());
    let tree2 = SyntaxTree { nodes: Vec::new() };
    let bad = TsParser::detached("a".as_bytes().to_vec(), 10, 5, 0, 0, tree2, vec![], 1);
    assert!(bad.is_err());
}

#[test]
fn child_infos_reads_the_sub_tree_list() {
    let mut top = plain_node("alpha", 0, 100);
    top.sub_trees.push(plain_node("beta", 10, 20));
    top.sub_trees.push(plain_node("gamma", 30, 40));
    let infos = top.child_infos();
    assert_eq!(infos.len(), 2);
    assert_eq!((infos[0].start, infos[0].end), (10, 20));
    assert_eq!(infos[1].lang, "gamma".as_bytes().to_vec());
}

#[test]
fn highlighting_without_a_registry_entry_only_clears_the_window() {
    let top = plain_node("alpha", 0, 100);
    let text = TextBuf::new(vec![97; 100]);
    let registry = LanguageRegistry::new();
    let mut edits = Vec::new();
    let mut next_tagger = 10;
    let top = top.highlight_and_inject(&text, &registry, 5, 30, 4, 1024, &mut next_tagger, &mut edits);
    assert_eq!((top.range_start, top.range_end), (0, 100));
    assert!(edits.is_empty());
}

#[test]
fn a_disjoint_window_is_a_no_op() {
    let top = plain_node("alpha", 10, 20);
    let text = TextBuf::new(vec![97; 100]);
    let registry = LanguageRegistry::new();
    let mut edits = Vec::new();
    let mut next_tagger = 10;
    let top = top.highlight_and_inject(&text, &registry, 30, 40, 4, 1024, &mut next_tagger, &mut edits);
    assert_eq!((top.range_start, top.range_end), (10, 20));
    assert!(edits.is_empty());
}

#[test]
fn an_unresolved_child_in_the_window_loses_its_tags() {
    let mut top = plain_node("alpha", 0, 100);
    let mut child = plain_node("beta", 20, 40);
    child.tagger = 7;
    top.sub_trees.push(child);
    let text = TextBuf::new(vec![97; 100]);
    // no registry entry: nothing resolves, so the child is stale
    let registry = LanguageRegistry::new();
    let mut edits = Vec::new();
    let mut next_tagger = 10;
    let top = top.highlight_and_inject(&text, &registry, 0, 100, 4, 1024, &mut next_tagger, &mut edits);
    assert!(top.sub_trees.is_empty());
    assert_eq!(edits, vec![TagEdit::Remove { tagger: 7, start: 20, end: 40 }]);
}
