//! The trusted boundary to the native incremental parser: declared
//! opaque types and thin wrappers around the calls the engine makes.
//! Everything the logic reads out of a native tree or query comes back
//! as plain values.

use vstd::prelude::*;

use streaming_iterator::StreamingIterator;

use crate::change::EditRec;
use crate::query::QueryProp;
use crate::syntax::SynNode;
use crate::syntax::SyntaxTree;

verus! {

#[verifier::external_type_specification]
#[verifier::external_body]
pub struct ExLanguage(tree_sitter::Language);

#[verifier::external_type_specification]
#[verifier::external_body]
pub struct ExParser(tree_sitter::Parser);

#[verifier::external_type_specification]
#[verifier::external_body]
pub struct ExTree(tree_sitter::Tree);

#[verifier::external_type_specification]
#[verifier::external_body]
pub struct ExQuery(tree_sitter::Query);

#[verifier::external_type_specification]
#[verifier::external_body]
pub struct ExNode<'tree>(tree_sitter::Node<'tree>);

#[verifier::external_type_specification]
#[verifier::external_body]
pub struct ExQueryCapture<'tree>(tree_sitter::QueryCapture<'tree>);

/// The native incremental state of one forest node: its single-use
/// parser, the current tree and the previous one (kept for one
/// highlight cycle for the structural diff). A node built without a
/// grammar (as in tests) has none of them.
pub struct NativeState {
    pub parser: Option<tree_sitter::Parser>,
    pub tree: Option<tree_sitter::Tree>,
    pub old_tree: Option<tree_sitter::Tree>,
}

impl NativeState {
    /// A node with no native parser behind it.
    pub fn empty() -> (r: NativeState)
        ensures
            r.tree is None,
    {
        NativeState { parser: None, tree: None, old_tree: None }
    }

    /// Relies on tree_sitter::Tree::edit: marks the edited region of
    /// the native tree as damaged so the next parse is incremental.
    /// Nothing the verified logic reads depends on the opaque tree.
    #[verifier::external_body]
    pub fn edit(&mut self, e: &EditRec) {
        let p = |row: usize, column: usize| tree_sitter::Point { row, column };
        if let Some(tree) = self.tree.as_mut() {
            tree.edit(&tree_sitter::InputEdit {
                start_byte: e.start_byte,
                old_end_byte: e.old_end_byte,
                new_end_byte: e.new_end_byte,
                start_position: p(e.start_row, e.start_col),
                old_end_position: p(e.old_end_row, e.old_end_col),
                new_end_position: p(e.new_end_row, e.new_end_col),
            });
        }
    }

    /// Drops the retained previous tree: its structural diff has been
    /// consumed (or invalidated) and must not be reused.
    pub fn clear_old(&mut self)
        ensures
            final(self).old_tree is None,
    {
        self.old_tree = None;
    }
}

/// Relies on tree_sitter::Parser::new: a fresh parser with no language.
#[verifier::external_body]
pub fn parser_new() -> tree_sitter::Parser {
    tree_sitter::Parser::new()
}

/// Relies on tree_sitter::Parser::set_language: binds the parser to a
/// grammar; false when the grammar's ABI cannot be used.
#[verifier::external_body]
pub fn parser_set_language(p: &mut tree_sitter::Parser, l: &tree_sitter::Language) -> bool {
    p.set_language(l).is_ok()
}

/// Relies on tree_sitter::Parser::parse: parses the byte slice,
/// reusing `old` incrementally when given; None when the parser has no
/// language or parsing was cancelled.
#[verifier::external_body]
pub fn parser_parse(
    p: &mut tree_sitter::Parser,
    text: &Vec<u8>,
    old: Option<&tree_sitter::Tree>,
) -> Option<tree_sitter::Tree> {
    p.parse(text.as_slice(), old)
}

/// Relies on tree_sitter::Query::new: compiles query text against a
/// grammar; None when the text is not well-formed UTF-8 or not a valid
/// query.
#[verifier::external_body]
pub fn query_new(l: &tree_sitter::Language, src: &Vec<u8>) -> Option<tree_sitter::Query> {
    let text = core::str::from_utf8(src.as_slice()).ok()?;
    tree_sitter::Query::new(l, text).ok()
}

/// Relies on tree_sitter::Query::pattern_count: how many patterns the
/// compiled query holds.
#[verifier::external_body]
pub fn query_pattern_count(q: &tree_sitter::Query) -> usize {
    q.pattern_count()
}

/// Relies on tree_sitter::Query::capture_names: the query's capture
/// names, in capture-index order.
#[verifier::external_body]
pub fn query_capture_names(q: &tree_sitter::Query) -> Vec<Vec<u8>> {
    q.capture_names().iter().map(|n| n.as_bytes().to_vec()).collect()
}

/// Relies on tree_sitter::Query::pattern_count and
/// tree_sitter::Query::property_settings: the `set!` properties of
/// every pattern, in pattern order.
#[verifier::external_body]
pub fn query_property_table(q: &tree_sitter::Query) -> Vec<Vec<QueryProp>> {
    let mut out = Vec::new();
    for i in 0..q.pattern_count() {
        let props = q
            .property_settings(i)
            .iter()
            .map(|p| QueryProp {
                key: p.key.as_bytes().to_vec(),
                value: p.value.as_ref().map(|v| v.as_bytes().to_vec()),
            })
            .collect();
        out.push(props);
    }
    out
}

/// Relies on tree_sitter::Tree::changed_ranges: the byte ranges whose
/// structure differs between the node's current tree and the previous
/// one it retains; empty when no previous tree is held.
#[verifier::external_body]
pub fn tree_changed_ranges(native: &NativeState) -> Vec<(usize, usize)> {
    match (&native.tree, &native.old_tree) {
        (Some(new), Some(old)) => new.changed_ranges(old).map(
            |r| (r.start_byte, r.end_byte),
        ).collect(),
        _ => Vec::new(),
    }
}

/// One capture of a query match as plain values: the pattern, the
/// capture index, the captured node's identity and its position in
/// buffer coordinates.
#[derive(Clone, Copy, PartialEq, Eq, Structural, Debug)]
pub struct RawCapture {
    pub pattern: usize,
    pub capture: usize,
    pub node_id: usize,
    pub start_byte: usize,
    pub end_byte: usize,
    pub start_row: usize,
    pub start_col: usize,
}

/// Relies on tree_sitter::QueryCapture and tree_sitter::Node: one
/// capture of a match as plain values.
#[verifier::external_body]
fn raw_of(pattern: usize, c: &tree_sitter::QueryCapture<'_>) -> RawCapture {
    RawCapture {
        pattern,
        capture: c.index as usize,
        node_id: c.node.id(),
        start_byte: c.node.start_byte(),
        end_byte: c.node.end_byte(),
        start_row: c.node.start_position().row,
        start_col: c.node.start_position().column,
    }
}

/// Relies on tree_sitter::Tree::root_node_with_offset,
/// tree_sitter::QueryCursor::set_byte_range and
/// tree_sitter::QueryCursor::matches: the query's matches over the
/// window, each with its captures as plain values. The text provider
/// handed to the cursor (for text predicates) clamps each node's range
/// to the buffer, so a node positioned beyond it reads as empty rather
/// than out of bounds.
#[verifier::external_body]
pub fn run_query_matches(
    q: &tree_sitter::Query,
    native: &NativeState,
    off_bytes: usize,
    off_row: usize,
    off_col: usize,
    w0: usize,
    w1: usize,
    text: &Vec<u8>,
) -> Vec<(usize, Vec<RawCapture>)> {
    let Some(tree) = &native.tree else { return Vec::new() };
    let root = tree.root_node_with_offset(off_bytes, tree_sitter::Point { row: off_row, column: off_col });
    let mut cursor = tree_sitter::QueryCursor::new();
    cursor.set_byte_range(w0..w1);
    let clamped = |n: tree_sitter::Node| {
        let e = n.end_byte().min(text.len());
        core::iter::once(&text[n.start_byte().min(e)..e])
    };
    let mut matches = cursor.matches(q, root, clamped);
    let mut out = Vec::new();
    while let Some(m) = matches.next() {
        out.push((m.pattern_index, m.captures().iter().map(|c| raw_of(m.pattern_index, c)).collect()));
    }
    out
}

/// Relies on tree_sitter::Node: reads one node's data as plain values.
/// Children are fetched one at a time by index.
#[verifier::external_body]
fn node_data(n: &tree_sitter::Node<'_>) -> (usize, usize, usize, usize, usize, usize, bool, usize) {
    let sp = n.start_position();
    let ep = n.end_position();
    (n.start_byte(), n.end_byte(), sp.row, sp.column, ep.row, ep.column, n.is_error(), n.id())
}

/// Relies on tree_sitter::Node::kind: the grammar's name for the node.
#[verifier::external_body]
fn node_kind(n: &tree_sitter::Node<'_>) -> Vec<u8> {
    n.kind().as_bytes().to_vec()
}

/// Relies on tree_sitter::Node::child_count.
#[verifier::external_body]
fn node_child_count(n: &tree_sitter::Node<'_>) -> usize {
    n.child_count() as usize
}

/// Relies on tree_sitter::Node::child.
#[verifier::external_body]
fn node_child<'t>(n: &tree_sitter::Node<'t>, i: usize) -> Option<tree_sitter::Node<'t>> {
    n.child(i as u32)
}

/// Relies on tree_sitter::Tree::root_node_with_offset: the root node,
/// presented in host-buffer coordinates.
#[verifier::external_body]
fn tree_root<'t>(
    t: &'t tree_sitter::Tree,
    off_bytes: usize,
    off_row: usize,
    off_col: usize,
) -> tree_sitter::Node<'t> {
    t.root_node_with_offset(off_bytes, tree_sitter::Point { row: off_row, column: off_col })
}

/// Takes a snapshot of the native tree as a plain-value arena in
/// pre-order, in host-buffer coordinates, together with each node's
/// native identity. The root is pinned to the node's own byte span
/// `[off_bytes, span_end)` (a parsed tree's root covers the whole range
/// it was asked to parse); nodes whose positions do not nest inside
/// their parent's are skipped, so the snapshot is well-formed whatever
/// the native tree holds. `budget` caps how many native nodes are
/// visited: a tree larger than the budget yields a truncated arena, and
/// a node with no native tree yields a bare root, so the snapshot may
/// be partial.
pub fn snapshot_tree(
    native: &NativeState,
    off_bytes: usize,
    span_end: usize,
    off_row: usize,
    off_col: usize,
    budget: usize,
) -> (r: (SyntaxTree, Vec<usize>))
    requires
        off_bytes <= span_end,
    ensures
        r.0.wf(),
        r.1@.len() == r.0.nodes@.len(),
        r.0.nodes@.len() <= budget + 1,
        r.0.nodes@[0].start_byte == off_bytes,
        r.0.nodes@[0].end_byte == span_end,
{
    let tree = match &native.tree {
        Some(t) => t,
        None => {
            return empty_snapshot(off_bytes, span_end, off_row, off_col);
        },
    };
    let root = tree_root(tree, off_bytes, off_row, off_col);
    let (rsb, reb, rsr, rsc, rer, rec_, rerr, rid) = node_data(&root);
    if !(rsr <= rer) {
        return empty_snapshot(off_bytes, span_end, off_row, off_col);
    }
    let mut nodes: Vec<SynNode> = Vec::new();
    let mut ids: Vec<usize> = Vec::new();
    nodes.push(
        SynNode {
            start_byte: off_bytes,
            end_byte: span_end,
            start_row: rsr,
            start_col: rsc,
            end_row: rer,
            end_col: rec_,
            parent: None,
            kind: node_kind(&root),
            is_error: rerr,
        },
    );
    ids.push(rid);
    // depth-first walk: native node, its arena parent, next child index
    let mut stack: Vec<(tree_sitter::Node, usize, usize)> = Vec::new();
    stack.push((root, 0, 0));
    let mut fuel = budget;
    while stack.len() > 0 && fuel > 0
        invariant
            nodes@.len() == ids@.len(),
            nodes@.len() >= 1,
            fuel <= budget,
            nodes@.len() <= budget - fuel + 1,
            nodes@[0].start_byte == off_bytes,
            nodes@[0].end_byte == span_end,
            forall|q: int|
                0 <= q < stack@.len() ==> (#[trigger] stack@[q]).1 < nodes@.len(),
            ({
                let t = SyntaxTree { nodes };
                t.wf()
            }),
        decreases fuel,
    {
        fuel = fuel - 1;
        let last = stack.len() - 1;
        let (cur, arena_idx, child_idx) = {
            let e = &stack[last];
            (e.0, e.1, e.2)
        };
        let count = node_child_count(&cur);
        if child_idx >= count {
            let _ = stack.pop();
            continue;
        }
        stack[last].2 = child_idx + 1;
        match node_child(&cur, child_idx) {
            None => {},
            Some(ch) => {
                let (sb, eb, sr, sc, er, ec, err, id) = node_data(&ch);
                let pn = &nodes[arena_idx];
                // keep the arena well-formed: only properly nested
                // children enter it
                if pn.start_byte <= sb && sb <= eb && eb <= pn.end_byte && pn.start_row <= sr && sr
                    <= er && er <= pn.end_row && nodes.len() < usize::MAX {
                    let new_idx = nodes.len();
                    nodes.push(
                        SynNode {
                            start_byte: sb,
                            end_byte: eb,
                            start_row: sr,
                            start_col: sc,
                            end_row: er,
                            end_col: ec,
                            parent: Some(arena_idx),
                            kind: node_kind(&ch),
                            is_error: err,
                        },
                    );
                    ids.push(id);
                    stack.push((ch, new_idx, 0));
                }
            },
        }
    }
    (SyntaxTree { nodes }, ids)
}

/// The snapshot of a node with no usable native tree: one bare root
/// spanning the node's range.
fn empty_snapshot(off_bytes: usize, span_end: usize, off_row: usize, off_col: usize) -> (r: (
    SyntaxTree,
    Vec<usize>,
))
    requires
        off_bytes <= span_end,
    ensures
        r.0.wf(),
        r.1@.len() == r.0.nodes@.len(),
        r.0.nodes@.len() == 1,
        r.0.nodes@[0].start_byte == off_bytes,
        r.0.nodes@[0].end_byte == span_end,
{
    let mut nodes: Vec<SynNode> = Vec::new();
    nodes.push(
        SynNode {
            start_byte: off_bytes,
            end_byte: span_end,
            start_row: off_row,
            start_col: off_col,
            end_row: off_row,
            end_col: off_col,
            parent: None,
            kind: Vec::new(),
            is_error: false,
        },
    );
    let mut ids: Vec<usize> = Vec::new();
    ids.push(0);
    (SyntaxTree { nodes }, ids)
}

} // verus!
