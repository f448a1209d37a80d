//! The forest of parse-tree nodes: one node per (sub-)tree, each owning
//! its injected children, and the edit propagation that keeps every
//! range and offset consistent with a mutating buffer.

use vstd::prelude::*;

use crate::change::Change;
use crate::change::Moment;
use crate::change::change_clips;
use crate::change::input_edit;
use crate::change::spec_change_clips;
use crate::point::RowCol;
use crate::syntax::SyntaxTree;
use crate::ts::NativeState;

verus! {

/// One node of the forest: the byte range of the host buffer its
/// grammar parses, where its local coordinates sit in the buffer, its
/// language, the model of its current parse tree, and its injected
/// sub-trees in ascending range order. `has_pending_diff` records
/// whether the previous tree is still held for one highlight cycle.
pub struct TsParser {
    pub lang: Vec<u8>,
    pub range_start: usize,
    pub range_end: usize,
    pub off_row: usize,
    pub off_col: usize,
    pub tree: SyntaxTree,
    /// The native identity of each arena node of `tree`, for matching
    /// query captures to the model.
    pub ids: Vec<usize>,
    pub has_pending_diff: bool,
    pub tagger: usize,
    /// The name of an injection-query override this sub-tree was
    /// resolved with: its own injection passes use the named query of
    /// its language instead of the default, for this sub-tree only.
    pub injection_query: Option<Vec<u8>>,
    pub native: NativeState,
    pub sub_trees: Vec<TsParser>,
}

/// The ghost shape of a forest node: what edit propagation reads and
/// writes.
pub ghost struct NodeView {
    pub range_start: int,
    pub range_end: int,
    pub off_row: int,
    pub off_col: int,
    pub children: Seq<NodeView>,
}

impl TsParser {
    /// The node's ghost shape.
    pub open spec fn view(self) -> NodeView
        decreases self,
    {
        NodeView {
            range_start: self.range_start as int,
            range_end: self.range_end as int,
            off_row: self.off_row as int,
            off_col: self.off_col as int,
            children: views_of(self.sub_trees@),
        }
    }
}

pub open spec fn views_of(s: Seq<TsParser>) -> Seq<NodeView>
    decreases s,
{
    if s.len() == 0 {
        Seq::empty()
    } else {
        seq![s[0].view()] + views_of(s.skip(1))
    }
}

/// Whether two forest nodes carry the same native state throughout:
/// parser, native trees, snapshot and identities, recursively. A
/// subtree a change merely shifts keeps it: its native tree receives
/// no edit.
pub open spec fn same_native_state(a: TsParser, b: TsParser) -> bool
    decreases a,
{
    &&& a.native == b.native
    &&& a.tree == b.tree
    &&& a.ids == b.ids
    &&& natives_eq(a.sub_trees@, b.sub_trees@)
}

pub open spec fn natives_eq(x: Seq<TsParser>, y: Seq<TsParser>) -> bool
    decreases x,
{
    if x.len() != y.len() {
        false
    } else if x.len() == 0 {
        true
    } else {
        same_native_state(x[0], y[0]) && natives_eq(x.skip(1), y.skip(1))
    }
}

proof fn lemma_natives_eq_from_index(x: Seq<TsParser>, y: Seq<TsParser>)
    requires
        x.len() == y.len(),
        forall|q: int| 0 <= q < x.len() ==> same_native_state(#[trigger] x[q], y[q]),
    ensures
        natives_eq(x, y),
    decreases x,
{
    if x.len() > 0 {
        assert(forall|q: int|
            0 <= q < x.skip(1).len() ==> #[trigger] x.skip(1)[q] == x[q + 1] && y.skip(1)[q] == y[q
                + 1]);
        lemma_natives_eq_from_index(x.skip(1), y.skip(1));
    }
}

proof fn lemma_same_native_refl(a: TsParser)
    ensures
        same_native_state(a, a),
    decreases a,
{
    lemma_natives_eq_refl(a.sub_trees@);
}

proof fn lemma_natives_eq_refl(x: Seq<TsParser>)
    ensures
        natives_eq(x, x),
    decreases x,
{
    if x.len() > 0 {
        lemma_same_native_refl(x[0]);
        lemma_natives_eq_refl(x.skip(1));
    }
}

/// Well-formedness of a forest node: sane bounds, children contained
/// in the parent's range, in ascending order and non-overlapping, and
/// each child well-formed. This containment holds at all times.
pub open spec fn wf_view(v: NodeView) -> bool
    decreases v,
{
    &&& 0 <= v.range_start <= v.range_end <= usize::MAX / 2
    &&& 0 <= v.off_row <= usize::MAX / 2
    &&& 0 <= v.off_col <= usize::MAX / 2
    &&& forall|i: int|
        0 <= i < v.children.len() ==> {
            let c = #[trigger] v.children[i];
            &&& v.range_start <= c.range_start
            &&& c.range_end <= v.range_end
            &&& wf_view(c)
        }
    &&& forall|i: int, j: int|
        0 <= i < j < v.children.len() ==> (#[trigger] v.children[i]).range_end
            <= (#[trigger] v.children[j]).range_start
}

/// One change shifts a whole subtree that lies entirely after it: both
/// range ends move by the net byte shift, and the offset moves by the
/// net row shift, the column only when the subtree starts on the very
/// row where the change ends.
pub open spec fn shift_node_view(v: NodeView, c: Change) -> NodeView
    decreases v,
{
    NodeView {
        range_start: v.range_start + c.shift_bytes(),
        range_end: v.range_end + c.shift_bytes(),
        off_row: v.off_row - c.taken_end.line + c.added_end.line,
        off_col: if v.off_row == c.taken_end.line {
            v.off_col - c.taken_end.col + c.added_end.col
        } else {
            v.off_col
        },
        children: shift_children_view(v.children, c),
    }
}

pub open spec fn shift_children_view(s: Seq<NodeView>, c: Change) -> Seq<NodeView>
    decreases s,
{
    if s.len() == 0 {
        Seq::empty()
    } else {
        seq![shift_node_view(s[0], c)] + shift_children_view(s.skip(1), c)
    }
}

/// What one change does to one node, given that the node was not
/// clipped: a change entirely before the node shifts the whole
/// subtree; a change reaching into the node extends or shrinks its end
/// and is propagated to its children (clipped ones are destroyed); a
/// change entirely after the node leaves it untouched. A propagated
/// change invalidates the node's pending diff.
pub open spec fn apply_change_view(c: Change, v: NodeView) -> NodeView
    decreases v,
{
    if c.start.byte < v.range_start && c.taken_end.byte <= v.range_start {
        shift_node_view(v, c)
    } else if c.taken_end.byte < v.range_end {
        NodeView {
            range_end: v.range_end + c.shift_bytes(),
            children: apply_change_children(c, v.children),
            ..v
        }
    } else {
        v
    }
}

/// One change over a child list: clipped children are destroyed, the
/// rest are transformed in place.
pub open spec fn apply_change_children(c: Change, s: Seq<NodeView>) -> Seq<NodeView>
    decreases s,
{
    if s.len() == 0 {
        Seq::empty()
    } else if spec_change_clips(c, s[0].range_start, s[0].range_end) {
        apply_change_children(c, s.skip(1))
    } else {
        seq![apply_change_view(c, s[0])] + apply_change_children(c, s.skip(1))
    }
}

/// A whole moment over a top-level node: each change, in order, moves
/// the node's end by its net shift and is propagated to the children.
pub open spec fn apply_moment_view(changes: Seq<Change>, v: NodeView) -> NodeView
    decreases changes.len(),
{
    if changes.len() == 0 {
        v
    } else {
        let c = changes[0];
        let v1 = NodeView {
            range_end: v.range_end + c.shift_bytes(),
            children: apply_change_children(c, v.children),
            ..v
        };
        apply_moment_view(changes.skip(1), v1)
    }
}

/// The row and column conditions a change must meet, throughout a
/// subtree, for its coordinate bookkeeping to stay in range: before a
/// node, its end points lie at or before the node's offset; inside a
/// node, it can be translated into the node's local space. The host's
/// change log guarantees this because points and offsets describe one
/// buffer.
pub open spec fn change_rows_fit(c: Change, v: NodeView) -> bool
    decreases v,
{
    &&& (spec_change_before(c, v.range_start) ==> {
        &&& c.taken_end.line <= v.off_row
        &&& (c.taken_end.line == v.off_row ==> c.taken_end.col <= v.off_col)
        &&& v.off_row - c.taken_end.line + c.added_end.line <= usize::MAX / 2
        &&& (c.taken_end.line == v.off_row ==> v.off_col - c.taken_end.col + c.added_end.col
            <= usize::MAX / 2)
    })
    &&& (!spec_change_before(c, v.range_start) && !spec_change_clips(
        c,
        v.range_start,
        v.range_end,
    ) && c.taken_end.byte < v.range_end ==> crate::change::change_in_local_space(
        c,
        v.off_row,
        v.off_col,
        v.range_start,
    ))
    &&& forall|i: int| 0 <= i < v.children.len() ==> change_rows_fit(c, #[trigger] v.children[i])
}

/// The conditions a whole moment must meet against a top-level node:
/// each change starts inside the node's range, can be translated into
/// its local space, and meets the row conditions of every descendant;
/// the rest of the moment meets them against the node as that change
/// leaves it.
pub open spec fn moment_rows_fit(changes: Seq<Change>, v: NodeView) -> bool
    decreases changes.len(),
{
    if changes.len() == 0 {
        true
    } else {
        let c = changes[0];
        let v1 = NodeView {
            range_end: v.range_end + c.shift_bytes(),
            children: apply_change_children(c, v.children),
            ..v
        };
        &&& v.range_start <= c.start.byte
        &&& crate::change::change_in_local_space(c, v.off_row, v.off_col, v.range_start)
        &&& change_rows_fit(c, v)
        &&& moment_rows_fit(changes.skip(1), v1)
    }
}

/// Whether a change lies entirely before a byte position: it removes
/// and inserts only text in front of it.
pub open spec fn spec_change_before(c: Change, pos: int) -> bool {
    c.start.byte < pos && c.taken_end.byte <= pos
}

/// Whether every change of a moment stays entirely before the evolving
/// position of a subtree that starts at `pos`.
pub open spec fn spec_moment_before(changes: Seq<Change>, pos: int) -> bool
    decreases changes.len(),
{
    if changes.len() == 0 {
        true
    } else {
        spec_change_before(changes[0], pos) && spec_moment_before(
            changes.skip(1),
            pos + changes[0].shift_bytes(),
        )
    }
}

/// The changes of a moment folded over one node, in order.
pub open spec fn fold_changes_view(changes: Seq<Change>, v: NodeView) -> NodeView
    decreases changes.len(),
{
    if changes.len() == 0 {
        v
    } else {
        fold_changes_view(changes.skip(1), apply_change_view(changes[0], v))
    }
}

/// A moment that stays entirely before a subtree moves it by the sum
/// of its changes' shifts, applied once: the accumulated shift of all
/// the changes, in one batched step.
pub proof fn lemma_moment_before_shifts_once(changes: Seq<Change>, v: NodeView)
    requires
        spec_moment_before(changes, v.range_start),
    ensures
        fold_changes_view(changes, v).range_start == v.range_start + crate::change::net_shift_bytes_of(changes),
        fold_changes_view(changes, v).range_end == v.range_end + crate::change::net_shift_bytes_of(changes),
    decreases changes.len(),
{
    if changes.len() > 0 {
        let c = changes[0];
        let v1 = apply_change_view(c, v);
        assert(v1 == shift_node_view(v, c));
        lemma_moment_before_shifts_once(changes.skip(1), v1);
    }
}

proof fn lemma_views_of(s: Seq<TsParser>)
    ensures
        views_of(s).len() == s.len(),
        forall|i: int| 0 <= i < s.len() ==> #[trigger] views_of(s)[i] == s[i].view(),
    decreases s,
{
    if s.len() > 0 {
        lemma_views_of(s.skip(1));
        assert forall|i: int| 0 <= i < s.len() implies #[trigger] views_of(s)[i]
            == s[i].view() by {
            if i > 0 {
                assert(views_of(s)[i] == views_of(s.skip(1))[i - 1]);
                assert(s.skip(1)[i - 1] == s[i]);
            }
        }
    }
}

proof fn lemma_views_of_push(s: Seq<TsParser>, x: TsParser)
    ensures
        views_of(s.push(x)) =~= views_of(s).push(x.view()),
    decreases s,
{
    if s.len() == 0 {
        assert(s.push(x)[0] == x);
        assert(s.push(x).skip(1) =~= Seq::<TsParser>::empty());
        assert(views_of(s.push(x).skip(1)) =~= Seq::<NodeView>::empty());
        assert(views_of(s) =~= Seq::<NodeView>::empty());
    } else {
        assert(s.push(x)[0] == s[0]);
        assert(s.push(x).skip(1) =~= s.skip(1).push(x));
        lemma_views_of_push(s.skip(1), x);
        assert(views_of(s.push(x).skip(1)) == views_of(s.skip(1).push(x)));
        assert(views_of(s.push(x)) =~= seq![s[0].view()] + views_of(s.skip(1)).push(x.view()));
    }
}

/// Shifts a whole subtree that lies entirely after a change: both range
/// ends move by the change's net byte shift, and each node's offset by
/// its net row shift (and column, for a node starting on the row where
/// the change ends). This is the batched step that spares every node
/// before it one visit per change.
pub fn shift_subtree(n: TsParser, c: &Change) -> (r: TsParser)
    requires
        c.wf(),
        wf_view(n.view()),
        spec_change_before(*c, n.view().range_start),
        n.view().range_end + c.shift_bytes() <= usize::MAX / 2,
        change_rows_fit(*c, n.view()),
    ensures
        r.view() == shift_node_view(n.view(), *c),
        r.lang == n.lang,
        r.tree == n.tree,
        r.tagger == n.tagger,
        same_native_state(r, n),
    decreases n,
{
    proof {
        lemma_views_of(n.sub_trees@);
    }
    let TsParser {
        lang,
        range_start,
        range_end,
        off_row,
        off_col,
        tree,
        ids,
        has_pending_diff,
        tagger,
        injection_query,
        native,
        sub_trees,
    } = n;
    let new_start = range_start - c.taken_end.byte + c.added_end.byte;
    let new_end = range_end - c.taken_end.byte + c.added_end.byte;
    let new_off_row = off_row - c.taken_end.line + c.added_end.line;
    let new_off_col = if off_row == c.taken_end.line {
        off_col - c.taken_end.col + c.added_end.col
    } else {
        off_col
    };
    let mut kids = sub_trees;
    let ghost kids0 = kids@;
    let mut out: Vec<TsParser> = Vec::new();
    while kids.len() > 0
        invariant
            c.wf(),
            kids@.len() <= kids0.len(),
            kids@ =~= kids0.skip(kids0.len() - kids@.len()),
            kids0 == n.sub_trees@,
            wf_view(n.view()),
            spec_change_before(*c, n.view().range_start),
            n.view().range_end + c.shift_bytes() <= usize::MAX / 2,
            change_rows_fit(*c, n.view()),
            views_of(out@) + shift_children_view(views_of(kids@), *c) =~= shift_children_view(
                views_of(kids0),
                *c,
            ),
            out@.len() == kids0.len() - kids@.len(),
            forall|q: int|
                0 <= q < out@.len() ==> same_native_state(#[trigger] out@[q], kids0[q]),
        decreases kids@.len(),
    {
        let ghost pre = kids@;
        let k = kids.remove(0);
        proof {
            lemma_views_of(pre);
            lemma_views_of(kids@);
            lemma_views_of(kids0);
            assert(k == pre[0]);
            assert(kids0.skip(kids0.len() - pre.len())[0] == kids0[kids0.len() - pre.len()]);
            assert(k == n.sub_trees@[kids0.len() - pre.len()]);
            assert(k.view() == n.view().children[kids0.len() - pre.len()]);
            assert(views_of(pre)[0] == k.view());
            assert(views_of(pre).skip(1) =~= views_of(kids@));
        }
        let k2 = shift_subtree(k, c);
        let ghost out0 = out@;
        out.push(k2);
        proof {
            lemma_views_of_push(out0, k2);
            assert(shift_children_view(views_of(pre), *c) =~= seq![shift_node_view(k.view(), *c)]
                + shift_children_view(views_of(kids@), *c));
            assert(views_of(out@) + shift_children_view(views_of(kids@), *c) =~= views_of(out0)
                + shift_children_view(views_of(pre), *c));
            assert(out@[out@.len() - 1] == k2);
            assert(same_native_state(k2, kids0[out@.len() - 1]));
        }
    }
    let r = TsParser {
        lang,
        range_start: new_start,
        range_end: new_end,
        off_row: new_off_row,
        off_col: new_off_col,
        tree,
        ids,
        has_pending_diff,
        tagger,
        injection_query,
        native,
        sub_trees: out,
    };
    proof {
        assert(views_of(kids@) =~= Seq::<NodeView>::empty());
        assert(shift_children_view(views_of(kids@), *c) =~= Seq::<NodeView>::empty());
        assert(views_of(out@) =~= shift_children_view(views_of(kids0), *c));
        assert(r.view() =~= shift_node_view(n.view(), *c));
        lemma_natives_eq_from_index(r.sub_trees@, n.sub_trees@);
        assert(same_native_state(r, n));
    }
    r
}

/// Shifting a subtree that lies after a change preserves its
/// well-formedness.
proof fn lemma_shift_wf(c: Change, v: NodeView)
    requires
        c.wf(),
        wf_view(v),
        spec_change_before(c, v.range_start),
        v.range_end + c.shift_bytes() <= usize::MAX / 2,
        change_rows_fit(c, v),
    ensures
        wf_view(shift_node_view(v, c)),
        shift_node_view(v, c).range_start == v.range_start + c.shift_bytes(),
        shift_node_view(v, c).range_end == v.range_end + c.shift_bytes(),
    decreases v,
{
    let t = shift_node_view(v, c);
    lemma_shift_children_index(v.children, c);
    assert forall|i: int| 0 <= i < t.children.len() implies {
        let tc = #[trigger] t.children[i];
        &&& t.range_start <= tc.range_start
        &&& tc.range_end <= t.range_end
        &&& wf_view(tc)
    } by {
        lemma_shift_wf(c, v.children[i]);
    }
}

proof fn lemma_shift_children_index(s: Seq<NodeView>, c: Change)
    ensures
        shift_children_view(s, c).len() == s.len(),
        forall|i: int|
            0 <= i < s.len() ==> #[trigger] shift_children_view(s, c)[i] == shift_node_view(
                s[i],
                c,
            ),
    decreases s,
{
    if s.len() > 0 {
        lemma_shift_children_index(s.skip(1), c);
        assert forall|i: int| 0 <= i < s.len() implies #[trigger] shift_children_view(s, c)[i]
            == shift_node_view(s[i], c) by {
            if i > 0 {
                assert(shift_children_view(s, c)[i] == shift_children_view(s.skip(1), c)[i - 1]);
                assert(s.skip(1)[i - 1] == s[i]);
            }
        }
    }
}

/// One change keeps two non-overlapping siblings non-overlapping.
proof fn lemma_apply_change_pairwise(c: Change, x: NodeView, y: NodeView)
    requires
        c.wf(),
        wf_view(x),
        wf_view(y),
        x.range_end <= y.range_start,
        !spec_change_clips(c, x.range_start, x.range_end),
        !spec_change_clips(c, y.range_start, y.range_end),
    ensures
        apply_change_view(c, x).range_end <= apply_change_view(c, y).range_start,
{
}

/// One change keeps a well-formed node well-formed, and keeps it inside
/// the range its parent will have.
proof fn lemma_apply_change_wf(c: Change, v: NodeView)
    requires
        c.wf(),
        wf_view(v),
        !spec_change_clips(c, v.range_start, v.range_end),
        v.range_end + c.shift_bytes() <= usize::MAX / 2,
        change_rows_fit(c, v),
    ensures
        wf_view(apply_change_view(c, v)),
    decreases v,
{
    if spec_change_before(c, v.range_start) {
        lemma_shift_wf(c, v);
    } else if c.taken_end.byte < v.range_end {
        let t = apply_change_view(c, v);
        lemma_apply_change_children_props(
            c,
            v.children,
            v.range_start,
            v.range_end,
        );
    }
}

/// One change over a child list: the survivors stay well-formed, inside
/// the parent's new range, and in order; each survivor is one former
/// child transformed, and the first survivor names its origin.
proof fn lemma_apply_change_children_props(c: Change, s: Seq<NodeView>, ps: int, pe: int)
    requires
        c.wf(),
        ps <= c.start.byte,
        c.taken_end.byte <= pe,
        pe + c.shift_bytes() <= usize::MAX / 2,
        forall|i: int|
            0 <= i < s.len() ==> {
                let x = #[trigger] s[i];
                &&& wf_view(x)
                &&& ps <= x.range_start
                &&& x.range_end <= pe
                &&& change_rows_fit(c, x)
            },
        forall|i: int, j: int|
            0 <= i < j < s.len() ==> (#[trigger] s[i]).range_end <= (#[trigger] s[j]).range_start,
    ensures
        ({
            let t = apply_change_children(c, s);
            &&& forall|k: int|
                0 <= k < t.len() ==> {
                    let x = #[trigger] t[k];
                    &&& wf_view(x)
                    &&& ps <= x.range_start
                    &&& x.range_end <= pe + c.shift_bytes()
                }
            &&& forall|k1: int, k2: int|
                0 <= k1 < k2 < t.len() ==> (#[trigger] t[k1]).range_end
                    <= (#[trigger] t[k2]).range_start
            &&& (t.len() > 0 ==> exists|i: int|
                0 <= i < s.len() && !spec_change_clips(
                    c,
                    (#[trigger] s[i]).range_start,
                    s[i].range_end,
                ) && t[0] == apply_change_view(c, s[i]))
        }),
    decreases s,
{
    if s.len() > 0 {
        let rest = apply_change_children(c, s.skip(1));
        assert(s.skip(1).len() == s.len() - 1);
        assert(forall|i: int| 0 <= i < s.skip(1).len() ==> #[trigger] s.skip(1)[i] == s[i + 1]);
        lemma_apply_change_children_props(c, s.skip(1), ps, pe);
        let x = s[0];
        if !spec_change_clips(c, x.range_start, x.range_end) {
            let t = apply_change_children(c, s);
            let hx = apply_change_view(c, x);
            assert(t =~= seq![hx] + rest);
            lemma_apply_change_wf(c, x);
            if spec_change_before(c, x.range_start) {
                lemma_shift_wf(c, x);
            }
            if rest.len() > 0 {
                let i = choose|i: int|
                    0 <= i < s.skip(1).len() && !spec_change_clips(
                        c,
                        (#[trigger] s.skip(1)[i]).range_start,
                        s.skip(1)[i].range_end,
                    ) && rest[0] == apply_change_view(c, s.skip(1)[i]);
                lemma_apply_change_pairwise(c, x, s[i + 1]);
            }
            assert forall|k1: int, k2: int| 0 <= k1 < k2 < t.len() implies (
            #[trigger] t[k1]).range_end <= (#[trigger] t[k2]).range_start by {
                if k1 > 0 {
                    assert(t[k1] == rest[k1 - 1] && t[k2] == rest[k2 - 1]);
                } else if k2 > 1 {
                    assert(t[k2] == rest[k2 - 1]);
                    assert(rest[0].range_end <= rest[k2 - 1].range_start);
                    assert(t[0].range_end <= rest[0].range_start);
                    assert(wf_view(rest[0]));
                }
            }
        }
    }
}

/// The net effect of a whole moment on a top-level node's end: the sum
/// of the changes' byte shifts.
proof fn lemma_moment_view_end(changes: Seq<Change>, v: NodeView)
    ensures
        apply_moment_view(changes, v).range_start == v.range_start,
        apply_moment_view(changes, v).range_end == v.range_end + crate::change::net_shift_bytes_of(
            changes,
        ),
        apply_moment_view(changes, v).off_row == v.off_row,
        apply_moment_view(changes, v).off_col == v.off_col,
    decreases changes.len(),
{
    if changes.len() > 0 {
        let c = changes[0];
        let v1 = NodeView {
            range_end: v.range_end + c.shift_bytes(),
            children: apply_change_children(c, v.children),
            ..v
        };
        lemma_moment_view_end(changes.skip(1), v1);
    }
}

/// Applies one change to a node that the change does not clip: a change
/// entirely before the node shifts the whole subtree in one step; a
/// change reaching into it is handed to the native tree, moves the
/// node's end by the net shift and is propagated to the children,
/// destroying the clipped ones; a change entirely after it changes
/// nothing.
pub fn apply_change_node(n: TsParser, c: &Change) -> (r: TsParser)
    requires
        c.wf(),
        wf_view(n.view()),
        !spec_change_clips(*c, n.view().range_start, n.view().range_end),
        n.view().range_end + c.shift_bytes() <= usize::MAX / 2,
        change_rows_fit(*c, n.view()),
    ensures
        r.view() == apply_change_view(*c, n.view()),
        r.lang == n.lang,
        r.tree == n.tree,
        r.tagger == n.tagger,
        spec_change_before(*c, n.view().range_start) || c.taken_end.byte >= n.view().range_end
            ==> same_native_state(r, n),
    decreases n,
{
    if c.start.byte < n.range_start && c.taken_end.byte <= n.range_start {
        shift_subtree(n, c)
    } else if c.taken_end.byte < n.range_end {
        proof {
            lemma_views_of(n.sub_trees@);
        }
        let edit = input_edit(c, RowCol { row: n.off_row, col: n.off_col }, n.range_start);
        let TsParser {
            lang,
            range_start,
            range_end,
            off_row,
            off_col,
            tree,
            ids,
            has_pending_diff: _,
            tagger,
            injection_query,
            native,
            sub_trees,
        } = n;
        let mut native = native;
        native.edit(&edit);
        native.clear_old();
        let new_end = range_end - c.taken_end.byte + c.added_end.byte;
        let mut kids = sub_trees;
        let ghost kids0 = kids@;
        let mut out: Vec<TsParser> = Vec::new();
        while kids.len() > 0
            invariant
                c.wf(),
                kids@.len() <= kids0.len(),
                kids@ =~= kids0.skip(kids0.len() - kids@.len()),
                kids0 == n.sub_trees@,
                wf_view(n.view()),
                !spec_change_clips(*c, n.view().range_start, n.view().range_end),
                n.view().range_end + c.shift_bytes() <= usize::MAX / 2,
                change_rows_fit(*c, n.view()),
                c.taken_end.byte < n.view().range_end,
                views_of(out@) + apply_change_children(*c, views_of(kids@))
                    =~= apply_change_children(*c, views_of(kids0)),
            decreases kids@.len(),
        {
            let ghost pre = kids@;
            let k = kids.remove(0);
            proof {
                lemma_views_of(pre);
                lemma_views_of(kids@);
                lemma_views_of(kids0);
                assert(k == pre[0]);
                assert(kids0.skip(kids0.len() - pre.len())[0] == kids0[kids0.len() - pre.len()]);
                assert(k == n.sub_trees@[kids0.len() - pre.len()]);
                assert(k.view() == n.view().children[kids0.len() - pre.len()]);
                assert(views_of(pre)[0] == k.view());
                assert(views_of(pre).skip(1) =~= views_of(kids@));
            }
            if change_clips(c, k.range_start, k.range_end) {
                proof {
                    assert(apply_change_children(*c, views_of(pre)) =~= apply_change_children(
                        *c,
                        views_of(kids@),
                    ));
                }
            } else {
                let k2 = apply_change_node(k, c);
                let ghost out0 = out@;
                out.push(k2);
                proof {
                    lemma_views_of_push(out0, k2);
                    assert(apply_change_children(*c, views_of(pre)) =~= seq![
                        apply_change_view(*c, k.view()),
                    ] + apply_change_children(*c, views_of(kids@)));
                    assert(views_of(out@) + apply_change_children(*c, views_of(kids@))
                        =~= views_of(out0) + apply_change_children(*c, views_of(pre)));
                }
            }
        }
        let r = TsParser {
            lang,
            range_start,
            range_end: new_end,
            off_row,
            off_col,
            tree,
            ids,
            has_pending_diff: false,
            tagger,
            injection_query,
            native,
            sub_trees: out,
        };
        proof {
            assert(views_of(kids@) =~= Seq::<NodeView>::empty());
            assert(apply_change_children(*c, views_of(kids@)) =~= Seq::<NodeView>::empty());
            assert(views_of(out@) =~= apply_change_children(*c, views_of(kids0)));
            assert(r.view() =~= apply_change_view(*c, n.view()));
        }
        r
    } else {
        proof {
            lemma_same_native_refl(n);
        }
        n
    }
}

impl TsParser {
    /// Applies a whole moment to this node and its descendants: each
    /// change, in ascending order, is handed to the native tree, moves
    /// this node's end by its net shift and is propagated through the
    /// children (clipped ones destroyed, ones behind the change shifted
    /// in one batched step, the one overlapping it edited recursively).
    /// Range containment over the whole forest is preserved.
    #[verifier::rlimit(80)]
    pub fn apply_moment(self, m: &Moment) -> (r: TsParser)
        requires
            m.wf(),
            wf_view(self.view()),
            crate::change::moment_fits(m.changes@, self.view().range_end as int),
            moment_rows_fit(m.changes@, self.view()),
        ensures
            r.view() == apply_moment_view(m.changes@, self.view()),
            wf_view(r.view()),
            r.view().range_start == self.view().range_start,
            r.view().range_end == self.view().range_end + crate::change::net_shift_bytes_of(
                m.changes@,
            ),
            r.lang == self.lang,
            r.tree == self.tree,
            r.tagger == self.tagger,
    {
        proof {
            lemma_moment_view_end(m.changes@, self.view());
            assert(m.changes@.skip(0) =~= m.changes@);
        }
        let mut cur = self;
        let mut i: usize = 0;
        while i < m.changes.len()
            invariant
                m.wf(),
                i <= m.changes@.len(),
                wf_view(cur.view()),
                crate::change::moment_fits(
                    m.changes@.skip(i as int),
                    cur.view().range_end as int,
                ),
                moment_rows_fit(m.changes@.skip(i as int), cur.view()),
                apply_moment_view(m.changes@, self.view()) == apply_moment_view(
                    m.changes@.skip(i as int),
                    cur.view(),
                ),
                cur.lang == self.lang,
                cur.tree == self.tree,
                cur.tagger == self.tagger,
                cur.view().range_start == self.view().range_start,
                forall|k: int|
                    i <= k < m.changes@.len() ==> #[trigger] m.changes@[k] == m.changes@.skip(
                        i as int,
                    )[k - i],
            decreases m.changes@.len() - i,
        {
            proof {
                assert(m.changes@.skip(i as int)[0] == m.changes@[i as int]);
                assert(m.changes@.skip(i as int).skip(1) =~= m.changes@.skip(i + 1));
            }
            let ghost pre = cur.view();
            let c = m.changes[i];
            let edit = input_edit(&c, RowCol { row: cur.off_row, col: cur.off_col }, cur.range_start);
            let TsParser {
                lang,
                range_start,
                range_end,
                off_row,
                off_col,
                tree,
                ids,
                has_pending_diff: _,
                tagger,
                injection_query,
                native,
                sub_trees,
            } = cur;
            let mut native = native;
            native.edit(&edit);
            native.clear_old();
            let new_end = range_end - c.taken_end.byte + c.added_end.byte;
            proof {
                lemma_views_of(sub_trees@);
            }
            let mut kids = sub_trees;
            let ghost kids0 = kids@;
            let mut out: Vec<TsParser> = Vec::new();
            while kids.len() > 0
                invariant
                    c.wf(),
                    kids@.len() <= kids0.len(),
                    kids@ =~= kids0.skip(kids0.len() - kids@.len()),
                    views_of(kids0) == pre.children,
                    wf_view(pre),
                    pre.range_start <= c.start.byte,
                    c.taken_end.byte <= pre.range_end,
                    pre.range_end + c.shift_bytes() <= usize::MAX / 2,
                    change_rows_fit(c, pre),
                    forall|q: int|
                        0 <= q < kids0.len() ==> #[trigger] kids0[q].view() == pre.children[q],
                    views_of(out@) + apply_change_children(c, views_of(kids@))
                        =~= apply_change_children(c, pre.children),
                decreases kids@.len(),
            {
                let ghost prek = kids@;
                let k = kids.remove(0);
                proof {
                    lemma_views_of(prek);
                    lemma_views_of(kids@);
                    lemma_views_of(kids0);
                    assert(k == prek[0]);
                    assert(kids0.skip(kids0.len() - prek.len())[0] == kids0[kids0.len()
                        - prek.len()]);
                    assert(k == kids0[kids0.len() - prek.len()]);
                    assert(k.view() == pre.children[kids0.len() - prek.len()]);
                    assert(views_of(prek)[0] == k.view());
                    assert(views_of(prek).skip(1) =~= views_of(kids@));
                    assert(wf_view(k.view()));
                    assert(change_rows_fit(c, k.view()));
                    assert(k.view().range_end <= pre.range_end);
                }
                if change_clips(&c, k.range_start, k.range_end) {
                    proof {
                        assert(apply_change_children(c, views_of(prek)) =~= apply_change_children(
                            c,
                            views_of(kids@),
                        ));
                    }
                } else {
                    let k2 = apply_change_node(k, &c);
                    let ghost out0 = out@;
                    out.push(k2);
                    proof {
                        lemma_views_of_push(out0, k2);
                        assert(apply_change_children(c, views_of(prek)) =~= seq![
                            apply_change_view(c, k.view()),
                        ] + apply_change_children(c, views_of(kids@)));
                        assert(views_of(out@) + apply_change_children(c, views_of(kids@))
                            =~= views_of(out0) + apply_change_children(c, views_of(prek)));
                    }
                }
            }
            cur = TsParser {
                lang,
                range_start,
                range_end: new_end,
                off_row,
                off_col,
                tree,
                ids,
                has_pending_diff: false,
                tagger,
                injection_query,
                native,
                sub_trees: out,
            };
            proof {
                assert(views_of(kids@) =~= Seq::<NodeView>::empty());
                assert(apply_change_children(c, views_of(kids@)) =~= Seq::<NodeView>::empty());
                assert(views_of(out@) =~= apply_change_children(c, pre.children));
                let v1 = NodeView {
                    range_end: pre.range_end + c.shift_bytes(),
                    children: apply_change_children(c, pre.children),
                    ..pre
                };
                assert(cur.view() =~= v1);
                lemma_apply_change_children_props(
                    c,
                    pre.children,
                    pre.range_start,
                    pre.range_end,
                );
                assert(wf_view(cur.view()));
            }
            i = i + 1;
        }
        proof {
            assert(m.changes@.skip(m.changes@.len() as int) =~= Seq::<Change>::empty());
        }
        cur
    }
}

} // verus!
