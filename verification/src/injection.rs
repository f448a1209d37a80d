//! The injection resolver: turns injection-query matches into resolved
//! sub-tree requests and reconciles a node's existing sub-trees against
//! them, keyed by range start.

use vstd::prelude::*;

use crate::bytes::bytes_eq;
use crate::bytes::slice_of;
use crate::capnames::injection_content_name;
use crate::capnames::injection_language_name;
use crate::capnames::injection_query_name;
use crate::query::QueryProp;
use crate::query::props_value;
use crate::text::TextBuf;

verus! {

/// One capture of an injection-query match, carrying the captured
/// node's position (the node itself belongs to the native tree).
#[derive(Clone, Copy, PartialEq, Eq, Structural, Debug)]
pub struct InjCapture {
    pub capture: usize,
    pub start_byte: usize,
    pub end_byte: usize,
    pub start_row: usize,
    pub start_col: usize,
}

/// One match of the injection query.
#[derive(Clone, Debug)]
pub struct InjMatch {
    pub pattern: usize,
    pub captures: Vec<InjCapture>,
}

/// A resolved injection: a byte range that needs a sub-tree of the
/// given language, with the row/column where the range starts and an
/// optional language-specific injection-query override.
#[derive(Clone, Debug)]
pub struct Resolved {
    pub start: usize,
    pub end: usize,
    pub row: usize,
    pub col: usize,
    pub lang: Vec<u8>,
    pub query_override: Option<Vec<u8>>,
}

/// An existing sub-tree as reconciliation sees it.
#[derive(Clone, Debug)]
pub struct ChildInfo {
    pub start: usize,
    pub end: usize,
    pub lang: Vec<u8>,
}

/// What reconciliation decides for one existing sub-tree.
#[derive(Clone, Copy, PartialEq, Eq, Structural, Debug)]
pub enum ChildAction {
    /// A resolved injection with the same start and language exists:
    /// keep the sub-tree and recurse highlighting into it.
    KeepRecurse,
    /// A resolved injection with the same start but another language
    /// exists: destroy the sub-tree; a new one is built in its place.
    Replace,
    /// Nothing resolved here and the sub-tree lies inside the
    /// requested window: the injection is gone, destroy the sub-tree.
    Remove,
    /// Nothing resolved here but the sub-tree lies outside the window:
    /// keep it, it is merely out of this call's scope.
    KeepOutside,
}

/// The first resolved entry with the given start.
pub open spec fn spec_find_resolved(resolved: Seq<Resolved>, start: usize) -> Option<int>
    decreases resolved.len(),
{
    if resolved.len() == 0 {
        None
    } else if resolved[0].start == start {
        Some(0)
    } else {
        match spec_find_resolved(resolved.skip(1), start) {
            Some(i) => Some(i + 1),
            None => None,
        }
    }
}

/// The first child with the given start.
pub open spec fn spec_find_child(children: Seq<ChildInfo>, start: usize) -> Option<int>
    decreases children.len(),
{
    if children.len() == 0 {
        None
    } else if children[0].start == start {
        Some(0)
    } else {
        match spec_find_child(children.skip(1), start) {
            Some(i) => Some(i + 1),
            None => None,
        }
    }
}

/// What reconciliation decides for child `i`, keyed by range start:
/// a matching start keeps (same language) or replaces (other
/// language); no matching start removes the child when it sits inside
/// the window and keeps it otherwise.
pub open spec fn spec_child_action(
    children: Seq<ChildInfo>,
    resolved: Seq<Resolved>,
    w0: int,
    w1: int,
    i: int,
) -> ChildAction {
    let c = children[i];
    match spec_find_resolved(resolved, c.start) {
        Some(j) => if resolved[j].lang@ == c.lang@ {
            ChildAction::KeepRecurse
        } else {
            ChildAction::Replace
        },
        None => if w0 <= c.start && c.end <= w1 {
            ChildAction::Remove
        } else {
            ChildAction::KeepOutside
        },
    }
}

/// Whether resolved entry `j` needs a new sub-tree: no child starts
/// there, or the child starting there has another language.
pub open spec fn spec_add_needed(children: Seq<ChildInfo>, resolved: Seq<Resolved>, j: int) -> bool {
    match spec_find_child(children, resolved[j].start) {
        Some(i) => children[i].lang@ != resolved[j].lang@,
        None => true,
    }
}

/// First-match search over the resolved list.
fn find_resolved(resolved: &Vec<Resolved>, start: usize) -> (r: Option<usize>)
    ensures
        match r {
            Some(i) => spec_find_resolved(resolved@, start) == Some(i as int) && i
                < resolved@.len(),
            None => spec_find_resolved(resolved@, start) is None,
        },
{
    let mut i: usize = 0;
    while i < resolved.len()
        invariant
            i <= resolved@.len(),
            forall|k: int| 0 <= k < i ==> (#[trigger] resolved@[k]).start != start,
        decreases resolved@.len() - i,
    {
        if resolved[i].start == start {
            proof {
                lemma_find_resolved_first(resolved@, start, i as int);
            }
            return Some(i);
        }
        i = i + 1;
    }
    proof {
        lemma_find_resolved_none(resolved@, start);
    }
    None
}

/// First-match search over the children list.
fn find_child(children: &Vec<ChildInfo>, start: usize) -> (r: Option<usize>)
    ensures
        match r {
            Some(i) => spec_find_child(children@, start) == Some(i as int) && i < children@.len(),
            None => spec_find_child(children@, start) is None,
        },
{
    let mut i: usize = 0;
    while i < children.len()
        invariant
            i <= children@.len(),
            forall|k: int| 0 <= k < i ==> (#[trigger] children@[k]).start != start,
        decreases children@.len() - i,
    {
        if children[i].start == start {
            proof {
                lemma_find_child_first(children@, start, i as int);
            }
            return Some(i);
        }
        i = i + 1;
    }
    proof {
        lemma_find_child_none(children@, start);
    }
    None
}

proof fn lemma_find_resolved_first(resolved: Seq<Resolved>, start: usize, i: int)
    requires
        0 <= i < resolved.len(),
        resolved[i].start == start,
        forall|k: int| 0 <= k < i ==> (#[trigger] resolved[k]).start != start,
    ensures
        spec_find_resolved(resolved, start) == Some(i),
    decreases i,
{
    if i == 0 {
    } else {
        lemma_find_resolved_first(resolved.skip(1), start, i - 1);
        assert(forall|k: int|
            0 <= k < i - 1 ==> (#[trigger] resolved.skip(1)[k]).start == resolved[k + 1].start);
    }
}

proof fn lemma_find_resolved_none(resolved: Seq<Resolved>, start: usize)
    requires
        forall|k: int| 0 <= k < resolved.len() ==> (#[trigger] resolved[k]).start != start,
    ensures
        spec_find_resolved(resolved, start) is None,
    decreases resolved.len(),
{
    if resolved.len() > 0 {
        lemma_find_resolved_none(resolved.skip(1), start);
    }
}

proof fn lemma_find_child_first(children: Seq<ChildInfo>, start: usize, i: int)
    requires
        0 <= i < children.len(),
        children[i].start == start,
        forall|k: int| 0 <= k < i ==> (#[trigger] children[k]).start != start,
    ensures
        spec_find_child(children, start) == Some(i),
    decreases i,
{
    if i == 0 {
    } else {
        lemma_find_child_first(children.skip(1), start, i - 1);
        assert(forall|k: int|
            0 <= k < i - 1 ==> (#[trigger] children.skip(1)[k]).start == children[k + 1].start);
    }
}

proof fn lemma_find_child_none(children: Seq<ChildInfo>, start: usize)
    requires
        forall|k: int| 0 <= k < children.len() ==> (#[trigger] children[k]).start != start,
    ensures
        spec_find_child(children, start) is None,
    decreases children.len(),
{
    if children.len() > 0 {
        lemma_find_child_none(children.skip(1), start);
    }
}

/// Reconciles existing sub-trees against the resolved injections: one
/// action per child, and the indices of the resolved entries that need
/// a new sub-tree, in ascending order.
pub fn reconcile(children: &Vec<ChildInfo>, resolved: &Vec<Resolved>, w0: usize, w1: usize) -> (r:
    (Vec<ChildAction>, Vec<usize>))
    ensures
        r.0@.len() == children@.len(),
        forall|i: int|
            0 <= i < children@.len() ==> r.0@[i] == spec_child_action(
                children@,
                resolved@,
                w0 as int,
                w1 as int,
                i,
            ),
        forall|k: int| 0 <= k < r.1@.len() ==> 0 <= #[trigger] r.1@[k] < resolved@.len(),
        forall|k1: int, k2: int| 0 <= k1 < k2 < r.1@.len() ==> r.1@[k1] < r.1@[k2],
        forall|j: int|
            0 <= j < resolved@.len() ==> (r.1@.contains(j as usize) <==> spec_add_needed(
                children@,
                resolved@,
                j,
            )),
{
    let mut actions: Vec<ChildAction> = Vec::new();
    let mut i: usize = 0;
    while i < children.len()
        invariant
            i <= children@.len(),
            actions@.len() == i,
            forall|k: int|
                0 <= k < i ==> actions@[k] == spec_child_action(
                    children@,
                    resolved@,
                    w0 as int,
                    w1 as int,
                    k,
                ),
        decreases children@.len() - i,
    {
        let c = &children[i];
        let act = match find_resolved(resolved, c.start) {
            Some(j) => {
                if bytes_eq(&resolved[j].lang, &c.lang) {
                    ChildAction::KeepRecurse
                } else {
                    ChildAction::Replace
                }
            },
            None => {
                if w0 <= c.start && c.end <= w1 {
                    ChildAction::Remove
                } else {
                    ChildAction::KeepOutside
                }
            },
        };
        actions.push(act);
        i = i + 1;
    }
    let mut adds: Vec<usize> = Vec::new();
    let mut j: usize = 0;
    while j < resolved.len()
        invariant
            j <= resolved@.len(),
            forall|k: int| 0 <= k < adds@.len() ==> 0 <= #[trigger] adds@[k] < j,
            forall|k1: int, k2: int| 0 <= k1 < k2 < adds@.len() ==> adds@[k1] < adds@[k2],
            forall|jj: int|
                0 <= jj < j ==> (adds@.contains(jj as usize) <==> spec_add_needed(
                    children@,
                    resolved@,
                    jj,
                )),
        decreases resolved@.len() - j,
    {
        let needed = match find_child(children, resolved[j].start) {
            Some(i2) => !bytes_eq(&children[i2].lang, &resolved[j].lang),
            None => true,
        };
        let ghost adds0 = adds@;
        if needed {
            adds.push(j);
        }
        proof {
            assert forall|jj: int|
                0 <= jj < j + 1 implies (adds@.contains(jj as usize) <==> spec_add_needed(
                children@,
                resolved@,
                jj,
            )) by {
                if jj < j {
                    assert(adds0.contains(jj as usize) <==> spec_add_needed(
                        children@,
                        resolved@,
                        jj,
                    ));
                    if adds0.contains(jj as usize) {
                        let k = choose|k: int| 0 <= k < adds0.len() && adds0[k] == jj as usize;
                        assert(adds@[k] == jj as usize);
                    }
                    if adds@.contains(jj as usize) {
                        let k = choose|k: int| 0 <= k < adds@.len() && adds@[k] == jj as usize;
                        assert(k < adds0.len() || adds@[k] == j);
                        if k < adds0.len() {
                            assert(adds0[k] == jj as usize);
                        }
                    }
                } else {
                    if needed {
                        assert(adds@[adds@.len() - 1] == j);
                    } else {
                        if adds@.contains(jj as usize) {
                            let k = choose|k: int| 0 <= k < adds@.len() && adds@[k] == jj as usize;
                            assert(adds@[k] < j);
                        }
                    }
                }
            }
        }
        j = j + 1;
    }
    (actions, adds)
}

/// The state reconciliation reaches is stable: a list of sub-trees
/// holding exactly the kept children and the required additions
/// reconciles, against the same resolved injections, to keep-decisions
/// only and no additions. Running a highlight pass twice over the same
/// unchanged range therefore leaves the same sub-tree list.
#[verifier::rlimit(80)]
pub proof fn lemma_reconcile_idempotent(
    children: Seq<ChildInfo>,
    resolved: Seq<Resolved>,
    w0: int,
    w1: int,
    children2: Seq<ChildInfo>,
)
    requires
        forall|i1: int, i2: int|
            0 <= i1 < i2 < children.len() ==> (#[trigger] children[i1]).start
                != (#[trigger] children[i2]).start,
        forall|j1: int, j2: int|
            0 <= j1 < j2 < resolved.len() ==> (#[trigger] resolved[j1]).start
                != (#[trigger] resolved[j2]).start,
        // children2 holds only kept children and required additions:
        forall|i2: int|
            #![trigger children2[i2]]
            0 <= i2 < children2.len() ==> ((exists|i: int|
                0 <= i < children.len() && (#[trigger] children[i]).start == children2[i2].start
                    && children[i].end == children2[i2].end && children[i].lang@
                    == children2[i2].lang@ && (spec_child_action(children, resolved, w0, w1, i)
                    == ChildAction::KeepRecurse || spec_child_action(children, resolved, w0, w1, i)
                    == ChildAction::KeepOutside)) || (exists|j: int|
                0 <= j < resolved.len() && spec_add_needed(children, resolved, j) && (
                #[trigger] resolved[j]).start == children2[i2].start && resolved[j].lang@
                    == children2[i2].lang@)),
        // and it holds every required addition:
        forall|j: int|
            0 <= j < resolved.len() && spec_add_needed(children, resolved, j) ==> exists|i2: int|
                0 <= i2 < children2.len() && (#[trigger] children2[i2]).start == resolved[j].start
                    && children2[i2].lang@ == resolved[j].lang@,
        // and every kept child:
        forall|i: int|
            0 <= i < children.len() && (spec_child_action(children, resolved, w0, w1, i)
                == ChildAction::KeepRecurse || spec_child_action(children, resolved, w0, w1, i)
                == ChildAction::KeepOutside) ==> exists|i2: int|
                0 <= i2 < children2.len() && (#[trigger] children2[i2]).start
                    == children[i].start && children2[i2].lang@ == children[i].lang@,
    ensures
        forall|i2: int|
            0 <= i2 < children2.len() ==> (spec_child_action(children2, resolved, w0, w1, i2)
                == ChildAction::KeepRecurse || spec_child_action(children2, resolved, w0, w1, i2)
                == ChildAction::KeepOutside),
        forall|j: int| 0 <= j < resolved.len() ==> !spec_add_needed(children2, resolved, j),
{
    assert forall|i2: int| 0 <= i2 < children2.len() implies (spec_child_action(
        children2,
        resolved,
        w0,
        w1,
        i2,
    ) == ChildAction::KeepRecurse || spec_child_action(children2, resolved, w0, w1, i2)
        == ChildAction::KeepOutside) by {
        let c2 = children2[i2];
        if exists|i: int|
            0 <= i < children.len() && (#[trigger] children[i]).start == c2.start && children[i].end
                == c2.end && children[i].lang@ == c2.lang@ && (spec_child_action(
                children,
                resolved,
                w0,
                w1,
                i,
            ) == ChildAction::KeepRecurse || spec_child_action(children, resolved, w0, w1, i)
                == ChildAction::KeepOutside) {
            let i = choose|i: int|
                0 <= i < children.len() && (#[trigger] children[i]).start == c2.start
                    && children[i].end == c2.end && children[i].lang@ == c2.lang@ && (
                spec_child_action(children, resolved, w0, w1, i) == ChildAction::KeepRecurse
                    || spec_child_action(children, resolved, w0, w1, i)
                    == ChildAction::KeepOutside);
            match spec_find_resolved(resolved, c2.start) {
                Some(j) => {
                    lemma_find_resolved_hit(resolved, c2.start, j);
                    assert(resolved[j].lang@ == c2.lang@);
                },
                None => {},
            }
        } else {
            let j = choose|j: int|
                0 <= j < resolved.len() && spec_add_needed(children, resolved, j) && (
                #[trigger] resolved[j]).start == c2.start && resolved[j].lang@ == c2.lang@;
            match spec_find_resolved(resolved, c2.start) {
                Some(j2) => {
                    lemma_find_resolved_hit(resolved, c2.start, j2);
                    if j2 != j {
                        assert(resolved[j2].start == resolved[j].start);
                        assert(false);
                    }
                },
                None => {
                    lemma_find_resolved_miss(resolved, c2.start, j);
                },
            }
        }
    }
    assert forall|j: int| 0 <= j < resolved.len() implies !spec_add_needed(
        children2,
        resolved,
        j,
    ) by {
        if spec_add_needed(children, resolved, j) {
            let i2 = choose|i2: int|
                0 <= i2 < children2.len() && (#[trigger] children2[i2]).start == resolved[j].start
                    && children2[i2].lang@ == resolved[j].lang@;
            match spec_find_child(children2, resolved[j].start) {
                Some(ic) => {
                    lemma_find_child_hit(children2, resolved[j].start, ic);
                    lemma_child2_same_start_same_lang(
                        children,
                        resolved,
                        w0,
                        w1,
                        children2,
                        ic,
                        i2,
                    );
                },
                None => {
                    lemma_find_child_miss(children2, resolved[j].start, i2);
                },
            }
        } else {
            // a child with this start and language was kept
            let i = spec_find_child(children, resolved[j].start).unwrap();
            lemma_find_child_hit(children, resolved[j].start, i);
            lemma_find_resolved_present(resolved, j);
            assert(spec_child_action(children, resolved, w0, w1, i) == ChildAction::KeepRecurse);
            assert(exists|i2: int|
                0 <= i2 < children2.len() && (#[trigger] children2[i2]).start == children[i].start
                    && children2[i2].lang@ == children[i].lang@);
            let i2 = choose|i2: int|
                0 <= i2 < children2.len() && (#[trigger] children2[i2]).start == children[i].start
                    && children2[i2].lang@ == children[i].lang@;
            assert(children2[i2].start == resolved[j].start);
            match spec_find_child(children2, resolved[j].start) {
                Some(ic) => {
                    lemma_find_child_hit(children2, resolved[j].start, ic);
                    lemma_child2_same_start_same_lang(
                        children,
                        resolved,
                        w0,
                        w1,
                        children2,
                        ic,
                        i2,
                    );
                },
                None => {
                    lemma_find_child_miss(children2, resolved[j].start, i2);
                },
            }
        }
    }
}

/// A kept child stays findable: the requirement that reconciliation's
/// kept-or-added state preserves starts means two entries of the new
/// list with equal start also agree on language.
proof fn lemma_child2_same_start_same_lang(
    children: Seq<ChildInfo>,
    resolved: Seq<Resolved>,
    w0: int,
    w1: int,
    children2: Seq<ChildInfo>,
    a: int,
    b: int,
)
    requires
        forall|i1: int, i2: int|
            0 <= i1 < i2 < children.len() ==> (#[trigger] children[i1]).start
                != (#[trigger] children[i2]).start,
        forall|j1: int, j2: int|
            0 <= j1 < j2 < resolved.len() ==> (#[trigger] resolved[j1]).start
                != (#[trigger] resolved[j2]).start,
        forall|i2: int|
            #![trigger children2[i2]]
            0 <= i2 < children2.len() ==> ((exists|i: int|
                0 <= i < children.len() && (#[trigger] children[i]).start == children2[i2].start
                    && children[i].end == children2[i2].end && children[i].lang@
                    == children2[i2].lang@ && (spec_child_action(children, resolved, w0, w1, i)
                    == ChildAction::KeepRecurse || spec_child_action(children, resolved, w0, w1, i)
                    == ChildAction::KeepOutside)) || (exists|j: int|
                0 <= j < resolved.len() && spec_add_needed(children, resolved, j) && (
                #[trigger] resolved[j]).start == children2[i2].start && resolved[j].lang@
                    == children2[i2].lang@)),
        0 <= a < children2.len(),
        0 <= b < children2.len(),
        children2[a].start == children2[b].start,
    ensures
        children2[a].lang@ == children2[b].lang@,
{
    let s = children2[a].start;
    lemma_child2_entry_lang(children, resolved, w0, w1, children2, a);
    lemma_child2_entry_lang(children, resolved, w0, w1, children2, b);
}

/// Each entry of the kept-or-added state carries the one language that
/// reconciliation assigns to its start.
proof fn lemma_child2_entry_lang(
    children: Seq<ChildInfo>,
    resolved: Seq<Resolved>,
    w0: int,
    w1: int,
    children2: Seq<ChildInfo>,
    a: int,
)
    requires
        forall|i1: int, i2: int|
            0 <= i1 < i2 < children.len() ==> (#[trigger] children[i1]).start
                != (#[trigger] children[i2]).start,
        forall|j1: int, j2: int|
            0 <= j1 < j2 < resolved.len() ==> (#[trigger] resolved[j1]).start
                != (#[trigger] resolved[j2]).start,
        forall|i2: int|
            #![trigger children2[i2]]
            0 <= i2 < children2.len() ==> ((exists|i: int|
                0 <= i < children.len() && (#[trigger] children[i]).start == children2[i2].start
                    && children[i].end == children2[i2].end && children[i].lang@
                    == children2[i2].lang@ && (spec_child_action(children, resolved, w0, w1, i)
                    == ChildAction::KeepRecurse || spec_child_action(children, resolved, w0, w1, i)
                    == ChildAction::KeepOutside)) || (exists|j: int|
                0 <= j < resolved.len() && spec_add_needed(children, resolved, j) && (
                #[trigger] resolved[j]).start == children2[i2].start && resolved[j].lang@
                    == children2[i2].lang@)),
        0 <= a < children2.len(),
    ensures
        children2[a].lang@ == spec_lang_at(children, resolved, w0, w1, children2[a].start),
{
    let s = children2[a].start;
    if exists|i: int|
        0 <= i < children.len() && (#[trigger] children[i]).start == s && children[i].end
            == children2[a].end && children[i].lang@ == children2[a].lang@ && (spec_child_action(
            children,
            resolved,
            w0,
            w1,
            i,
        ) == ChildAction::KeepRecurse || spec_child_action(children, resolved, w0, w1, i)
            == ChildAction::KeepOutside) {
        let i = choose|i: int|
            0 <= i < children.len() && (#[trigger] children[i]).start == s && children[i].end
                == children2[a].end && children[i].lang@ == children2[a].lang@ && (
            spec_child_action(children, resolved, w0, w1, i) == ChildAction::KeepRecurse
                || spec_child_action(children, resolved, w0, w1, i) == ChildAction::KeepOutside);
        match spec_find_resolved(resolved, s) {
            Some(j) => {
                lemma_find_resolved_hit(resolved, s, j);
                assert(children2[a].lang@ == resolved[j].lang@);
            },
            None => {
                match spec_find_child(children, s) {
                    Some(ic) => {
                        lemma_find_child_hit(children, s, ic);
                        if ic != i {
                            assert(children[ic].start == children[i].start);
                            assert(false);
                        }
                    },
                    None => {
                        lemma_find_child_miss(children, s, i);
                    },
                }
            },
        }
    } else {
        let j = choose|j: int|
            0 <= j < resolved.len() && spec_add_needed(children, resolved, j) && (
            #[trigger] resolved[j]).start == s && resolved[j].lang@ == children2[a].lang@;
        match spec_find_resolved(resolved, s) {
            Some(j2) => {
                lemma_find_resolved_hit(resolved, s, j2);
                if j2 != j {
                    assert(resolved[j2].start == resolved[j].start);
                    assert(false);
                }
            },
            None => {
                lemma_find_resolved_miss(resolved, s, j);
            },
        }
    }
}

/// The language reconciliation assigns to a start: the resolved entry
/// there if any, else the existing child's.
pub open spec fn spec_lang_at(
    children: Seq<ChildInfo>,
    resolved: Seq<Resolved>,
    w0: int,
    w1: int,
    start: usize,
) -> Seq<u8> {
    match spec_find_resolved(resolved, start) {
        Some(j) => resolved[j].lang@,
        None => match spec_find_child(children, start) {
            Some(i) => children[i].lang@,
            None => Seq::empty(),
        },
    }
}

proof fn lemma_find_resolved_hit(resolved: Seq<Resolved>, start: usize, j: int)
    requires
        spec_find_resolved(resolved, start) == Some(j),
    ensures
        0 <= j < resolved.len(),
        resolved[j].start == start,
    decreases resolved.len(),
{
    if resolved.len() > 0 && resolved[0].start != start {
        let inner = spec_find_resolved(resolved.skip(1), start);
        lemma_find_resolved_hit(resolved.skip(1), start, j - 1);
    }
}

proof fn lemma_find_resolved_miss(resolved: Seq<Resolved>, start: usize, j: int)
    requires
        0 <= j < resolved.len(),
        resolved[j].start == start,
    ensures
        spec_find_resolved(resolved, start) is Some,
    decreases j,
{
    if resolved[0].start != start {
        lemma_find_resolved_miss(resolved.skip(1), start, j - 1);
    }
}

proof fn lemma_find_child_hit(children: Seq<ChildInfo>, start: usize, i: int)
    requires
        spec_find_child(children, start) == Some(i),
    ensures
        0 <= i < children.len(),
        children[i].start == start,
    decreases children.len(),
{
    if children.len() > 0 && children[0].start != start {
        lemma_find_child_hit(children.skip(1), start, i - 1);
    }
}

proof fn lemma_find_child_miss(children: Seq<ChildInfo>, start: usize, i: int)
    requires
        0 <= i < children.len(),
        children[i].start == start,
    ensures
        spec_find_child(children, start) is Some,
    decreases i,
{
    if children[0].start != start {
        lemma_find_child_miss(children.skip(1), start, i - 1);
    }
}

proof fn lemma_find_resolved_present(resolved: Seq<Resolved>, j: int)
    requires
        0 <= j < resolved.len(),
        forall|j1: int, j2: int|
            0 <= j1 < j2 < resolved.len() ==> (#[trigger] resolved[j1]).start
                != (#[trigger] resolved[j2]).start,
    ensures
        spec_find_resolved(resolved, resolved[j].start) == Some(j),
{
    lemma_find_resolved_miss(resolved, resolved[j].start, j);
    let j2 = spec_find_resolved(resolved, resolved[j].start).unwrap();
    lemma_find_resolved_hit(resolved, resolved[j].start, j2);
    if j2 != j {
        assert(resolved[j2].start == resolved[j].start);
        assert(false);
    }
}

/// When a sub-tree of one language stands where an injection of
/// another language is resolved, reconciliation replaces it: the old
/// sub-tree is destroyed (its tags with it) and the resolved entry is
/// among the additions that build a new sub-tree of the new language
/// at that start.
pub proof fn lemma_language_switch(
    children: Seq<ChildInfo>,
    resolved: Seq<Resolved>,
    w0: int,
    w1: int,
    i: int,
    j: int,
)
    requires
        0 <= i < children.len(),
        0 <= j < resolved.len(),
        children[i].start == resolved[j].start,
        children[i].lang@ != resolved[j].lang@,
        forall|i1: int, i2: int|
            0 <= i1 < i2 < children.len() ==> (#[trigger] children[i1]).start
                != (#[trigger] children[i2]).start,
        forall|j1: int, j2: int|
            0 <= j1 < j2 < resolved.len() ==> (#[trigger] resolved[j1]).start
                != (#[trigger] resolved[j2]).start,
    ensures
        spec_child_action(children, resolved, w0, w1, i) == ChildAction::Replace,
        spec_add_needed(children, resolved, j),
{
    lemma_find_resolved_present(resolved, j);
    lemma_find_child_miss(children, resolved[j].start, i);
    let ic = spec_find_child(children, resolved[j].start).unwrap();
    lemma_find_child_hit(children, resolved[j].start, ic);
    if ic != i {
        assert(children[ic].start == children[i].start);
        assert(false);
    }
}

/// Whether capture `ci` is the first `injection.content` capture of a
/// match.
pub open spec fn spec_first_content_capture(mt: InjMatch, names: Seq<Vec<u8>>, ci: int) -> bool {
    &&& 0 <= ci < mt.captures@.len()
    &&& mt.captures@[ci].capture < names.len()
    &&& names[mt.captures@[ci].capture as int]@ == crate::capnames::spec_injection_content_name()
    &&& forall|cj: int|
        0 <= cj < ci ==> !((#[trigger] mt.captures@[cj]).capture < names.len()
            && names[mt.captures@[cj].capture as int]@
            == crate::capnames::spec_injection_content_name())
}

/// Whether a match's target language can be determined: the pattern
/// carries an `injection.language` property with a value, or the match
/// holds an `injection.language` capture whose range reads from the
/// buffer.
pub open spec fn spec_lang_determinable(
    mt: InjMatch,
    names: Seq<Vec<u8>>,
    props: Seq<QueryProp>,
    text: Seq<u8>,
) -> bool {
    ||| crate::query::spec_props_value(
        props,
        crate::capnames::spec_injection_language_name(),
    ) is Some
    ||| exists|li: int|
        {
            &&& 0 <= li < mt.captures@.len()
            &&& (#[trigger] mt.captures@[li]).capture < names.len()
            &&& names[mt.captures@[li].capture as int]@
                == crate::capnames::spec_injection_language_name()
            &&& mt.captures@[li].start_byte <= mt.captures@[li].end_byte <= text.len()
        }
}

/// Whether some resolved entry stands at byte `x`.
pub open spec fn spec_start_listed(rs: Seq<Resolved>, x: usize) -> bool {
    exists|k: int| 0 <= k < rs.len() && (#[trigger] rs[k]).start == x
}

proof fn lemma_start_listed_insert(rs: Seq<Resolved>, lo: int, e: Resolved, x: usize)
    requires
        spec_start_listed(rs, x),
        0 <= lo <= rs.len(),
    ensures
        spec_start_listed(rs.insert(lo, e), x),
{
    let k = choose|k: int| 0 <= k < rs.len() && (#[trigger] rs[k]).start == x;
    if k < lo {
        assert(rs.insert(lo, e)[k] == rs[k]);
    } else {
        assert(rs.insert(lo, e)[k + 1] == rs[k]);
    }
}

/// Whether a resolved entry is justified by the query's matches: some
/// match holds an `injection.content` capture with exactly this range
/// and position, and the entry's language is either the value of that
/// pattern's `injection.language` property or the buffer text under an
/// `injection.language` capture of the same match. The entry's query
/// override is that pattern's `injection.query` property.
pub open spec fn spec_resolved_justified(
    matches: Seq<InjMatch>,
    names: Seq<Vec<u8>>,
    pattern_props: Seq<Vec<QueryProp>>,
    text: Seq<u8>,
    e: Resolved,
) -> bool {
    exists|m: int, ci: int|
        {
            &&& 0 <= m < matches.len()
            &&& 0 <= ci < matches[m].captures@.len()
            &&& {
                let cap = #[trigger] matches[m].captures@[ci];
                let props = if matches[m].pattern < pattern_props.len() {
                    pattern_props[matches[m].pattern as int]@
                } else {
                    Seq::empty()
                };
                &&& cap.capture < names.len()
                &&& names[cap.capture as int]@ == crate::capnames::spec_injection_content_name()
                &&& e.start == cap.start_byte
                &&& e.end == cap.end_byte
                &&& e.row == cap.start_row
                &&& e.col == cap.start_col
                &&& (crate::query::spec_props_value(
                    props,
                    crate::capnames::spec_injection_language_name(),
                ) == Some(e.lang@) || exists|li: int|
                    {
                        &&& 0 <= li < matches[m].captures@.len()
                        &&& {
                            let lcap = #[trigger] matches[m].captures@[li];
                            &&& lcap.capture < names.len()
                            &&& names[lcap.capture as int]@
                                == crate::capnames::spec_injection_language_name()
                            &&& lcap.start_byte <= lcap.end_byte <= text.len()
                            &&& e.lang@ == text.subrange(
                                lcap.start_byte as int,
                                lcap.end_byte as int,
                            )
                        }
                    })
                &&& match e.query_override {
                    Some(v) => crate::query::spec_props_value(
                        props,
                        crate::capnames::spec_injection_query_name(),
                    ) == Some(v@),
                    None => crate::query::spec_props_value(
                        props,
                        crate::capnames::spec_injection_query_name(),
                    ) is None,
                }
            }
        }
}

/// Resolves the injection-query matches over a window: for each match
/// with an `injection.content` capture, the target language comes from
/// the pattern's `injection.language` property or, failing that, from
/// the text of an `injection.language` capture; an `injection.query`
/// property names a query override for the new sub-tree alone. Entries
/// are collected sorted by range start, the first match at a start
/// winning.
pub fn resolve_injections(
    matches: &Vec<InjMatch>,
    names: &Vec<Vec<u8>>,
    pattern_props: &Vec<Vec<QueryProp>>,
    text: &TextBuf,
) -> (r: Vec<Resolved>)
    ensures
        forall|k1: int, k2: int|
            0 <= k1 < k2 < r@.len() ==> (#[trigger] r@[k1]).start < (#[trigger] r@[k2]).start,
        forall|k: int|
            0 <= k < r@.len() ==> spec_resolved_justified(
                matches@,
                names@,
                pattern_props@,
                text@,
                #[trigger] r@[k],
            ),
        forall|m: int, ci: int|
            #![trigger spec_first_content_capture(matches@[m], names@, ci)]
            0 <= m < matches@.len() && spec_first_content_capture(matches@[m], names@, ci)
                && spec_lang_determinable(
                matches@[m],
                names@,
                if matches@[m].pattern < pattern_props@.len() {
                    pattern_props@[matches@[m].pattern as int]@
                } else {
                    Seq::empty()
                },
                text@,
            ) ==> spec_start_listed(r@, matches@[m].captures@[ci].start_byte),
{
    let nm_content = injection_content_name();
    let nm_language = injection_language_name();
    let nm_query = injection_query_name();
    let empty_props: Vec<QueryProp> = Vec::new();

    let mut out: Vec<Resolved> = Vec::new();
    let mut m: usize = 0;
    while m < matches.len()
        invariant
            m <= matches@.len(),
            nm_content@ == crate::capnames::spec_injection_content_name(),
            nm_language@ == crate::capnames::spec_injection_language_name(),
            nm_query@ == crate::capnames::spec_injection_query_name(),
            empty_props@.len() == 0,
            forall|k1: int, k2: int|
                0 <= k1 < k2 < out@.len() ==> (#[trigger] out@[k1]).start < (
                #[trigger] out@[k2]).start,
            forall|k: int|
                0 <= k < out@.len() ==> spec_resolved_justified(
                    matches@,
                    names@,
                    pattern_props@,
                    text@,
                    #[trigger] out@[k],
                ),
            forall|q: int, ci: int|
                #![trigger spec_first_content_capture(matches@[q], names@, ci)]
                0 <= q < m && spec_first_content_capture(matches@[q], names@, ci)
                    && spec_lang_determinable(
                    matches@[q],
                    names@,
                    if matches@[q].pattern < pattern_props@.len() {
                        pattern_props@[matches@[q].pattern as int]@
                    } else {
                        Seq::empty()
                    },
                    text@,
                ) ==> spec_start_listed(out@, matches@[q].captures@[ci].start_byte),
        decreases matches@.len() - m,
    {
        let mt = &matches[m];
        let ghost out_at = out@;
        // the capture tagged as injection content
        let mut content: Option<(usize, InjCapture)> = None;
        let mut ci: usize = 0;
        while ci < mt.captures.len()
            invariant
                ci <= mt.captures@.len(),
                nm_content@ == crate::capnames::spec_injection_content_name(),
                content is None ==> forall|cj: int|
                    0 <= cj < ci ==> !((#[trigger] mt.captures@[cj]).capture < names@.len()
                        && names@[mt.captures@[cj].capture as int]@
                        == crate::capnames::spec_injection_content_name()),
                content matches Some((i, c)) ==> {
                    &&& i < mt.captures@.len()
                    &&& c == mt.captures@[i as int]
                    &&& c.capture < names@.len()
                    &&& names@[c.capture as int]@
                        == crate::capnames::spec_injection_content_name()
                    &&& forall|cj: int|
                        0 <= cj < i ==> !((#[trigger] mt.captures@[cj]).capture < names@.len()
                            && names@[mt.captures@[cj].capture as int]@
                            == crate::capnames::spec_injection_content_name())
                },
            decreases mt.captures@.len() - ci,
        {
            let cap = mt.captures[ci];
            if content.is_none() && cap.capture < names.len() && bytes_eq(
                &names[cap.capture],
                &nm_content,
            ) {
                content = Some((ci, cap));
            }
            ci = ci + 1;
        }
        match content {
            None => {
                proof {
                    assert(forall|ci: int|
                        !spec_first_content_capture(#[trigger] matches@[m as int], names@, ci));
                }
            },
            Some((content_idx, cap)) => {
                let props = if mt.pattern < pattern_props.len() {
                    &pattern_props[mt.pattern]
                } else {
                    &empty_props
                };
                let ghost props_view = props@;
                // language: a static property, or a sibling capture's text
                let lang: Option<Vec<u8>> = match props_value(props, &nm_language) {
                    Some(v) => Some(v),
                    None => {
                        let mut found: Option<Vec<u8>> = None;
                        let mut li: usize = 0;
                        while li < mt.captures.len()
                            invariant
                                li <= mt.captures@.len(),
                                nm_language@
                                    == crate::capnames::spec_injection_language_name(),
                                found is None ==> forall|lj: int|
                                    0 <= lj < li ==> !((#[trigger] mt.captures@[lj]).capture
                                        < names@.len() && names@[mt.captures@[lj].capture as int]@
                                        == crate::capnames::spec_injection_language_name()
                                        && mt.captures@[lj].start_byte <= mt.captures@[lj].end_byte
                                        && mt.captures@[lj].end_byte <= text@.len()),
                                found matches Some(v) ==> exists|q: int|
                                    {
                                        &&& 0 <= q < mt.captures@.len()
                                        &&& {
                                            let lcap = #[trigger] mt.captures@[q];
                                            &&& lcap.capture < names@.len()
                                            &&& names@[lcap.capture as int]@
                                                == crate::capnames::spec_injection_language_name()
                                            &&& lcap.start_byte <= lcap.end_byte <= text@.len()
                                            &&& v@ == text@.subrange(
                                                lcap.start_byte as int,
                                                lcap.end_byte as int,
                                            )
                                        }
                                    },
                            decreases mt.captures@.len() - li,
                        {
                            let lcap = mt.captures[li];
                            if found.is_none() && lcap.capture < names.len() && bytes_eq(
                                &names[lcap.capture],
                                &nm_language,
                            ) && lcap.start_byte <= lcap.end_byte && lcap.end_byte <= text.len() {
                                found = Some(slice_of(&text.bytes, lcap.start_byte, lcap.end_byte));
                                proof {
                                    assert(mt.captures@[li as int] == lcap);
                                }
                            }
                            li = li + 1;
                        }
                        found
                    },
                };
                match lang {
                    None => {
                        proof {
                            assert(!spec_lang_determinable(
                                matches@[m as int],
                                names@,
                                props_view,
                                text@,
                            ));
                        }
                    },
                    Some(lang) => {
                        let query_override = props_value(props, &nm_query);
                        // insert sorted by start; first match at a start wins
                        let mut lo: usize = 0;
                        let mut dup = false;
                        while lo < out.len() && !dup && out[lo].start < cap.start_byte
                            invariant
                                lo <= out@.len(),
                                forall|k1: int, k2: int|
                                    0 <= k1 < k2 < out@.len() ==> (#[trigger] out@[k1]).start < (
                                    #[trigger] out@[k2]).start,
                                forall|k: int|
                                    0 <= k < lo ==> (#[trigger] out@[k]).start < cap.start_byte,
                                !dup,
                            decreases out@.len() - lo,
                        {
                            lo = lo + 1;
                        }
                        if lo < out.len() && out[lo].start == cap.start_byte {
                            dup = true;
                            proof {
                                assert(out@[lo as int].start == cap.start_byte);
                                assert(spec_start_listed(out@, cap.start_byte));
                            }
                        }
                        if !dup {
                            let entry = Resolved {
                                start: cap.start_byte,
                                end: cap.end_byte,
                                row: cap.start_row,
                                col: cap.start_col,
                                lang,
                                query_override,
                            };
                            let ghost out0 = out@;
                            out.insert(lo, entry);
                            proof {
                                let mseq = matches@;
                                assert(mseq[m as int].captures@ == mt.captures@);
                                assert(mseq[m as int].captures@[content_idx as int] == cap);
                                if (mt.pattern as int) < pattern_props@.len() {
                                    assert(props_view == pattern_props@[mt.pattern as int]@);
                                } else {
                                    assert(props_view =~= Seq::<QueryProp>::empty());
                                }
                                assert(spec_resolved_justified(
                                    matches@,
                                    names@,
                                    pattern_props@,
                                    text@,
                                    entry,
                                ));
                                assert(out@[lo as int] == entry);
                                assert(spec_start_listed(out@, cap.start_byte));
                                assert forall|x: usize|
                                    spec_start_listed(out0, x) implies spec_start_listed(
                                    out@,
                                    x,
                                ) by {
                                    lemma_start_listed_insert(out0, lo as int, entry, x);
                                    assert(out@ =~= out0.insert(lo as int, entry));
                                }
                                assert forall|k: int|
                                    0 <= k < out@.len() implies spec_resolved_justified(
                                    matches@,
                                    names@,
                                    pattern_props@,
                                    text@,
                                    #[trigger] out@[k],
                                ) by {
                                    if k < lo {
                                        assert(out@[k] == out0[k]);
                                    } else if k > lo {
                                        assert(out@[k] == out0[k - 1]);
                                    } else {
                                        assert(out@[k] == entry);
                                    }
                                }
                                assert forall|k1: int, k2: int|
                                    0 <= k1 < k2 < out@.len() implies (#[trigger] out@[k1]).start
                                    < (#[trigger] out@[k2]).start by {
                                    if k2 < lo {
                                        assert(out@[k1] == out0[k1] && out@[k2] == out0[k2]);
                                    } else if k1 > lo {
                                        assert(out@[k1] == out0[k1 - 1] && out@[k2] == out0[k2
                                            - 1]);
                                    } else if k1 < lo && k2 == lo {
                                        assert(out@[k1] == out0[k1]);
                                    } else if k1 == lo && k2 > lo {
                                        assert(out@[k2] == out0[k2 - 1]);
                                        assert(out0[k2 - 1].start >= cap.start_byte);
                                        assert(out0[k2 - 1].start != cap.start_byte);
                                    } else if k1 < lo && k2 > lo {
                                        assert(out@[k1] == out0[k1] && out@[k2] == out0[k2 - 1]);
                                    }
                                }
                            }
                        }
                    },
                }
            },
        }
        proof {
            assert forall|q: int, ci: int|
                #![trigger spec_first_content_capture(matches@[q], names@, ci)]
                0 <= q < m + 1 && spec_first_content_capture(matches@[q], names@, ci)
                    && spec_lang_determinable(
                    matches@[q],
                    names@,
                    if matches@[q].pattern < pattern_props@.len() {
                        pattern_props@[matches@[q].pattern as int]@
                    } else {
                        Seq::empty()
                    },
                    text@,
                ) implies spec_start_listed(out@, matches@[q].captures@[ci].start_byte) by {
                if q < m {
                    assert(spec_start_listed(out_at, matches@[q].captures@[ci].start_byte));
                    if out@ != out_at {
                        let x = matches@[q].captures@[ci].start_byte;
                        let k = choose|k: int| 0 <= k < out_at.len() && (#[trigger] out_at[k]).start == x;
                    }
                }
            }
        }
        m = m + 1;
    }
    out
}

} // verus!
