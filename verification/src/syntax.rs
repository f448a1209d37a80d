//! A plain-value model of one concrete syntax tree: an arena of nodes in
//! pre-order, each holding the byte range, the row/column range, the
//! node kind and a parent link. Node positions are in host-buffer
//! coordinates.

use vstd::prelude::*;

use crate::bytes::bytes_eq;

verus! {

/// One node of a concrete syntax tree.
#[derive(Clone, Debug)]
pub struct SynNode {
    pub start_byte: usize,
    pub end_byte: usize,
    pub start_row: usize,
    pub start_col: usize,
    pub end_row: usize,
    pub end_col: usize,
    /// The arena index of the parent; the root (index 0) has none.
    pub parent: Option<usize>,
    /// The grammar's name for the node.
    pub kind: Vec<u8>,
    /// Whether the node is a parse error.
    pub is_error: bool,
}

/// A tree as an arena in pre-order: every node's parent has a smaller
/// index, and every node's ranges sit inside its parent's.
pub struct SyntaxTree {
    pub nodes: Vec<SynNode>,
}

impl SyntaxTree {
    /// Well-formedness: node 0 is the only root, parent links point
    /// backwards, and a child's byte and row ranges are contained in
    /// its parent's.
    pub open spec fn wf(self) -> bool {
        &&& self.nodes@.len() > 0
        &&& forall|i: int|
            0 <= i < self.nodes@.len() ==> {
                let n = #[trigger] self.nodes@[i];
                &&& (n.parent is None <==> i == 0)
                &&& n.start_byte <= n.end_byte
                &&& n.start_row <= n.end_row
                &&& match n.parent {
                    Some(p) => {
                        &&& p < i
                        &&& self.nodes@[p as int].start_byte <= n.start_byte
                        &&& n.end_byte <= self.nodes@[p as int].end_byte
                        &&& self.nodes@[p as int].start_row <= n.start_row
                        &&& n.end_row <= self.nodes@[p as int].end_row
                    },
                    None => true,
                }
            }
    }

    /// Checks well-formedness at run time, for trees that arrive from
    /// outside the engine's own flows.
    pub fn check_wf(&self) -> (r: bool)
        ensures
            r == self.wf(),
    {
        let len = self.nodes.len();
        if len == 0 {
            return false;
        }
        let mut i: usize = 0;
        while i < len
            invariant
                len == self.nodes@.len(),
                i <= len,
                forall|k: int|
                    0 <= k < i ==> {
                        let n = #[trigger] self.nodes@[k];
                        &&& (n.parent is None <==> k == 0)
                        &&& n.start_byte <= n.end_byte
                        &&& n.start_row <= n.end_row
                        &&& match n.parent {
                            Some(p) => {
                                &&& p < k
                                &&& self.nodes@[p as int].start_byte <= n.start_byte
                                &&& n.end_byte <= self.nodes@[p as int].end_byte
                                &&& self.nodes@[p as int].start_row <= n.start_row
                                &&& n.end_row <= self.nodes@[p as int].end_row
                            },
                            None => true,
                        }
                    },
            decreases len - i,
        {
            let n = &self.nodes[i];
            if !(n.start_byte <= n.end_byte && n.start_row <= n.end_row) {
                return false;
            }
            match n.parent {
                None => {
                    if i != 0 {
                        return false;
                    }
                },
                Some(p) => {
                    if i == 0 || p >= i {
                        return false;
                    }
                    let q = &self.nodes[p];
                    if !(q.start_byte <= n.start_byte && n.end_byte <= q.end_byte && q.start_row
                        <= n.start_row && n.end_row <= q.end_row) {
                        return false;
                    }
                },
            }
            i = i + 1;
        }
        true
    }

    /// Whether node `i` spans byte position `b`.
    pub open spec fn spec_contains(self, i: int, b: int) -> bool {
        self.nodes@[i].start_byte <= b < self.nodes@[i].end_byte
    }

    pub fn len(&self) -> (r: usize)
        ensures
            r == self.nodes@.len(),
    {
        self.nodes.len()
    }

    /// Whether byte position `b` spans no node at all (it lies outside
    /// the root).
    pub fn root_contains(&self, b: usize) -> (r: bool)
        requires
            self.wf(),
        ensures
            r == self.spec_contains(0, b as int),
    {
        let root = &self.nodes[0];
        root.start_byte <= b && b < root.end_byte
    }

    /// The first child of node `cur` (scanning the arena upward from
    /// position `j`) that spans byte position `b`.
    pub open spec fn spec_containing_child_from(self, cur: usize, b: int, j: int) -> Option<usize>
        decreases self.nodes@.len() - j,
    {
        if j < 0 || j >= self.nodes@.len() {
            None
        } else if self.nodes@[j].parent == Some(cur) && self.spec_contains(j, b) {
            Some(j as usize)
        } else {
            self.spec_containing_child_from(cur, b, j + 1)
        }
    }

    /// The node the descent from `cur` lands on: it follows the first
    /// child spanning `b` until no child does.
    pub open spec fn spec_descend(self, cur: usize, b: int) -> usize
        decreases self.nodes@.len() - cur,
    {
        match self.spec_containing_child_from(cur, b, cur + 1) {
            Some(c) => if cur < c < self.nodes@.len() {
                self.spec_descend(c, b)
            } else {
                cur
            },
            None => cur,
        }
    }

    /// The deepest node that spans byte position `b`, as the descent
    /// from the root finds it.
    pub open spec fn spec_descendant(self, b: int) -> Option<usize> {
        if self.nodes@.len() > 0 && self.spec_contains(0, b) {
            Some(self.spec_descend(0, b))
        } else {
            None
        }
    }

    /// The deepest node that spans byte position `b`: the walk descends
    /// from the root into whichever child spans `b` until none does.
    #[verifier::rlimit(100)]
    pub fn descendant_in(&self, b: usize) -> (r: Option<usize>)
        requires
            self.wf(),
        ensures
            r == self.spec_descendant(b as int),
            match r {
                Some(i) => {
                    &&& 0 <= i < self.nodes@.len()
                    &&& self.spec_contains(i as int, b as int)
                    &&& forall|j: int|
                        0 <= j < self.nodes@.len() && #[trigger] self.nodes@[j].parent == Some(
                            i as usize,
                        ) ==> !self.spec_contains(j, b as int)
                },
                None => !self.spec_contains(0, b as int),
            },
    {
        if !self.root_contains(b) {
            return None;
        }
        let len = self.nodes.len();
        let mut cur: usize = 0;
        loop
            invariant
                self.wf(),
                len == self.nodes@.len(),
                cur < len,
                self.spec_contains(0, b as int),
                self.spec_contains(cur as int, b as int),
                self.spec_descend(0, b as int) == self.spec_descend(cur, b as int),
            ensures
                cur < len,
                cur == self.spec_descend(0, b as int),
                self.spec_contains(cur as int, b as int),
                forall|j: int|
                    0 <= j < self.nodes@.len() && #[trigger] self.nodes@[j].parent == Some(cur)
                        ==> !self.spec_contains(j, b as int),
            decreases len - cur,
        {
            let mut j: usize = cur + 1;
            let mut found: Option<usize> = None;
            while j < len
                invariant_except_break
                    found is None,
                invariant
                    self.wf(),
                    len == self.nodes@.len(),
                    cur < len,
                    cur < j,
                    self.spec_containing_child_from(cur, b as int, cur + 1)
                        == self.spec_containing_child_from(cur, b as int, j as int),
                    forall|k: int|
                        cur < k < j && #[trigger] self.nodes@[k].parent == Some(cur)
                            ==> !self.spec_contains(k, b as int),
                ensures
                    found == self.spec_containing_child_from(cur, b as int, cur + 1),
                    match found {
                        Some(c) => {
                            &&& cur < c < len
                            &&& self.nodes@[c as int].parent == Some(cur)
                            &&& self.spec_contains(c as int, b as int)
                        },
                        None => forall|k: int|
                            cur < k < len && #[trigger] self.nodes@[k].parent == Some(cur)
                                ==> !self.spec_contains(k, b as int),
                    },
                decreases len - j,
            {
                let n = &self.nodes[j];
                if n.start_byte <= b && b < n.end_byte {
                    let is_child = match n.parent {
                        Some(p) => p == cur,
                        None => false,
                    };
                    if is_child {
                        found = Some(j);
                        break;
                    }
                }
                j = j + 1;
            }
            match found {
                Some(c) => {
                    proof {
                        assert(self.spec_descend(cur, b as int) == self.spec_descend(
                            c as usize,
                            b as int,
                        )) by {
                            assert(self.spec_containing_child_from(cur, b as int, cur + 1)
                                == Some(c));
                        }
                    }
                    cur = c;
                },
                None => {
                    proof {
                        assert(forall|k: int|
                            0 <= k < self.nodes@.len() && #[trigger] self.nodes@[k].parent == Some(
                                cur,
                            ) ==> k > cur);
                        assert(self.spec_descend(cur, b as int) == cur) by {
                            assert(self.spec_containing_child_from(cur, b as int, cur + 1)
                                is None);
                        }
                    }
                    return Some(cur);
                },
            }
        }
    }

    /// The first child of node `i` (in arena order) whose kind is
    /// exactly `kind`.
    pub open spec fn spec_first_child_kind(self, i: usize, kind: Seq<u8>) -> Option<usize> {
        spec_fck_from(self, i, kind, 0)
    }

    pub fn first_child_with_kind(&self, i: usize, kind: &Vec<u8>) -> (r: Option<usize>)
        ensures
            r == self.spec_first_child_kind(i, kind@),
            r matches Some(c) ==> 0 <= c < self.nodes@.len(),
    {
        let len = self.nodes.len();
        let mut j: usize = 0;
        while j < len
            invariant
                len == self.nodes@.len(),
                j <= len,
                self.spec_first_child_kind(i, kind@) == spec_fck_from(*self, i, kind@, j as int),
            decreases len - j,
        {
            let n = &self.nodes[j];
            let is_child = match n.parent {
                Some(p) => p == i,
                None => false,
            };
            if is_child && bytes_eq(&n.kind, kind) {
                return Some(j);
            }
            j = j + 1;
        }
        None
    }

    /// Whether node `i` sits directly inside a parse-error node.
    pub open spec fn spec_parent_is_error(self, i: usize) -> bool {
        match self.nodes@[i as int].parent {
            Some(p) => self.nodes@[p as int].is_error,
            None => false,
        }
    }

    pub fn parent_is_error(&self, i: usize) -> (r: bool)
        requires
            self.wf(),
            i < self.nodes@.len(),
        ensures
            r == self.spec_parent_is_error(i),
    {
        match self.nodes[i].parent {
            Some(p) => self.nodes[p].is_error,
            None => false,
        }
    }
}

/// First-match search for a child of `i` with the given kind, starting
/// the scan at arena position `j`.
pub open spec fn spec_fck_from(tree: SyntaxTree, i: usize, kind: Seq<u8>, j: int) -> Option<usize>
    decreases tree.nodes@.len() - j,
{
    if j < 0 || j >= tree.nodes@.len() {
        None
    } else if tree.nodes@[j].parent == Some(i) && tree.nodes@[j].kind@ == kind {
        Some(j as usize)
    } else {
        spec_fck_from(tree, i, kind, j + 1)
    }
}

} // verus!
