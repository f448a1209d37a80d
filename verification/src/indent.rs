//! The indentation engine: walks the ancestor chain of an anchor node,
//! applying the indent-query rules to accumulate an indentation level.

use vstd::prelude::*;

use crate::query::AlignProps;
use crate::query::IndentCaps;
use crate::query::align_of;
use crate::query::begin_of;
use crate::query::list_contains;
use crate::query::spec_align_of;
use crate::query::spec_begin_of;
use crate::syntax::SyntaxTree;
use crate::text::TextBuf;
use crate::text::spec_first_content;
use crate::text::spec_last_content;
use crate::text::spec_line_blank_at;
use crate::text::spec_rest_blank;

verus! {

/// What the engine reports for a position: a concrete level, a request
/// to fall back to the caller's own heuristic, or no opinion at all
/// (the language has no indent rules).
#[derive(Clone, Copy, PartialEq, Eq, Structural, Debug)]
pub enum IndentResult {
    Level(usize),
    Defer,
    NoOpinion,
}

/// What one align rule does to the walk: ends it with an absolute
/// level, or keeps walking with an adjusted level (the flag records
/// whether the rule fired at all).
pub ghost enum AlignEffect {
    Absolute(int),
    Kept(int, bool),
}

/// The view of an optional byte string.
pub open spec fn spec_opt_view(x: Option<Vec<u8>>) -> Option<Seq<u8>> {
    match x {
        Some(v) => Some(v@),
        None => None,
    }
}

/// A level from an accumulated count: negative means the caller keeps
/// its current indentation, and a count beyond what a level can hold is
/// capped there.
pub open spec fn spec_clamp_level(v: int) -> IndentResult {
    if v < 0 {
        IndentResult::Defer
    } else if v > usize::MAX {
        IndentResult::Level(usize::MAX)
    } else {
        IndentResult::Level(v as usize)
    }
}

/// The first child of `i` (in arena order) that carries an align
/// capture, scanning from arena position `j`: its align properties.
pub open spec fn spec_first_align_child_from(
    tree: SyntaxTree,
    caps: IndentCaps,
    i: usize,
    j: int,
) -> Option<AlignProps>
    decreases tree.nodes@.len() - j,
{
    if j < 0 || j >= tree.nodes@.len() {
        None
    } else if tree.nodes@[j].parent == Some(i) && spec_align_of(caps.align@, j as usize) is Some {
        spec_align_of(caps.align@, j as usize)
    } else {
        spec_first_align_child_from(tree, caps, i, j + 1)
    }
}

pub open spec fn spec_first_align_child(tree: SyntaxTree, caps: IndentCaps, i: usize) -> Option<
    AlignProps,
> {
    spec_first_align_child_from(tree, caps, i, 0)
}

/// A node in a parse-error context borrows the align settings of its
/// first align-captured child.
pub fn first_align_child(tree: &SyntaxTree, caps: &IndentCaps, i: usize) -> (r: Option<AlignProps>)
    ensures
        match r {
            Some(a) => spec_first_align_child(*tree, *caps, i) matches Some(b) && a.same_as(b),
            None => spec_first_align_child(*tree, *caps, i) is None,
        },
{
    let len = tree.nodes.len();
    let mut j: usize = 0;
    while j < len
        invariant
            len == tree.nodes@.len(),
            j <= len,
            spec_first_align_child(*tree, *caps, i) == spec_first_align_child_from(
                *tree,
                *caps,
                i,
                j as int,
            ),
        decreases len - j,
    {
        let is_child = match tree.nodes[j].parent {
            Some(p) => p == i,
            None => false,
        };
        if is_child {
            match align_of(&caps.align, j) {
                Some(a) => {
                    return Some(a);
                },
                None => {},
            }
        }
        j = j + 1;
    }
    None
}

/// One align rule, over the node's delimiter children. A missing
/// delimiter property falls back to the node itself (never "last on its
/// line"); a named delimiter with no matching child skips the rule.
/// The increment is the rule's required numeric property, already
/// degraded to 0 by the index builder when missing or malformed.
/// An open delimiter that ends its own line indents one tab relative;
/// a close delimiter that ends its own line before the target dedents
/// one tab; otherwise the level becomes absolute: the open delimiter's
/// column plus the increment. A close delimiter ending on the target
/// line (away from the open one) adds one more tab when the rule asks
/// to avoid matching the next line.
pub open spec fn spec_align_step(
    tree: SyntaxTree,
    text: Seq<u8>,
    target: int,
    tab: int,
    node: usize,
    ind: int,
    open_delim: Option<Seq<u8>>,
    close_delim: Option<Seq<u8>>,
    increment: int,
    avoid_last: bool,
) -> AlignEffect {
    let o = match open_delim {
        Some(d) => tree.spec_first_child_kind(node, d),
        None => Some(node),
    };
    match o {
        None => AlignEffect::Kept(ind, false),
        Some(on) => {
            let o_node = tree.nodes@[on as int];
            let o_is_last = open_delim is Some && spec_rest_blank(text, o_node.end_byte as int);
            let c = match close_delim {
                Some(d) => tree.spec_first_child_kind(node, d),
                None => Some(node),
            };
            let c_is_last = match (close_delim, c) {
                (Some(_), Some(cn)) => spec_rest_blank(text, tree.nodes@[cn as int].end_byte as int),
                _ => false,
            };
            let o_s = o_node.start_row as int;
            let c_s = match c {
                Some(cn) => Some(tree.nodes@[cn as int].start_row as int),
                None => None,
            };
            let avoid = avoid_last && match c_s {
                Some(cs) => cs != o_s && cs == target,
                None => false,
            };
            let extra = if avoid {
                tab
            } else {
                0
            };
            if o_is_last {
                AlignEffect::Kept(ind + tab + extra, true)
            } else if c_is_last && (match c_s {
                Some(cs) => cs != o_s && cs < target,
                None => false,
            }) {
                AlignEffect::Kept(ind - tab + extra, true)
            } else {
                AlignEffect::Absolute(o_node.start_col + increment + extra)
            }
        },
    }
}

/// The ancestor walk from `node` with accumulated level `indent` and
/// the start lines already processed. At each node: an `auto` or
/// `ignore` mark on a spanning node that is not a `begin` ends the walk;
/// `branch` and `dedent` subtract a tab, `begin` adds one, and `align`
/// adjusts or ends the walk with an absolute level; each start line is
/// processed at most once. At the root, the accumulated level is the
/// answer (negative meaning "keep the current indentation").
pub open spec fn spec_walk(
    tree: SyntaxTree,
    caps: IndentCaps,
    text: Seq<u8>,
    target: int,
    tab: int,
    node: usize,
    indent: int,
    processed: Seq<usize>,
) -> IndentResult
    decreases node,
{
    let n = tree.nodes@[node as int];
    let s_line = n.start_row as int;
    let e_line = n.end_row as int;
    let begin_look = spec_begin_of(caps.begin@, node);
    let own_align = spec_align_of(caps.align@, node);
    let spans = s_line < target && target <= e_line;
    if begin_look is None && spans && own_align is None && caps.auto@.contains(node) {
        IndentResult::Defer
    } else if begin_look is None && spans && caps.ignore@.contains(node) {
        IndentResult::Level(0)
    } else {
        let should = !processed.contains(n.start_row);
        let dec = should && ((s_line == target && caps.branch@.contains(node)) || (s_line != target
            && caps.dedent@.contains(node)));
        let i1 = if dec {
            indent - tab
        } else {
            indent
        };
        let in_err = should && tree.spec_parent_is_error(node);
        let beg = should && match begin_look {
            Some(bp) => (s_line != e_line || in_err || bp.immediate) && (s_line != target
                || bp.start_at_same_line),
            None => false,
        };
        let i2 = if beg {
            i1 + tab
        } else {
            i1
        };
        let eff_align = if own_align is Some {
            own_align
        } else if in_err {
            spec_first_align_child(tree, caps, node)
        } else {
            None
        };
        let step = if should && (eff_align matches Some(ap)) && (s_line != e_line || in_err)
            && s_line != target {
            spec_align_step(
                tree,
                text,
                target,
                tab,
                node,
                i2,
                spec_opt_view(eff_align.unwrap().open_delim),
                spec_opt_view(eff_align.unwrap().close_delim),
                eff_align.unwrap().increment as int,
                eff_align.unwrap().avoid_last_matching_next,
            )
        } else {
            AlignEffect::Kept(i2, false)
        };
        match step {
            AlignEffect::Absolute(v) => spec_clamp_level(v),
            AlignEffect::Kept(i3, align_fired) => {
                let processed2 = if should && (dec || beg || align_fired) {
                    processed.push(n.start_row)
                } else {
                    processed
                };
                match n.parent {
                    Some(p) => if p < node {
                        spec_walk(tree, caps, text, target, tab, p, i3, processed2)
                    } else {
                        IndentResult::NoOpinion
                    },
                    None => spec_clamp_level(i3),
                }
            },
        }
    }
}

/// A level magnitude that the walk can never exceed, with room to spare
/// in its arithmetic.
const IND_BOUND: i128 = 0x1000_0000_0000_0000_0000_0000_0000;

/// How far the accumulated level can stray after walking from `anchor`
/// down to `cur`: each node changes it by at most four tab widths.
spec fn walk_bound(tab: int, anchor: int, cur: int) -> int {
    4 * tab * (1 + anchor - cur)
}

/// Runs one align rule. The flags of the result say whether the level
/// became absolute and whether the rule fired; the value is the level.
fn align_step(
    tree: &SyntaxTree,
    text: &TextBuf,
    target: usize,
    tab: u32,
    node: usize,
    ind: i128,
    ap: &AlignProps,
) -> (r: (bool, i128, bool))
    requires
        tree.wf(),
        node < tree.nodes@.len(),
        -IND_BOUND <= ind <= IND_BOUND,
    ensures
        ({
            let so = spec_align_step(
                *tree,
                text@,
                target as int,
                tab as int,
                node,
                ind as int,
                spec_opt_view(ap.open_delim),
                spec_opt_view(ap.close_delim),
                ap.increment as int,
                ap.avoid_last_matching_next,
            );
            &&& (r.0 ==> so == AlignEffect::Absolute(r.1 as int))
            &&& (!r.0 ==> so == AlignEffect::Kept(r.1 as int, r.2))
        }),
        !r.0 ==> ind - 2 * (tab as int) <= r.1 <= ind + 2 * (tab as int),
        r.0 ==> 0 <= r.1,
{
    let o: Option<usize> = match &ap.open_delim {
        Some(d) => tree.first_child_with_kind(node, d),
        None => Some(node),
    };
    match o {
        None => (false, ind, false),
        Some(on) => {
            let o_is_last = ap.open_delim.is_some() && text.rest_blank(tree.nodes[on].end_byte);
            let c: Option<usize> = match &ap.close_delim {
                Some(d) => tree.first_child_with_kind(node, d),
                None => Some(node),
            };
            let c_is_last = match (&ap.close_delim, c) {
                (Some(_), Some(cn)) => text.rest_blank(tree.nodes[cn].end_byte),
                _ => false,
            };
            let o_s = tree.nodes[on].start_row;
            let avoid = ap.avoid_last_matching_next && match c {
                Some(cn) => tree.nodes[cn].start_row != o_s && tree.nodes[cn].start_row == target,
                None => false,
            };
            let extra: i128 = if avoid {
                tab as i128
            } else {
                0
            };
            if o_is_last {
                (false, ind + tab as i128 + extra, true)
            } else if c_is_last && (match c {
                Some(cn) => tree.nodes[cn].start_row != o_s && tree.nodes[cn].start_row < target,
                None => false,
            }) {
                (false, ind - tab as i128 + extra, true)
            } else {
                (true, tree.nodes[on].start_col as i128 + ap.increment as i128 + extra, false)
            }
        },
    }
}

/// Walks the ancestor chain from `anchor`, applying the indent rules,
/// and returns the accumulated level. An anchor carrying a `zero`
/// capture yields level 0 outright, whatever its ancestors say.
pub fn walk_indent(
    tree: &SyntaxTree,
    caps: &IndentCaps,
    text: &TextBuf,
    target: usize,
    tab: u32,
    anchor: usize,
) -> (r: IndentResult)
    requires
        tree.wf(),
        anchor < tree.nodes@.len(),
    ensures
        caps.zero@.contains(anchor) ==> r == IndentResult::Level(0),
        !caps.zero@.contains(anchor) ==> r == spec_walk(
            *tree,
            *caps,
            text@,
            target as int,
            tab as int,
            anchor,
            0,
            Seq::empty(),
        ),
{
    if list_contains(&caps.zero, anchor) {
        return IndentResult::Level(0);
    }
    let mut cur = anchor;
    let mut indent: i128 = 0;
    let mut processed: Vec<usize> = Vec::new();
    loop
        invariant
            tree.wf(),
            !caps.zero@.contains(anchor),
            cur <= anchor < tree.nodes@.len(),
            -walk_bound(tab as int, anchor as int, cur as int) <= indent as int <= walk_bound(
                tab as int,
                anchor as int,
                cur as int,
            ),
            spec_walk(*tree, *caps, text@, target as int, tab as int, anchor, 0, Seq::empty())
                == spec_walk(
                *tree,
                *caps,
                text@,
                target as int,
                tab as int,
                cur,
                indent as int,
                processed@,
            ),
        decreases cur,
    {
        proof {
            lemma_walk_bound(tab as int, anchor as int, cur as int);
        }
        let ghost pre_indent = indent as int;
        let ghost pre_processed = processed@;
        let s_line = tree.nodes[cur].start_row;
        let e_line = tree.nodes[cur].end_row;
        let begin_look = begin_of(&caps.begin, cur);
        let own_align = align_of(&caps.align, cur);
        let spans = s_line < target && target <= e_line;
        if begin_look.is_none() && spans {
            if own_align.is_none() && list_contains(&caps.auto, cur) {
                return IndentResult::Defer;
            }
            if list_contains(&caps.ignore, cur) {
                return IndentResult::Level(0);
            }
        }
        let should = !list_contains(&processed, s_line);
        let dec = should && ((s_line == target && list_contains(&caps.branch, cur)) || (s_line
            != target && list_contains(&caps.dedent, cur)));
        if dec {
            indent = indent - tab as i128;
        }
        let in_err = should && tree.parent_is_error(cur);
        let beg = should && match begin_look {
            Some(bp) => (s_line != e_line || in_err || bp.immediate) && (s_line != target
                || bp.start_at_same_line),
            None => false,
        };
        if beg {
            indent = indent + tab as i128;
        }
        let own_is_some = own_align.is_some();
        let eff_align: Option<AlignProps> = if own_is_some {
            own_align
        } else if in_err {
            first_align_child(tree, caps, cur)
        } else {
            None
        };
        let ghost spec_eff: Option<AlignProps> = if spec_align_of(caps.align@, cur) is Some {
            spec_align_of(caps.align@, cur)
        } else if in_err {
            spec_first_align_child(*tree, *caps, cur)
        } else {
            None
        };
        proof {
            match (&eff_align, spec_eff) {
                (Some(a), Some(b)) => {
                    assert(a.same_as(b));
                    assert(spec_opt_view(a.open_delim) == spec_opt_view(b.open_delim));
                    assert(spec_opt_view(a.close_delim) == spec_opt_view(b.close_delim));
                },
                (None, None) => {},
                _ => {
                    assert(false);
                },
            }
        }
        let mut align_fired = false;
        match &eff_align {
            Some(ap) => {
                if should && (s_line != e_line || in_err) && s_line != target {
                    let (absolute, value, fired) = align_step(
                        tree,
                        text,
                        target,
                        tab,
                        cur,
                        indent,
                        ap,
                    );
                    if absolute {
                        let lvl = if value > usize::MAX as i128 {
                            usize::MAX
                        } else {
                            value as usize
                        };
                        proof {
                            assert(spec_walk(
                                *tree,
                                *caps,
                                text@,
                                target as int,
                                tab as int,
                                cur,
                                pre_indent,
                                pre_processed,
                            ) == spec_clamp_level(value as int));
                        }
                        return IndentResult::Level(lvl);
                    }
                    indent = value;
                    align_fired = fired;
                }
            },
            None => {},
        }
        if should && (dec || beg || align_fired) {
            processed.push(s_line);
        }
        match tree.nodes[cur].parent {
            None => {
                proof {
                    assert(spec_walk(
                        *tree,
                        *caps,
                        text@,
                        target as int,
                        tab as int,
                        cur,
                        pre_indent,
                        pre_processed,
                    ) == spec_clamp_level(indent as int));
                }
                if indent < 0 {
                    return IndentResult::Defer;
                }
                let lvl = if indent > usize::MAX as i128 {
                    usize::MAX
                } else {
                    indent as usize
                };
                return IndentResult::Level(lvl);
            },
            Some(p) => {
                proof {
                    lemma_walk_bound_step(tab as int, anchor as int, cur as int, p as int);
                    assert(spec_walk(
                        *tree,
                        *caps,
                        text@,
                        target as int,
                        tab as int,
                        cur,
                        pre_indent,
                        pre_processed,
                    ) == spec_walk(
                        *tree,
                        *caps,
                        text@,
                        target as int,
                        tab as int,
                        p,
                        indent as int,
                        processed@,
                    ));
                }
                cur = p;
            },
        }
    }
}

/// Where the ancestor walk starts for a target line.
pub enum Anchor {
    /// The node covering the line's first content (or, for a blank
    /// line, derived from the nearest non-blank line above).
    At(usize),
    /// Every line above the (blank) target line is blank too: the
    /// level is 0 with no walk at all.
    TopOfText,
    /// No node of the tree covers the position the anchor would need.
    Missing,
}

/// How the anchor answers for the target line, over the plain-value
/// characterization of its text: a line with content anchors on the
/// deepest node at its first non-whitespace byte (or reports the
/// position uncovered); a blank line with only blank lines above
/// answers from the top of the text; a blank line below content
/// anchors on the deepest node at the nearest previous line's last
/// content byte, when that node is no comment and closes nothing (a
/// trailing comment steps the anchor back; an `end` capture re-anchors
/// at the target line's own start).
pub open spec fn anchor_conforms(
    tree: SyntaxTree,
    caps: IndentCaps,
    text: Seq<u8>,
    line: int,
    r: Anchor,
) -> bool {
    &&& forall|b: int| #[trigger]
        spec_first_content(text, line, b) ==> match tree.spec_descendant(b) {
            Some(i) => r == Anchor::At(i),
            None => r == Anchor::Missing,
        }
    &&& (spec_line_blank_at(text, line) && (forall|l2: int|
        0 <= l2 < line ==> spec_line_blank_at(text, l2))) ==> r == Anchor::TopOfText
    &&& forall|pl: int, b: int|
        #![trigger spec_last_content(text, pl, b)]
        (spec_line_blank_at(text, line) && 0 <= pl < line && (forall|l2: int|
            pl < l2 < line ==> spec_line_blank_at(text, l2)) && spec_last_content(text, pl, b))
            ==> match tree.spec_descendant(b) {
            None => r == Anchor::Missing,
            Some(n0) => (!crate::bytes::spec_contains_bytes(
                tree.nodes@[n0 as int].kind@,
                crate::capnames::spec_comment_name(),
            ) ==> spec_end_adjusted(tree, caps, text, line, n0, r)) && (
            crate::bytes::spec_contains_bytes(
                tree.nodes@[n0 as int].kind@,
                crate::capnames::spec_comment_name(),
            ) ==> forall|ps2: int|
                #[trigger] spec_line_start_at(text, pl, ps2) ==> (match tree.spec_descendant(ps2) {
                    Some(f) => if f != n0 && tree.nodes@[n0 as int].start_byte > 0 {
                        match tree.spec_descendant(tree.nodes@[n0 as int].start_byte - 1) {
                            Some(n2) => spec_end_adjusted(tree, caps, text, line, n2, r),
                            None => spec_end_adjusted(tree, caps, text, line, n0, r),
                        }
                    } else {
                        spec_end_adjusted(tree, caps, text, line, n0, r)
                    },
                    None => spec_end_adjusted(tree, caps, text, line, n0, r),
                })),
        }
}

/// The last step of the anchor choice: an `end`-marked node re-anchors
/// at the target line's own start; any other node anchors itself.
pub open spec fn spec_end_adjusted(
    tree: SyntaxTree,
    caps: IndentCaps,
    text: Seq<u8>,
    line: int,
    n1: usize,
    r: Anchor,
) -> bool {
    &&& !caps.end_mark@.contains(n1) ==> r == Anchor::At(n1)
    &&& caps.end_mark@.contains(n1) ==> forall|ts: int|
        #[trigger] spec_line_start_at(text, line, ts) ==> (match tree.spec_descendant(ts) {
            Some(i) => r == Anchor::At(i),
            None => r == Anchor::Missing,
        })
}

/// Whether `ts` is the first byte position of line `l`.
pub open spec fn spec_line_start_at(text: Seq<u8>, l: int, ts: int) -> bool {
    &&& 0 <= ts <= text.len()
    &&& crate::text::count_nl(text, ts) == l
    &&& (ts == 0 || text[ts - 1] == crate::text::NL)
}

/// Picks the anchor node for the target line: the deepest node covering
/// the line's first non-whitespace byte; for a blank line, the node
/// covering the last content of the nearest non-blank line above
/// (stepping off trailing comments, and re-anchoring at the target
/// line's start when that node carries an `end` capture).
#[verifier::rlimit(100)]
#[verifier::spinoff_prover]
pub fn find_anchor(tree: &SyntaxTree, caps: &IndentCaps, text: &TextBuf, line: usize) -> (r:
    Anchor)
    requires
        tree.wf(),
        text@.len() < usize::MAX,
        line < crate::text::spec_line_count(text@),
    ensures
        r matches Anchor::At(i) ==> i < tree.nodes@.len(),
        anchor_conforms(*tree, *caps, text@, line as int, r),
{
    let (start, end) = text.line_range(line);
    proof {
        crate::text::lemma_line_bytes(text@, line as int, start as int, end as int);
    }
    match text.first_non_ws(start, end) {
        Some(b) => {
            proof {
                assert(spec_first_content(text@, line as int, b as int));
                assert(forall|b2: int|
                    #[trigger] spec_first_content(text@, line as int, b2) ==> b2 == b as int);
                assert(!spec_line_blank_at(text@, line as int));
            }
            match tree.descendant_in(b) {
                Some(i) => Anchor::At(i),
                None => Anchor::Missing,
            }
        },
        None => {
            proof {
                assert(spec_line_blank_at(text@, line as int));
                assert(forall|b2: int|
                    #[trigger] spec_first_content(text@, line as int, b2) ==> false);
            }
            // The target line is blank: scan backwards for content.
            let mut l = line;
            let mut found: Option<usize> = None;
            while l > 0 && found.is_none()
                invariant
                    tree.wf(),
                    text@.len() < usize::MAX,
                    l <= line < crate::text::spec_line_count(text@),
                    found is None ==> forall|l2: int|
                        l <= l2 < line ==> spec_line_blank_at(text@, l2),
                    match found {
                        Some(f) => f == l && f < line && !spec_line_blank_at(text@, f as int)
                            && forall|l2: int| l < l2 < line ==> spec_line_blank_at(text@, l2),
                        None => true,
                    },
                decreases l,
            {
                l = l - 1;
                let (ls, le) = text.line_range(l);
                proof {
                    crate::text::lemma_line_bytes(text@, l as int, ls as int, le as int);
                }
                match text.last_non_ws(ls, le) {
                    Some(b) => {
                        proof {
                            assert(spec_last_content(text@, l as int, b as int));
                            assert(!spec_line_blank_at(text@, l as int));
                        }
                        found = Some(l);
                    },
                    None => {
                        proof {
                            assert(spec_line_blank_at(text@, l as int));
                        }
                    },
                }
            }
            let prev_l = match found {
                Some(f) => f,
                None => {
                    proof {
                        assert(forall|pl: int, b: int|
                            #[trigger] spec_last_content(text@, pl, b) && 0 <= pl < line
                                ==> !spec_line_blank_at(text@, pl));
                    }
                    return Anchor::TopOfText;
                },
            };
            let (ps, pe) = text.line_range(prev_l);
            proof {
                crate::text::lemma_line_bytes(text@, prev_l as int, ps as int, pe as int);
                assert(spec_line_start_at(text@, prev_l as int, ps as int));
                assert forall|ps2: int|
                    #[trigger] spec_line_start_at(text@, prev_l as int, ps2) implies ps2
                    == ps as int by {
                    if ps2 < ps {
                        assert(text@[ps - 1] == crate::text::NL);
                        assert(crate::text::count_nl(text@, ps as int)
                            == crate::text::count_nl(text@, ps - 1) + 1);
                        lemma_count_nl_le(text@, ps2, ps - 1);
                    }
                    if ps2 > ps {
                        assert(text@[ps2 - 1] == crate::text::NL);
                        if ps2 - 1 < pe {
                            assert(ps2 - 1 == pe - 1);
                            assert(crate::text::count_nl(text@, ps2)
                                == crate::text::count_nl(text@, ps2 - 1) + 1);
                            lemma_count_nl_le(text@, ps as int, ps2 - 1);
                        } else {
                            if pe as int == text@.len() {
                                assert(ps2 <= text@.len());
                                assert(false);
                            } else {
                                assert(crate::text::spec_on_line(text@, pe - 1, prev_l as int));
                                assert(crate::text::count_nl(text@, pe as int) == prev_l + 1);
                                lemma_count_nl_le(text@, pe as int, ps2);
                            }
                        }
                    }
                }
            }
            let last = match text.last_non_ws(ps, pe) {
                Some(b) => b,
                None => {
                    proof {
                        // the scan found content on this line
                        assert(spec_line_blank_at(text@, prev_l as int));
                        assert(false);
                    }
                    return Anchor::Missing;
                },
            };
            proof {
                assert(spec_last_content(text@, prev_l as int, last as int));
                // the scan's target is the one line the blank-line rule
                // can anchor on, and its last content byte is unique
                assert forall|pl: int, b: int|
                    #![trigger spec_last_content(text@, pl, b)]
                    (spec_line_blank_at(text@, line as int) && 0 <= pl < line && (forall|l2: int|
                        pl < l2 < line ==> spec_line_blank_at(text@, l2)) && spec_last_content(
                        text@,
                        pl,
                        b,
                    )) implies pl == prev_l as int && b == last as int by {
                    assert(!spec_line_blank_at(text@, pl));
                    if pl < prev_l as int {
                        assert(spec_line_blank_at(text@, prev_l as int));
                        assert(false);
                    }
                    if pl > prev_l as int {
                        assert(spec_line_blank_at(text@, pl));
                        assert(false);
                    }
                    crate::text::lemma_last_content_unique(text@, pl, b, last as int);
                }
            }
            let mut node = match tree.descendant_in(last) {
                Some(i) => i,
                None => {
                    return Anchor::Missing;
                },
            };
            // Step off a trailing comment: anchor on what precedes it,
            // unless the whole line is the comment.
            let comment = crate::capnames::comment_name();
            if crate::bytes::contains_bytes(&tree.nodes[node].kind, &comment) {
                let first_node = tree.descendant_in(ps);
                let differs = match first_node {
                    Some(f) => f != node,
                    None => false,
                };
                if differs && tree.nodes[node].start_byte > 0 {
                    match tree.descendant_in(tree.nodes[node].start_byte - 1) {
                        Some(n2) => {
                            node = n2;
                        },
                        None => {},
                    }
                }
            }
            // A node that closes a construct anchors the new line at the
            // target line's own start instead.
            proof {
                assert(spec_line_start_at(text@, line as int, start as int));
                assert forall|ts: int|
                    #[trigger] spec_line_start_at(text@, line as int, ts) implies ts
                    == start as int by {
                    if ts < start {
                        assert(text@[start - 1] == crate::text::NL);
                        assert(crate::text::count_nl(text@, start as int)
                            == crate::text::count_nl(text@, start - 1) + 1);
                        lemma_count_nl_le(text@, ts, start - 1);
                    }
                    if ts > start {
                        assert(text@[ts - 1] == crate::text::NL);
                        assert(start <= ts - 1 < end || ts - 1 >= end);
                        if ts - 1 < end {
                            assert(ts - 1 == end - 1);
                            assert(crate::text::count_nl(text@, ts)
                                == crate::text::count_nl(text@, ts - 1) + 1);
                            lemma_count_nl_le(text@, start as int, ts - 1);
                        } else {
                            if end as int == text@.len() {
                                assert(ts <= text@.len());
                                assert(false);
                            } else {
                                assert(crate::text::spec_on_line(text@, end - 1, line as int));
                                assert(crate::text::count_nl(text@, end as int) == line + 1);
                                lemma_count_nl_le(text@, end as int, ts);
                            }
                        }
                    }
                }
            }
            if list_contains(&caps.end_mark, node) {
                match tree.descendant_in(start) {
                    Some(i) => Anchor::At(i),
                    None => Anchor::Missing,
                }
            } else {
                Anchor::At(node)
            }
        },
    }
}

proof fn lemma_count_nl_le(s: Seq<u8>, i: int, j: int)
    requires
        i <= j,
    ensures
        crate::text::count_nl(s, i) <= crate::text::count_nl(s, j),
    decreases j - i,
{
    if i < j {
        lemma_count_nl_le(s, i, j - 1);
    }
}

/// A line has exactly one start position: the bounds `line_range`
/// reports pin it.
pub proof fn lemma_line_start_unique(text: Seq<u8>, l: int, start: int, end: int)
    requires
        0 <= start <= end <= text.len(),
        start < end || end == text.len(),
        crate::text::count_nl(text, start) == l,
        start == 0 || text[start - 1] == crate::text::NL,
        end == text.len() || text[end - 1] == crate::text::NL,
        forall|j: int| start <= j < end && #[trigger] text[j] == crate::text::NL ==> j == end - 1,
    ensures
        spec_line_start_at(text, l, start),
        forall|ts: int| #[trigger] spec_line_start_at(text, l, ts) ==> ts == start,
{
    crate::text::lemma_line_bytes(text, l, start, end);
    assert forall|ts: int| #[trigger] spec_line_start_at(text, l, ts) implies ts == start by {
        if ts < start {
            assert(text[start - 1] == crate::text::NL);
            assert(crate::text::count_nl(text, start) == crate::text::count_nl(text, start - 1)
                + 1);
            lemma_count_nl_le(text, ts, start - 1);
        }
        if ts > start {
            assert(text[ts - 1] == crate::text::NL);
            if ts - 1 < end {
                assert(ts - 1 == end - 1);
                assert(crate::text::count_nl(text, ts) == crate::text::count_nl(text, ts - 1) + 1);
                lemma_count_nl_le(text, start, ts - 1);
            } else {
                if end == text.len() {
                    assert(ts <= text.len());
                    assert(false);
                } else {
                    assert(crate::text::spec_on_line(text, end - 1, l));
                    assert(crate::text::count_nl(text, end) == l + 1);
                    lemma_count_nl_le(text, end, ts);
                }
            }
        }
    }
}

/// What the engine answers from a chosen anchor: level 0 from the top
/// of an all-blank text, deferral for an uncovered position, and
/// otherwise the anchor's ancestor walk (a `zero` anchor forcing level
/// 0, and a walk without an opinion deferring).
pub open spec fn spec_anchor_outcome(
    tree: SyntaxTree,
    caps: IndentCaps,
    text: Seq<u8>,
    line: int,
    tab: int,
    a: Anchor,
) -> IndentResult {
    match a {
        Anchor::TopOfText => IndentResult::Level(0),
        Anchor::Missing => IndentResult::Defer,
        Anchor::At(i) => if caps.zero@.contains(i) {
            IndentResult::Level(0)
        } else {
            let w = spec_walk(tree, caps, text, line, tab, i, 0, Seq::empty());
            if w == IndentResult::NoOpinion {
                IndentResult::Defer
            } else {
                w
            }
        },
    }
}

/// Computes the indentation level at `line` from one tree and its
/// indent query: "no opinion" exactly when the query has no patterns;
/// otherwise the result is the anchor outcome over the capture index
/// built from the records: a conforming anchor's ancestor walk decides,
/// with an anchor marked `zero` forcing level 0.
pub fn indent_on_tree(
    tree: &SyntaxTree,
    text: &TextBuf,
    pattern_count: usize,
    captures: &Vec<crate::query::CaptureRec>,
    names: &Vec<Vec<u8>>,
    pattern_props: &Vec<Vec<crate::query::QueryProp>>,
    line: usize,
    tab: u32,
) -> (r: IndentResult)
    requires
        tree.wf(),
        text@.len() < usize::MAX,
        line < crate::text::spec_line_count(text@),
    ensures
        (r == IndentResult::NoOpinion) <==> pattern_count == 0,
        pattern_count != 0 ==> exists|caps: IndentCaps, a: Anchor|
            #![trigger anchor_conforms(*tree, caps, text@, line as int, a)]
            {
                &&& crate::query::caps_built_from(caps, captures@, names@)
                &&& anchor_conforms(*tree, caps, text@, line as int, a)
                &&& r == spec_anchor_outcome(*tree, caps, text@, line as int, tab as int, a)
            },
{
    if pattern_count == 0 {
        return IndentResult::NoOpinion;
    }
    let caps = IndentCaps::build(captures, names, pattern_props);
    let anchor = find_anchor(tree, &caps, text, line);
    let r = match anchor {
        Anchor::At(a) => {
            match walk_indent(tree, &caps, text, line, tab, a) {
                IndentResult::NoOpinion => IndentResult::Defer,
                other => other,
            }
        },
        Anchor::TopOfText => IndentResult::Level(0),
        Anchor::Missing => IndentResult::Defer,
    };
    proof {
        assert(r == spec_anchor_outcome(*tree, caps, text@, line as int, tab as int, anchor));
        assert(anchor_conforms(*tree, caps, text@, line as int, anchor));
    }
    r
}

/// Once an align rule computes an absolute column, the walk ends at
/// that node and returns that column untouched: no enclosing `begin`,
/// `dedent` or other rule of an ancestor changes it. The premises are
/// exactly the conditions under which the walk runs the align rule at
/// `node` and that rule reports an absolute level `v`.
pub proof fn lemma_absolute_align_ends_walk(
    tree: SyntaxTree,
    caps: IndentCaps,
    text: Seq<u8>,
    target: int,
    tab: int,
    node: usize,
    indent: int,
    processed: Seq<usize>,
    v: int,
)
    requires
        ({
            let n = tree.nodes@[node as int];
            let s_line = n.start_row as int;
            let e_line = n.end_row as int;
            let begin_look = spec_begin_of(caps.begin@, node);
            let own_align = spec_align_of(caps.align@, node);
            let spans = s_line < target && target <= e_line;
            let should = !processed.contains(n.start_row);
            let dec = should && ((s_line == target && caps.branch@.contains(node)) || (s_line
                != target && caps.dedent@.contains(node)));
            let i1 = if dec {
                indent - tab
            } else {
                indent
            };
            let in_err = should && tree.spec_parent_is_error(node);
            let beg = should && match begin_look {
                Some(bp) => (s_line != e_line || in_err || bp.immediate) && (s_line != target
                    || bp.start_at_same_line),
                None => false,
            };
            let i2 = if beg {
                i1 + tab
            } else {
                i1
            };
            let eff_align = if own_align is Some {
                own_align
            } else if in_err {
                spec_first_align_child(tree, caps, node)
            } else {
                None
            };
            &&& !(begin_look is None && spans && own_align is None && caps.auto@.contains(node))
            &&& !(begin_look is None && spans && caps.ignore@.contains(node))
            &&& should
            &&& eff_align is Some
            &&& (s_line != e_line || in_err)
            &&& s_line != target
            &&& spec_align_step(
                tree,
                text,
                target,
                tab,
                node,
                i2,
                spec_opt_view(eff_align.unwrap().open_delim),
                spec_opt_view(eff_align.unwrap().close_delim),
                eff_align.unwrap().increment as int,
                eff_align.unwrap().avoid_last_matching_next,
            ) == AlignEffect::Absolute(v)
        }),
    ensures
        spec_walk(tree, caps, text, target, tab, node, indent, processed) == spec_clamp_level(v),
{
}

/// Stepping to any earlier ancestor leaves room for one more rule's
/// worth of change in the level bound.
proof fn lemma_walk_bound_step(tab: int, anchor: int, cur: int, p: int)
    requires
        0 <= tab,
        0 <= p < cur <= anchor,
    ensures
        walk_bound(tab, anchor, cur) + 4 * tab <= walk_bound(tab, anchor, p),
{
    assert(4 * tab * (1 + anchor - cur) + 4 * tab <= 4 * tab * (1 + anchor - p))
        by (nonlinear_arith)
        requires
            0 <= tab,
            0 <= p < cur <= anchor,
    ;
}

/// The walk's running level stays within the reach of its arithmetic.
proof fn lemma_walk_bound(tab: int, anchor: int, cur: int)
    requires
        0 <= tab <= u32::MAX,
        0 <= cur <= anchor <= usize::MAX,
    ensures
        walk_bound(tab, anchor, cur) + 8 * tab <= IND_BOUND,
{
    assert(4 * tab * (1 + anchor - cur) <= 4 * tab * (1 + usize::MAX)) by (nonlinear_arith)
        requires
            0 <= tab,
            0 <= 1 + anchor - cur <= 1 + usize::MAX,
    ;
    assert(4 * tab * (1 + usize::MAX as int) + 8 * tab <= IND_BOUND) by (nonlinear_arith)
        requires
            0 <= tab <= u32::MAX,
    ;
}

} // verus!
