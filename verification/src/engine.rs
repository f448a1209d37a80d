//! The engine: ties the verified bookkeeping to the native parser.
//! One registry of per-language resources, node construction, edit
//! application with reparse, highlighting with injection resolution,
//! and indentation over the innermost sub-tree.

use vstd::prelude::*;

use crate::bytes::clone_bytes;
use crate::bytes::contains_bytes;
use crate::bytes::slice_of;
use crate::capnames::comment_name;
use crate::change::Moment;
use crate::forest::TsParser;
use crate::forest::moment_rows_fit;
use crate::forest::wf_view;
use crate::highlight::HlCapture;
use crate::highlight::TagEdit;
use crate::highlight::highlight_edits;
use crate::indent::IndentResult;
use crate::injection::ChildAction;
use crate::injection::ChildInfo;
use crate::injection::InjCapture;
use crate::injection::InjMatch;
use crate::injection::Resolved;
use crate::injection::reconcile;
use crate::injection::resolve_injections;
use crate::query::CaptureRec;
use crate::text::TextBuf;
use crate::ts::NativeState;
use crate::ts::RawCapture;
use crate::ts::parser_new;
use crate::ts::parser_parse;
use crate::ts::parser_set_language;
use crate::ts::query_capture_names;
use crate::ts::query_pattern_count;
use crate::ts::query_property_table;
use crate::ts::run_query_matches;
use crate::ts::snapshot_tree;
use crate::ts::tree_changed_ranges;

verus! {

/// What can go wrong at the boundary: no grammar for a language, a
/// query that does not compile, or a native reparse that cannot
/// produce a tree at all (fatal to the node; it must be rebuilt).
#[derive(Clone, Copy, PartialEq, Eq, Structural, Debug)]
pub enum TsError {
    GrammarUnavailable,
    QueryCompile,
    MalformedIncrementalState,
}

/// The compiled resources of one language: its grammar, its three
/// queries (absent ones mean the feature is unavailable), and the
/// highlight captures' precomputed priorities.
pub struct LanguageRes {
    pub language: tree_sitter::Language,
    pub highlights: Option<tree_sitter::Query>,
    pub indents: Option<tree_sitter::Query>,
    pub injections: Option<tree_sitter::Query>,
    /// Injection-query overrides by name: a resolved injection may name
    /// one, and the sub-tree built for it then uses that query in place
    /// of the default `injections`, for that sub-tree alone.
    pub named_injections: Vec<(Vec<u8>, tree_sitter::Query)>,
    pub hl_priorities: Vec<u8>,
}

/// The first named injection-query entry under the given name.
pub open spec fn spec_named_find(
    entries: Seq<(Vec<u8>, tree_sitter::Query)>,
    name: Seq<u8>,
) -> Option<int>
    decreases entries.len(),
{
    if entries.len() == 0 {
        None
    } else if entries[0].0@ == name {
        Some(0)
    } else {
        match spec_named_find(entries.skip(1), name) {
            Some(i) => Some(i + 1),
            None => None,
        }
    }
}

proof fn lemma_named_find_first(entries: Seq<(Vec<u8>, tree_sitter::Query)>, name: Seq<u8>, i: int)
    requires
        0 <= i < entries.len(),
        entries[i].0@ == name,
        forall|k: int| 0 <= k < i ==> (#[trigger] entries[k]).0@ != name,
    ensures
        spec_named_find(entries, name) == Some(i),
    decreases i,
{
    if i > 0 {
        lemma_named_find_first(entries.skip(1), name, i - 1);
        assert(forall|k: int|
            0 <= k < i - 1 ==> (#[trigger] entries.skip(1)[k]).0@ == entries[k + 1].0@);
    }
}

proof fn lemma_named_find_none(entries: Seq<(Vec<u8>, tree_sitter::Query)>, name: Seq<u8>)
    requires
        forall|k: int| 0 <= k < entries.len() ==> (#[trigger] entries[k]).0@ != name,
    ensures
        spec_named_find(entries, name) is None,
    decreases entries.len(),
{
    if entries.len() > 0 {
        lemma_named_find_none(entries.skip(1), name);
    }
}

impl LanguageRes {
    /// The named injection-query override, when the host loaded one:
    /// the first entry under that name.
    pub fn named_injection(&self, name: &Vec<u8>) -> (r: Option<&tree_sitter::Query>)
        ensures
            match r {
                Some(q) => spec_named_find(self.named_injections@, name@) matches Some(i) && *q
                    == self.named_injections@[i].1,
                None => spec_named_find(self.named_injections@, name@) is None,
            },
    {
        let mut i: usize = 0;
        while i < self.named_injections.len()
            invariant
                i <= self.named_injections@.len(),
                forall|k: int|
                    0 <= k < i ==> (#[trigger] self.named_injections@[k]).0@ != name@,
            decreases self.named_injections@.len() - i,
        {
            if crate::bytes::bytes_eq(&self.named_injections[i].0, name) {
                proof {
                    lemma_named_find_first(self.named_injections@, name@, i as int);
                }
                return Some(&self.named_injections[i].1);
            }
            i = i + 1;
        }
        proof {
            lemma_named_find_none(self.named_injections@, name@);
        }
        None
    }
}

/// The process-scoped registry of loaded languages, keyed by name; the
/// host populates it (lazily, once per language) and passes it to every
/// operation that needs language resolution.
pub struct LanguageRegistry {
    pub entries: Vec<(Vec<u8>, LanguageRes)>,
}

/// The first registry entry with the given language name.
pub open spec fn spec_reg_find(entries: Seq<(Vec<u8>, LanguageRes)>, lang: Seq<u8>) -> Option<int>
    decreases entries.len(),
{
    if entries.len() == 0 {
        None
    } else if entries[0].0@ == lang {
        Some(0)
    } else {
        match spec_reg_find(entries.skip(1), lang) {
            Some(i) => Some(i + 1),
            None => None,
        }
    }
}

proof fn lemma_reg_find_first(entries: Seq<(Vec<u8>, LanguageRes)>, lang: Seq<u8>, i: int)
    requires
        0 <= i < entries.len(),
        entries[i].0@ == lang,
        forall|k: int| 0 <= k < i ==> (#[trigger] entries[k]).0@ != lang,
    ensures
        spec_reg_find(entries, lang) == Some(i),
    decreases i,
{
    if i > 0 {
        lemma_reg_find_first(entries.skip(1), lang, i - 1);
        assert(forall|k: int|
            0 <= k < i - 1 ==> (#[trigger] entries.skip(1)[k]).0@ == entries[k + 1].0@);
    }
}

proof fn lemma_reg_find_none(entries: Seq<(Vec<u8>, LanguageRes)>, lang: Seq<u8>)
    requires
        forall|k: int| 0 <= k < entries.len() ==> (#[trigger] entries[k]).0@ != lang,
    ensures
        spec_reg_find(entries, lang) is None,
    decreases entries.len(),
{
    if entries.len() > 0 {
        lemma_reg_find_none(entries.skip(1), lang);
    }
}

impl LanguageRegistry {
    pub fn new() -> (r: LanguageRegistry)
        ensures
            r.entries@.len() == 0,
    {
        LanguageRegistry { entries: Vec::new() }
    }

    /// Registers a language's resources unless the name is taken: a
    /// lost race to load a language just discards redundant work.
    pub fn add(&mut self, lang: Vec<u8>, res: LanguageRes)
        ensures
            (exists|i: int|
                0 <= i < old(self).entries@.len() && (#[trigger] old(self).entries@[i]).0@
                    == lang@) ==> final(self).entries == old(self).entries,
            !(exists|i: int|
                0 <= i < old(self).entries@.len() && (#[trigger] old(self).entries@[i]).0@
                    == lang@) ==> final(self).entries@ == old(self).entries@.push((lang, res)),
    {
        let mut i: usize = 0;
        let mut present = false;
        while i < self.entries.len()
            invariant
                i <= self.entries@.len(),
                self.entries == old(self).entries,
                present == exists|k: int|
                    0 <= k < i && (#[trigger] self.entries@[k]).0@ == lang@,
            decreases self.entries@.len() - i,
        {
            if crate::bytes::bytes_eq(&self.entries[i].0, &lang) {
                present = true;
            }
            i = i + 1;
        }
        if !present {
            self.entries.push((lang, res));
        }
    }

    /// The resources of a language, when it is registered: the first
    /// entry under that name.
    pub fn find(&self, lang: &Vec<u8>) -> (r: Option<&LanguageRes>)
        ensures
            match r {
                Some(res) => spec_reg_find(self.entries@, lang@) matches Some(i) && *res
                    == self.entries@[i].1,
                None => spec_reg_find(self.entries@, lang@) is None,
            },
    {
        let mut i: usize = 0;
        while i < self.entries.len()
            invariant
                i <= self.entries@.len(),
                forall|k: int| 0 <= k < i ==> (#[trigger] self.entries@[k]).0@ != lang@,
            decreases self.entries@.len() - i,
        {
            if crate::bytes::bytes_eq(&self.entries[i].0, lang) {
                proof {
                    lemma_reg_find_first(self.entries@, lang@, i as int);
                }
                return Some(&self.entries[i].1);
            }
            i = i + 1;
        }
        proof {
            lemma_reg_find_none(self.entries@, lang@);
        }
        None
    }
}

/// Turns raw query matches into injection-match records.
fn raws_to_inj(matches: &Vec<(usize, Vec<RawCapture>)>) -> (r: Vec<InjMatch>)
    ensures
        r@.len() == matches@.len(),
{
    let mut out: Vec<InjMatch> = Vec::new();
    let mut i: usize = 0;
    while i < matches.len()
        invariant
            i <= matches@.len(),
            out@.len() == i,
        decreases matches@.len() - i,
    {
        let (pattern, raws) = &matches[i];
        let mut caps: Vec<InjCapture> = Vec::new();
        let mut j: usize = 0;
        while j < raws.len()
            invariant
                j <= raws@.len(),
            decreases raws@.len() - j,
        {
            let c = raws[j];
            caps.push(
                InjCapture {
                    capture: c.capture,
                    start_byte: c.start_byte,
                    end_byte: c.end_byte,
                    start_row: c.start_row,
                    start_col: c.start_col,
                },
            );
            j = j + 1;
        }
        out.push(InjMatch { pattern: *pattern, captures: caps });
        i = i + 1;
    }
    out
}

/// Flattens raw query matches into highlight captures.
fn raws_to_hl(matches: &Vec<(usize, Vec<RawCapture>)>) -> (r: Vec<HlCapture>)
{
    let mut out: Vec<HlCapture> = Vec::new();
    let mut i: usize = 0;
    while i < matches.len()
        invariant
            i <= matches@.len(),
        decreases matches@.len() - i,
    {
        let raws = &matches[i].1;
        let mut j: usize = 0;
        while j < raws.len()
            invariant
                j <= raws@.len(),
            decreases raws@.len() - j,
        {
            let c = raws[j];
            out.push(
                HlCapture { capture: c.capture, start_byte: c.start_byte, end_byte: c.end_byte },
            );
            j = j + 1;
        }
        i = i + 1;
    }
    out
}

/// Maps raw captures to arena capture records through the snapshot's
/// native identities; captures of nodes missing from the snapshot are
/// dropped.
fn map_captures(matches: &Vec<(usize, Vec<RawCapture>)>, ids: &Vec<usize>) -> (r: Vec<CaptureRec>)
    ensures
        forall|k: int| 0 <= k < r@.len() ==> (#[trigger] r@[k]).node < ids@.len(),
{
    let mut out: Vec<CaptureRec> = Vec::new();
    let mut i: usize = 0;
    while i < matches.len()
        invariant
            i <= matches@.len(),
            forall|k: int| 0 <= k < out@.len() ==> (#[trigger] out@[k]).node < ids@.len(),
        decreases matches@.len() - i,
    {
        let raws = &matches[i].1;
        let mut j: usize = 0;
        while j < raws.len()
            invariant
                j <= raws@.len(),
                forall|k: int| 0 <= k < out@.len() ==> (#[trigger] out@[k]).node < ids@.len(),
            decreases raws@.len() - j,
        {
            let c = raws[j];
            let mut a: usize = 0;
            while a < ids.len()
                invariant
                    a <= ids@.len(),
                    forall|k: int| 0 <= k < out@.len() ==> (#[trigger] out@[k]).node < ids@.len(),
                decreases ids@.len() - a,
            {
                if ids[a] == c.node_id {
                    out.push(CaptureRec { pattern: c.pattern, capture: c.capture, node: a });
                    break ;
                }
                a = a + 1;
            }
            j = j + 1;
        }
        i = i + 1;
    }
    out
}

/// A trigger anchor for naming one highlight pass's appended edits.
pub open spec fn spec_highlight_edits_of(caps: Seq<HlCapture>, prios: Seq<u8>, mid: Seq<TagEdit>) -> bool {
    true
}

/// A trigger anchor for naming one pass's resolved injections.
pub open spec fn spec_resolved_anchor(resolved: Seq<Resolved>) -> bool {
    true
}

/// Whether `a` begins with exactly the edits of `b`.
pub open spec fn seq_extends(a: Seq<TagEdit>, b: Seq<TagEdit>) -> bool {
    b.len() <= a.len() && a.take(b.len() as int) == b
}

proof fn lemma_extends_trans(a: Seq<TagEdit>, b: Seq<TagEdit>, c: Seq<TagEdit>)
    requires
        seq_extends(b, a),
        seq_extends(c, b),
    ensures
        seq_extends(c, a),
{
    assert(c.take(a.len() as int) =~= a) by {
        assert(forall|i: int| 0 <= i < a.len() ==> #[trigger] c[i] == b[i] && b[i] == a[i]);
    }
}

proof fn lemma_append_extends(a: Seq<TagEdit>, t: Seq<TagEdit>)
    ensures
        seq_extends(a + t, a),
{
    assert((a + t).take(a.len() as int) =~= a);
}

/// Whether a run of edits occurs contiguously inside a list.
pub open spec fn edits_contain_segment(es: Seq<TagEdit>, seg: Seq<TagEdit>) -> bool {
    exists|off: int|
        #![trigger es.subrange(off, off + seg.len() as int)]
        0 <= off && off + seg.len() <= es.len() && es.subrange(off, off + seg.len() as int) == seg
}

proof fn lemma_segment_extends(es1: Seq<TagEdit>, es2: Seq<TagEdit>, seg: Seq<TagEdit>)
    requires
        edits_contain_segment(es1, seg),
        seq_extends(es2, es1),
    ensures
        edits_contain_segment(es2, seg),
{
    let off = choose|off: int|
        #![trigger es1.subrange(off, off + seg.len() as int)]
        0 <= off && off + seg.len() <= es1.len() && es1.subrange(off, off + seg.len() as int)
            == seg;
    assert(es2.subrange(off, off + seg.len() as int) =~= seg) by {
        assert(forall|i: int| 0 <= i < es1.len() ==> #[trigger] es2[i] == es1[i]);
    }
}

proof fn lemma_segment_here(before: Seq<TagEdit>, seg: Seq<TagEdit>)
    ensures
        edits_contain_segment(before + seg, seg),
{
    assert((before + seg).subrange(
        before.len() as int,
        before.len() + seg.len() as int,
    ) =~= seg);
}

/// The start of the padded query window: one byte before the requested
/// window, clamped to the node's own start.
pub open spec fn spec_pad_lo(w0: int, range_start: int) -> int {
    let lo = if w0 > 0 {
        w0 - 1
    } else {
        0
    };
    if lo >= range_start {
        lo
    } else {
        range_start
    }
}

/// The end of the padded query window: one byte past the requested
/// window, clamped to the buffer's and the node's own end.
pub open spec fn spec_pad_hi(w1: int, text_len: int, range_end: int) -> int {
    let hi = if w1 < usize::MAX {
        w1 + 1
    } else {
        w1
    };
    let hi = if hi <= text_len {
        hi
    } else {
        text_len
    };
    if hi <= range_end {
        hi
    } else {
        range_end
    }
}

/// Whether two forest nodes are the same node: every field equal but
/// the sub-tree list (which a highlight pass may rebuild). In
/// particular the native parser and incremental tree state are the
/// same, not rebuilt.
pub open spec fn same_node_identity(a: TsParser, b: TsParser) -> bool {
    &&& a.lang == b.lang
    &&& a.range_start == b.range_start
    &&& a.range_end == b.range_end
    &&& a.off_row == b.off_row
    &&& a.off_col == b.off_col
    &&& a.tree == b.tree
    &&& a.ids == b.ids
    &&& a.has_pending_diff == b.has_pending_diff
    &&& a.tagger == b.tagger
    &&& a.injection_query == b.injection_query
    &&& a.native == b.native
}

/// Whether a child-info list mirrors a sub-tree list entry by entry.
pub open spec fn infos_correspond(infos: Seq<ChildInfo>, kids: Seq<TsParser>) -> bool {
    &&& infos.len() == kids.len()
    &&& forall|i: int|
        0 <= i < kids.len() ==> {
            &&& (#[trigger] infos[i]).start == kids[i].range_start
            &&& infos[i].end == kids[i].range_end
            &&& infos[i].lang@ == kids[i].lang@
        }
}

/// Whether one node of a rebuilt sub-tree list is accounted for by
/// reconciliation: either an old child that reconciliation kept, the
/// same node with its incremental state, or a new sub-tree standing at
/// a resolved injection that needed one, with that injection's range
/// and language.
pub open spec fn kept_or_added(
    x: TsParser,
    old_kids: Seq<TsParser>,
    infos: Seq<ChildInfo>,
    resolved: Seq<Resolved>,
    w0: int,
    w1: int,
) -> bool {
    ||| exists|i: int|
        0 <= i < old_kids.len() && (crate::injection::spec_child_action(infos, resolved, w0, w1, i)
            == ChildAction::KeepRecurse || crate::injection::spec_child_action(
            infos,
            resolved,
            w0,
            w1,
            i,
        ) == ChildAction::KeepOutside) && same_node_identity(x, #[trigger] old_kids[i])
    ||| exists|j: int|
        0 <= j < resolved.len() && crate::injection::spec_add_needed(infos, resolved, j)
            && x.range_start == (#[trigger] resolved[j]).start && x.range_end == resolved[j].end
            && x.lang@ == resolved[j].lang@ && crate::query::spec_opt_bytes_eq(
            x.injection_query,
            resolved[j].query_override,
        )
}

/// After an insertion, every member of the child list is the inserted
/// node or an accounted-for member it already had.
proof fn lemma_out_members(
    now: Seq<TsParser>,
    before: Seq<TsParser>,
    x: TsParser,
    old_kids: Seq<TsParser>,
    infos: Seq<ChildInfo>,
    resolved: Seq<Resolved>,
    w0: int,
    w1: int,
)
    requires
        forall|q: int| 0 <= q < now.len() ==> #[trigger] now[q] == x || before.contains(now[q]),
        forall|q: int|
            0 <= q < before.len() ==> kept_or_added(
                #[trigger] before[q],
                old_kids,
                infos,
                resolved,
                w0,
                w1,
            ),
        kept_or_added(x, old_kids, infos, resolved, w0, w1),
    ensures
        forall|q: int|
            0 <= q < now.len() ==> kept_or_added(
                #[trigger] now[q],
                old_kids,
                infos,
                resolved,
                w0,
                w1,
            ),
{
    assert forall|q: int| 0 <= q < now.len() implies kept_or_added(
        #[trigger] now[q],
        old_kids,
        infos,
        resolved,
        w0,
        w1,
    ) by {
        if now[q] != x {
            let p = choose|p: int| 0 <= p < before.len() && before[p] == now[q];
        }
    }
}

/// The invariant of a rebuilt child list: every child well-formed,
/// inside the parent's range, and the list sorted and non-overlapping.
pub open spec fn kids_ok(s: Seq<TsParser>, ps: int, pe: int) -> bool {
    &&& forall|i: int|
        0 <= i < s.len() ==> {
            let v = (#[trigger] s[i]).view();
            &&& wf_view(v)
            &&& ps <= v.range_start
            &&& v.range_end <= pe
        }
    &&& forall|i: int, j: int|
        0 <= i < j < s.len() ==> (#[trigger] s[i]).view().range_end
            <= (#[trigger] s[j]).view().range_start
}

/// Inserts a child into a sorted child list at its range position. A
/// child that would overlap a neighbour or leave the parent's range is
/// discarded (overlap at injection resolution is settled by discovery
/// order: the sub-tree already in place wins).
#[verifier::rlimit(100)]
#[verifier::spinoff_prover]
fn insert_child(kids: &mut Vec<TsParser>, k: TsParser, ps: usize, pe: usize)
    requires
        kids_ok(old(kids)@, ps as int, pe as int),
        wf_view(k.view()),
    ensures
        kids_ok(final(kids)@, ps as int, pe as int),
        forall|q: int|
            0 <= q < final(kids)@.len() ==> #[trigger] final(kids)@[q] == k || old(
                kids,
            )@.contains(final(kids)@[q]),
        forall|p: int|
            0 <= p < old(kids)@.len() ==> final(kids)@.contains(#[trigger] old(kids)@[p]),
        (ps <= k.range_start && k.range_end <= pe && wf_view(k.view()) && (forall|q: int|
            0 <= q < old(kids)@.len() ==> (#[trigger] old(kids)@[q]).view().range_end
                <= k.view().range_start)) ==> final(kids)@ == old(kids)@.push(k),
{
    if k.range_start < ps || k.range_end > pe {
        proof {
            assert(forall|p: int|
                0 <= p < kids@.len() ==> kids@.contains(#[trigger] kids@[p]));
        }
        return ;
    }
    let mut idx: usize = 0;
    while idx < kids.len() && kids[idx].range_end <= k.range_start
        invariant
            kids_ok(kids@, ps as int, pe as int),
            idx <= kids@.len(),
            forall|q: int| 0 <= q < idx ==> (#[trigger] kids@[q]).view().range_end
                <= k.view().range_start,
        decreases kids@.len() - idx,
    {
        idx = idx + 1;
    }
    if idx < kids.len() && kids[idx].range_start < k.range_end {
        // overlaps the next child: first discovered wins
        proof {
            assert(forall|p: int|
                0 <= p < kids@.len() ==> kids@.contains(#[trigger] kids@[p]));
        }
        return ;
    }
    let ghost kids0 = kids@;
    kids.insert(idx, k);
    proof {
        assert forall|q: int|
            0 <= q < kids@.len() implies #[trigger] kids@[q] == k || kids0.contains(kids@[q]) by {
            if q < idx {
                assert(kids@[q] == kids0[q]);
            } else if q > idx {
                assert(kids@[q] == kids0[q - 1]);
            }
        }
        assert forall|p: int| 0 <= p < kids0.len() implies kids@.contains(
            #[trigger] kids0[p],
        ) by {
            if p < idx {
                assert(kids@[p] == kids0[p]);
            } else {
                assert(kids@[p + 1] == kids0[p]);
            }
        }
        if forall|q: int|
            0 <= q < kids0.len() ==> (#[trigger] kids0[q]).view().range_end
                <= k.view().range_start {
            assert(idx == kids0.len());
            assert(kids@ =~= kids0.push(k));
        }
        assert forall|i: int, j: int| 0 <= i < j < kids@.len() implies (
        #[trigger] kids@[i]).view().range_end <= (#[trigger] kids@[j]).view().range_start by {
            if j < idx {
                assert(kids@[i] == kids0[i] && kids@[j] == kids0[j]);
            } else if i > idx {
                assert(kids@[i] == kids0[i - 1] && kids@[j] == kids0[j - 1]);
            } else if i < idx && j == idx {
                assert(kids@[i] == kids0[i]);
            } else if i == idx && j > idx {
                assert(kids@[j] == kids0[j - 1]);
                assert(kids0[j - 1].view().range_start >= kids0[idx as int].view().range_start);
            } else if i < idx && j > idx {
                assert(kids@[i] == kids0[i] && kids@[j] == kids0[j - 1]);
            }
        }
    }
}

/// The removal edits a dying subtree owes: one per node, pre-order,
/// clearing that node's namespace over its range.
pub open spec fn spec_subtree_removals(n: TsParser) -> Seq<TagEdit>
    decreases n,
{
    seq![TagEdit::Remove { tagger: n.tagger, start: n.range_start, end: n.range_end }]
        + spec_removals_of(n.sub_trees@)
}

pub open spec fn spec_removals_of(s: Seq<TsParser>) -> Seq<TagEdit>
    decreases s,
{
    if s.len() == 0 {
        Seq::empty()
    } else {
        spec_subtree_removals(s[0]) + spec_removals_of(s.skip(1))
    }
}

/// Emits the removal of every tag a dying subtree owns, namespace by
/// namespace, and drops the subtree.
fn remove_subtree_tags(n: TsParser, edits: &mut Vec<TagEdit>)
    ensures
        final(edits)@ == old(edits)@ + spec_subtree_removals(n),
    decreases n,
{
    edits.push(TagEdit::Remove { tagger: n.tagger, start: n.range_start, end: n.range_end });
    let mut kids = n.sub_trees;
    let ghost kids0 = kids@;
    let ghost base = edits@;
    while kids.len() > 0
        invariant
            kids@.len() <= kids0.len(),
            kids@ =~= kids0.skip(kids0.len() - kids@.len()),
            kids0 == n.sub_trees@,
            edits@ + spec_removals_of(kids@) =~= base + spec_removals_of(kids0),
        decreases kids@.len(),
    {
        let ghost pre = kids@;
        let k = kids.remove(0);
        proof {
            assert(k == pre[0]);
            assert(kids0.skip(kids0.len() - pre.len())[0] == kids0[kids0.len() - pre.len()]);
            assert(k == n.sub_trees@[kids0.len() - pre.len()]);
            assert(pre.skip(1) =~= kids@);
            assert(spec_removals_of(pre) =~= spec_subtree_removals(k) + spec_removals_of(kids@));
        }
        let ghost before = edits@;
        remove_subtree_tags(k, edits);
        proof {
            assert(edits@ + spec_removals_of(kids@) =~= before + spec_removals_of(pre));
        }
    }
    proof {
        assert(spec_removals_of(kids@) =~= Seq::<TagEdit>::empty());
        assert(edits@ =~= base + spec_removals_of(kids0));
        assert(edits@ =~= old(edits)@ + spec_subtree_removals(n));
    }
}

impl TsParser {
    /// A node with no native parser behind it, for building forests
    /// directly from plain values.
    pub fn detached(
        lang: Vec<u8>,
        range_start: usize,
        range_end: usize,
        off_row: usize,
        off_col: usize,
        tree: crate::syntax::SyntaxTree,
        ids: Vec<usize>,
        tagger: usize,
    ) -> (r: Result<TsParser, TsError>)
        ensures
            r matches Ok(p) ==> {
                &&& wf_view(p.view())
                &&& p.view().range_start == range_start
                &&& p.view().range_end == range_end
                &&& p.view().off_row == off_row
                &&& p.view().off_col == off_col
                &&& p.lang == lang
                &&& p.tree == tree
                &&& p.tagger == tagger
                &&& p.sub_trees@.len() == 0
            },
            r is Ok <==> (range_start <= range_end && range_end <= usize::MAX / 2 && off_row
                <= usize::MAX / 2 && off_col <= usize::MAX / 2),
    {
        if !(range_start <= range_end && range_end <= usize::MAX / 2 && off_row <= usize::MAX / 2
            && off_col <= usize::MAX / 2) {
            return Err(TsError::GrammarUnavailable);
        }
        Ok(
            TsParser {
                lang,
                range_start,
                range_end,
                off_row,
                off_col,
                tree,
                ids,
                has_pending_diff: false,
                tagger,
                injection_query: None,
                native: NativeState::empty(),
                sub_trees: Vec::new(),
            },
        )
    }

    /// The children as reconciliation sees them.
    pub fn child_infos(&self) -> (r: Vec<ChildInfo>)
        ensures
            r@.len() == self.sub_trees@.len(),
            forall|i: int|
                0 <= i < r@.len() ==> {
                    &&& (#[trigger] r@[i]).start == self.sub_trees@[i].range_start
                    &&& r@[i].end == self.sub_trees@[i].range_end
                    &&& r@[i].lang@ == self.sub_trees@[i].lang@
                },
    {
        let mut out: Vec<ChildInfo> = Vec::new();
        let mut i: usize = 0;
        while i < self.sub_trees.len()
            invariant
                i <= self.sub_trees@.len(),
                out@.len() == i,
                forall|k: int|
                    0 <= k < i ==> {
                        &&& (#[trigger] out@[k]).start == self.sub_trees@[k].range_start
                        &&& out@[k].end == self.sub_trees@[k].range_end
                        &&& out@[k].lang@ == self.sub_trees@[k].lang@
                    },
            decreases self.sub_trees@.len() - i,
        {
            let st = &self.sub_trees[i];
            out.push(
                ChildInfo {
                    start: st.range_start,
                    end: st.range_end,
                    lang: clone_bytes(&st.lang),
                },
            );
            i = i + 1;
        }
        out
    }

    /// Relies on tree_sitter::Tree::root_node: the root node of this
    /// node's native tree, when one exists.
    #[verifier::external_body]
    pub fn root(&self) -> Option<tree_sitter::Node<'_>> {
        self.native.tree.as_ref().map(|t| t.root_node())
    }

    /// Whether the latest parse of the top-level tree contains a
    /// structural error (hosts route such documents to a background
    /// worker). An empty snapshot reports no error.
    pub fn make_remote(&self) -> (r: bool)
        ensures
            r == (self.tree.nodes@.len() > 0 && self.tree.nodes@[0].is_error),
    {
        if self.tree.nodes.len() == 0 {
            return false;
        }
        self.tree.nodes[0].is_error
    }

    /// Builds a fresh node: binds a new parser to the language, parses
    /// the node's byte range in full, and snapshots the result. Fails
    /// only when the grammar itself cannot be used.
    pub fn init(
        lang: &Vec<u8>,
        language: &tree_sitter::Language,
        text: &TextBuf,
        range_start: usize,
        range_end: usize,
        off_row: usize,
        off_col: usize,
        tagger: usize,
        budget: usize,
    ) -> (r: Result<TsParser, TsError>)
        requires
            range_start <= range_end <= usize::MAX / 2,
            off_row <= usize::MAX / 2,
            off_col <= usize::MAX / 2,
        ensures
            r matches Ok(p) ==> {
                &&& wf_view(p.view())
                &&& p.view().range_start == range_start
                &&& p.view().range_end == range_end
                &&& p.view().off_row == off_row
                &&& p.view().off_col == off_col
                &&& p.lang@ == lang@
                &&& p.tagger == tagger
                &&& p.tree.wf()
                &&& p.tree.nodes@[0].start_byte == range_start
                &&& p.tree.nodes@[0].end_byte == range_end
                &&& p.ids@.len() == p.tree.nodes@.len()
                &&& p.sub_trees@.len() == 0
                &&& !p.has_pending_diff
            },
    {
        let mut parser = parser_new();
        if !parser_set_language(&mut parser, language) {
            return Err(TsError::GrammarUnavailable);
        }
        let s = if range_start <= text.bytes.len() {
            range_start
        } else {
            text.bytes.len()
        };
        let e = if range_end <= text.bytes.len() {
            range_end
        } else {
            text.bytes.len()
        };
        let e = if s <= e {
            e
        } else {
            s
        };
        let local = slice_of(&text.bytes, s, e);
        let tree = match parser_parse(&mut parser, &local, None) {
            Some(t) => t,
            None => {
                return Err(TsError::GrammarUnavailable);
            },
        };
        let native = NativeState { parser: Some(parser), tree: Some(tree), old_tree: None };
        let (snapshot, ids) = snapshot_tree(&native, range_start, range_end, off_row, off_col, budget);
        Ok(
            TsParser {
                lang: clone_bytes(lang),
                range_start,
                range_end,
                off_row,
                off_col,
                tree: snapshot,
                ids,
                has_pending_diff: false,
                tagger,
                injection_query: None,
                native,
                sub_trees: Vec::new(),
            },
        )
    }

    /// Re-parses this node against its current tree, retaining the old
    /// one for exactly one highlight cycle. A parse that produces no
    /// tree is fatal to the node: it is left as it stands and the
    /// caller must discard and rebuild it.
    pub fn reparse_with_diff(self, text: &TextBuf, budget: usize) -> (r: (TsParser, bool))
        ensures
            r.0.lang == self.lang,
            r.0.tagger == self.tagger,
            r.0.sub_trees == self.sub_trees,
            r.0.view() == self.view(),
            r.0.view().range_start == self.view().range_start,
            r.0.view().range_end == self.view().range_end,
            r.0.view().off_row == self.view().off_row,
            r.0.view().off_col == self.view().off_col,
            r.0.view().children == self.view().children,
            !r.1 ==> r.0.tree.wf() && r.0.ids@.len() == r.0.tree.nodes@.len()
                && r.0.has_pending_diff,
    {
        let TsParser {
            lang,
            range_start,
            range_end,
            off_row,
            off_col,
            tree,
            ids,
            has_pending_diff,
            tagger,
            injection_query,
            native,
            sub_trees,
        } = self;
        let mut native = native;
        let s = if range_start <= text.bytes.len() {
            range_start
        } else {
            text.bytes.len()
        };
        let e = if range_end <= text.bytes.len() && range_start <= range_end {
            range_end
        } else {
            s
        };
        let e = if s <= e {
            e
        } else {
            s
        };
        let local = slice_of(&text.bytes, s, e);
        let mut parser = match native.parser {
            Some(p) => p,
            None => {
                let n2 = NativeState { parser: None, tree: native.tree, old_tree: native.old_tree };
                return (
                    TsParser {
                        lang,
                        range_start,
                        range_end,
                        off_row,
                        off_col,
                        tree,
                        ids,
                        has_pending_diff,
                        tagger,
                        injection_query,
                        native: n2,
                        sub_trees,
                    },
                    true,
                );
            },
        };
        let parsed = match &native.tree {
            Some(old) => parser_parse(&mut parser, &local, Some(old)),
            None => parser_parse(&mut parser, &local, None),
        };
        match parsed {
            Some(new_tree) => {
                let n2 = NativeState {
                    parser: Some(parser),
                    tree: Some(new_tree),
                    old_tree: native.tree,
                };
                let span_end = if range_end >= range_start {
                    range_end
                } else {
                    range_start
                };
                let (snapshot, new_ids) = snapshot_tree(
                    &n2,
                    range_start,
                    span_end,
                    off_row,
                    off_col,
                    budget,
                );
                (
                    TsParser {
                        lang,
                        range_start,
                        range_end,
                        off_row,
                        off_col,
                        tree: snapshot,
                        ids: new_ids,
                        has_pending_diff: true,
                        tagger,
                        injection_query,
                        native: n2,
                        sub_trees,
                    },
                    false,
                )
            },
            None => {
                let n2 = NativeState {
                    parser: Some(parser),
                    tree: native.tree,
                    old_tree: native.old_tree,
                };
                (
                    TsParser {
                        lang,
                        range_start,
                        range_end,
                        off_row,
                        off_col,
                        tree,
                        ids,
                        has_pending_diff,
                        tagger,
                        injection_query,
                        native: n2,
                        sub_trees,
                    },
                    true,
                )
            },
        }
    }
}

/// Whether the refresh list holds the line span of one change: a range
/// from the start of the change's first line to the end of the line
/// after its added text (capped at the last line).
pub open spec fn line_span_listed(text: Seq<u8>, c: crate::change::Change, rs: Seq<(usize, usize)>) -> bool {
    exists|k: int|
        #![trigger rs[k]]
        {
            let (s, e) = rs[k];
            let e_line = if c.added_end.line + 1 < crate::text::spec_line_count(text) {
                c.added_end.line + 1
            } else {
                crate::text::spec_line_count(text) - 1
            };
            &&& 0 <= k < rs.len()
            &&& crate::text::count_nl(text, s as int) == c.start.line
            &&& (s == 0 || text[s - 1] == crate::text::NL)
            &&& (e == text.len() || text[e - 1] == crate::text::NL)
            &&& exists|s2: int|
                0 <= s2 <= e && crate::text::count_nl(text, s2) == e_line && (forall|j: int|
                    s2 <= j < e && #[trigger] text[j] == crate::text::NL ==> j == e - 1)
        }
}

/// A listed line span stays listed when the list grows at the end.
proof fn lemma_line_span_listed_push(
    text: Seq<u8>,
    c: crate::change::Change,
    rs: Seq<(usize, usize)>,
    x: (usize, usize),
)
    requires
        line_span_listed(text, c, rs),
    ensures
        line_span_listed(text, c, rs.push(x)),
{
    let k = choose|k: int|
        #![trigger rs[k]]
        {
            let (s, e) = rs[k];
            let e_line = if c.added_end.line + 1 < crate::text::spec_line_count(text) {
                c.added_end.line + 1
            } else {
                crate::text::spec_line_count(text) - 1
            };
            &&& 0 <= k < rs.len()
            &&& crate::text::count_nl(text, s as int) == c.start.line
            &&& (s == 0 || text[s - 1] == crate::text::NL)
            &&& (e == text.len() || text[e - 1] == crate::text::NL)
            &&& exists|s2: int|
                0 <= s2 <= e && crate::text::count_nl(text, s2) == e_line && (forall|j: int|
                    s2 <= j < e && #[trigger] text[j] == crate::text::NL ==> j == e - 1)
        };
    assert(rs.push(x)[k] == rs[k]);
}

/// Whether every node of a sub-tree list, recursively, holds a pending
/// structural diff.
pub open spec fn all_subtrees_pending(s: Seq<TsParser>) -> bool
    decreases s,
{
    if s.len() == 0 {
        true
    } else {
        &&& s[0].has_pending_diff
        &&& all_subtrees_pending(s[0].sub_trees@)
        &&& all_subtrees_pending(s.skip(1))
    }
}

proof fn lemma_all_subtrees_pending_push(s: Seq<TsParser>, x: TsParser)
    requires
        all_subtrees_pending(s),
        x.has_pending_diff,
        all_subtrees_pending(x.sub_trees@),
    ensures
        all_subtrees_pending(s.push(x)),
    decreases s,
{
    if s.len() == 0 {
        assert(s.push(x)[0] == x);
        assert(s.push(x).skip(1) =~= Seq::<TsParser>::empty());
        assert(all_subtrees_pending(s.push(x).skip(1)));
    } else {
        assert(s.push(x)[0] == s[0]);
        assert(s.push(x).skip(1) =~= s.skip(1).push(x));
        lemma_all_subtrees_pending_push(s.skip(1), x);
        assert(all_subtrees_pending(s.push(x).skip(1)));
    }
}

impl TsParser {
    /// Ensures every descendant whose structural diff was invalidated
    /// by this batch of edits is reparsed against its own prior tree:
    /// deferred reparse, never skipped reparse. Reports whether any
    /// node's reparse failed fatally; when none did, every descendant
    /// holds a pending diff afterwards.
    pub fn reparse_sub_trees(self, text: &TextBuf, budget: usize) -> (r: (TsParser, bool))
        ensures
            r.0.view() == self.view(),
            r.0.lang == self.lang,
            r.0.tagger == self.tagger,
            r.0.has_pending_diff == self.has_pending_diff,
            !r.1 ==> all_subtrees_pending(r.0.sub_trees@),
        decreases self,
    {
        let TsParser {
            lang,
            range_start,
            range_end,
            off_row,
            off_col,
            tree,
            ids,
            has_pending_diff,
            tagger,
            injection_query,
            native,
            sub_trees,
        } = self;
        let mut kids = sub_trees;
        let ghost kids0 = kids@;
        let mut out: Vec<TsParser> = Vec::new();
        let mut fatal = false;
        while kids.len() > 0
            invariant
                kids@.len() <= kids0.len(),
                kids@ =~= kids0.skip(kids0.len() - kids@.len()),
                kids0 == self.sub_trees@,
                crate::forest::views_of(out@) + crate::forest::views_of(kids@)
                    =~= crate::forest::views_of(kids0),
                !fatal ==> all_subtrees_pending(out@),
            decreases kids@.len(),
        {
            let ghost pre = kids@;
            let k = kids.remove(0);
            proof {
                lemma_views_of_pub(pre);
                lemma_views_of_pub(kids@);
                assert(k == pre[0]);
                assert(kids0.skip(kids0.len() - pre.len())[0] == kids0[kids0.len() - pre.len()]);
                assert(k == self.sub_trees@[kids0.len() - pre.len()]);
                assert(crate::forest::views_of(pre)[0] == k.view());
                assert(crate::forest::views_of(pre).skip(1) =~= crate::forest::views_of(kids@));
            }
            let (k1, f1) = k.reparse_sub_trees(text, budget);
            let (k2, f2) = if !k1.has_pending_diff {
                k1.reparse_with_diff(text, budget)
            } else {
                (k1, false)
            };
            if f1 || f2 {
                fatal = true;
            }
            let ghost out0 = out@;
            out.push(k2);
            proof {
                lemma_views_of_push_pub(out0, k2);
                assert(k2.view() =~= k.view());
                assert(crate::forest::views_of(out@) + crate::forest::views_of(kids@)
                    =~= crate::forest::views_of(out0) + crate::forest::views_of(pre));
                if !fatal {
                    assert(k2.has_pending_diff);
                    assert(all_subtrees_pending(k2.sub_trees@));
                    lemma_all_subtrees_pending_push(out0, k2);
                }
            }
        }
        let r = TsParser {
            lang,
            range_start,
            range_end,
            off_row,
            off_col,
            tree,
            ids,
            has_pending_diff,
            tagger,
            injection_query,
            native,
            sub_trees: out,
        };
        proof {
            assert(crate::forest::views_of(kids@) =~= Seq::<crate::forest::NodeView>::empty());
            assert(crate::forest::views_of(out@) =~= crate::forest::views_of(kids0));
            assert(r.view() =~= self.view());
        }
        (r, fatal)
    }

    /// Applies a whole moment: propagates each change through the
    /// forest, reparses this node once against its prior tree, then
    /// reparses every descendant whose diff was invalidated. Returns
    /// the byte ranges whose highlighting must be refreshed (the
    /// structurally changed ranges plus at least the edited lines) and
    /// whether a reparse failed fatally (the node must be rebuilt).
    /// The resulting forest shape is exactly the moment's fold over the
    /// old one: clipped children destroyed, children behind each change
    /// shifted once, the child overlapping it edited in place; when no
    /// reparse failed, the node and every surviving descendant hold a
    /// pending diff, and for every change the refresh list holds the
    /// span from the start of the change's first line to the end of the
    /// line after its added text.
    pub fn apply_changes(self, m: &Moment, text: &TextBuf, budget: usize) -> (r: (
        TsParser,
        Vec<(usize, usize)>,
        bool,
    ))
        requires
            m.wf(),
            wf_view(self.view()),
            crate::change::moment_fits(m.changes@, self.view().range_end as int),
            moment_rows_fit(m.changes@, self.view()),
        ensures
            wf_view(r.0.view()),
            r.0.view() == crate::forest::apply_moment_view(m.changes@, self.view()),
            r.0.view().range_start == self.view().range_start,
            r.0.view().range_end == self.view().range_end + crate::change::net_shift_bytes_of(
                m.changes@,
            ),
            r.0.lang == self.lang,
            r.0.tagger == self.tagger,
            !r.2 ==> r.0.has_pending_diff && all_subtrees_pending(r.0.sub_trees@),
            text@.len() < usize::MAX ==> forall|i: int|
                0 <= i < m.changes@.len() && (#[trigger] m.changes@[i]).start.line
                    < crate::text::spec_line_count(text@) ==> line_span_listed(
                    text@,
                    m.changes@[i],
                    r.1@,
                ),
    {
        let node = self.apply_moment(m);
        let (node, fatal1) = node.reparse_with_diff(text, budget);
        let (node, fatal2) = node.reparse_sub_trees(text, budget);
        let mut ranges: Vec<(usize, usize)> = Vec::new();
        collect_changed_ranges(&node, &mut ranges, 64);
        // at a minimum, the lines the changes touched are refreshed
        let mut i: usize = 0;
        while i < m.changes.len()
            invariant
                m.wf(),
                i <= m.changes@.len(),
                text@.len() < usize::MAX ==> forall|q: int|
                    0 <= q < i && (#[trigger] m.changes@[q]).start.line
                        < crate::text::spec_line_count(text@) ==> line_span_listed(
                        text@,
                        m.changes@[q],
                        ranges@,
                    ),
            decreases m.changes@.len() - i,
        {
            let c = &m.changes[i];
            proof {
                assert(m.changes@[i as int].wf());
            }
            let ghost ranges0 = ranges@;
            if text.bytes.len() < usize::MAX {
                let count = text.line_count();
                if c.start.line < count {
                    let (s, _) = text.line_range(c.start.line);
                    let e_line = if c.added_end.line + 1 < count {
                        c.added_end.line + 1
                    } else {
                        count - 1
                    };
                    let (s2, e) = text.line_range(e_line);
                    ranges.push((s, e));
                    proof {
                        assert(ranges@ =~= ranges0.push((s, e)));
                        assert forall|q: int|
                            0 <= q < i && (#[trigger] m.changes@[q]).start.line
                                < crate::text::spec_line_count(text@) implies line_span_listed(
                            text@,
                            m.changes@[q],
                            ranges@,
                        ) by {
                            lemma_line_span_listed_push(text@, m.changes@[q], ranges0, (s, e));
                        }
                        assert(ranges@[ranges@.len() - 1] == (s, e));
                        assert(line_span_listed(text@, m.changes@[i as int], ranges@));
                    }
                }
            }
            i = i + 1;
        }
        (node, ranges, fatal1 || fatal2)
    }
}

impl TsParser {
    /// One highlight pass over `[w0, w1)`: resolves the injections in
    /// a window padded by one byte each side (clamped to the node's own
    /// range), reconciles the sub-trees against them (keeping matches,
    /// destroying stale or re-languaged ones with their tags, building
    /// and immediately highlighting new ones), and finally emits this
    /// node's own tag edits: the padded window's tags removed, then one
    /// tag per non-empty highlight capture. A window disjoint from the
    /// node is a no-op. Every surviving sub-tree is either a kept child
    /// (the same node, incremental state and all) or a new sub-tree at
    /// a resolved injection that needed one. `depth` caps how deep new
    /// injections may nest; `next_tagger` hands out tag namespaces.
    pub fn highlight_and_inject(
        self,
        text: &TextBuf,
        registry: &LanguageRegistry,
        w0: usize,
        w1: usize,
        depth: usize,
        budget: usize,
        next_tagger: &mut usize,
        edits: &mut Vec<TagEdit>,
    ) -> (r: TsParser)
        requires
            wf_view(self.view()),
        ensures
            wf_view(r.view()),
            r.view().range_start == self.view().range_start,
            r.view().range_end == self.view().range_end,
            r.view().off_row == self.view().off_row,
            r.view().off_col == self.view().off_col,
            r.lang == self.lang,
            r.tagger == self.tagger,
            r.native == self.native,
            r.tree == self.tree,
            r.ids == self.ids,
            r.has_pending_diff == self.has_pending_diff,
            r.injection_query == self.injection_query,
            // a window disjoint from the node changes nothing at all
            (w0 >= self.view().range_end || w1 <= self.view().range_start) ==> r == self
                && *final(edits) == *old(edits),
            // tag edits are only ever appended
            seq_extends(final(edits)@, old(edits)@),
            // when the node's language has a highlight query, the pass
            // ends with that query's removal-then-insertions over the
            // padded window, carrying the language's own priority
            // vector, whatever captures came back
            (w0 < self.view().range_end && w1 > self.view().range_start) ==> match spec_reg_find(
                registry.entries@,
                self.lang@,
            ) {
                Some(ri) => registry.entries@[ri].1.highlights is Some ==> exists|
                    caps: Seq<HlCapture>,
                    mid: Seq<TagEdit>,
                |
                    #![trigger spec_highlight_edits_of(caps, registry.entries@[ri].1.hl_priorities@, mid)]
                    final(edits)@ == old(edits)@ + mid + crate::highlight::spec_highlight_edits(
                        caps,
                        registry.entries@[ri].1.hl_priorities@,
                        self.tagger,
                        spec_pad_lo(w0 as int, self.view().range_start) as usize,
                        spec_pad_hi(
                            w1 as int,
                            text@.len() as int,
                            self.view().range_end,
                        ) as usize,
                    ),
                None => true,
            },
            // every surviving sub-tree is accounted for by the
            // reconciliation decisions over some resolved injections
            (w0 < self.view().range_end && w1 > self.view().range_start) ==> exists|
                resolved: Seq<Resolved>,
                infos: Seq<ChildInfo>,
            |
                #![trigger infos_correspond(infos, self.sub_trees@), spec_resolved_anchor(resolved)]
                {
                    let pw0 = spec_pad_lo(w0 as int, self.view().range_start);
                    let pw1 = spec_pad_hi(w1 as int, text@.len() as int, self.view().range_end);
                    &&& infos_correspond(infos, self.sub_trees@)
                    &&& forall|q: int|
                        0 <= q < r.sub_trees@.len() ==> kept_or_added(
                            #[trigger] r.sub_trees@[q],
                            self.sub_trees@,
                            infos,
                            resolved,
                            pw0,
                            pw1,
                        )
                    &&& forall|i: int|
                        0 <= i < self.sub_trees@.len() && ((
                        #[trigger] crate::injection::spec_child_action(infos, resolved, pw0, pw1, i))
                            == ChildAction::KeepRecurse || crate::injection::spec_child_action(
                            infos,
                            resolved,
                            pw0,
                            pw1,
                            i,
                        ) == ChildAction::KeepOutside) ==> exists|q: int|
                            0 <= q < r.sub_trees@.len() && same_node_identity(
                                #[trigger] r.sub_trees@[q],
                                self.sub_trees@[i],
                            )
                    &&& forall|i: int|
                        0 <= i < self.sub_trees@.len() && ((
                        #[trigger] crate::injection::spec_child_action(infos, resolved, pw0, pw1, i))
                            == ChildAction::Remove || crate::injection::spec_child_action(
                            infos,
                            resolved,
                            pw0,
                            pw1,
                            i,
                        ) == ChildAction::Replace) ==> edits_contain_segment(
                            final(edits)@,
                            spec_subtree_removals(self.sub_trees@[i]),
                        )
                },
        decreases depth, self,
    {
        if w0 >= self.range_end || w1 <= self.range_start {
            proof {
                assert(edits@.take(edits@.len() as int) =~= edits@);
            }
            return self;
        }
        // pad by one byte each side, clamped to the node's own range
        let qs0 = if w0 > 0 {
            w0 - 1
        } else {
            0
        };
        let qs = if qs0 >= self.range_start {
            qs0
        } else {
            self.range_start
        };
        let w1p = if w1 < usize::MAX {
            w1 + 1
        } else {
            w1
        };
        let qe0 = if w1p <= text.bytes.len() {
            w1p
        } else {
            text.bytes.len()
        };
        let qe = if qe0 <= self.range_end {
            qe0
        } else {
            self.range_end
        };
        proof {
            assert(qs as int == spec_pad_lo(w0 as int, self.view().range_start));
            assert(qe as int == spec_pad_hi(w1 as int, text@.len() as int, self.view().range_end));
        }
        let res = registry.find(&self.lang);
        let resolved: Vec<Resolved> = match res {
            Some(lr) => {
                // a sub-tree resolved with a named override uses that
                // query here, for itself alone
                let inj_q: Option<&tree_sitter::Query> = match &self.injection_query {
                    Some(nm) => match lr.named_injection(nm) {
                        Some(q) => Some(q),
                        None => lr.injections.as_ref(),
                    },
                    None => lr.injections.as_ref(),
                };
                match inj_q {
                    Some(q) => {
                        let matches = run_query_matches(
                            q,
                            &self.native,
                            self.range_start,
                            self.off_row,
                            self.off_col,
                            qs,
                            qe,
                            &text.bytes,
                        );
                        let inj = raws_to_inj(&matches);
                        let names = query_capture_names(q);
                        let props = query_property_table(q);
                        resolve_injections(&inj, &names, &props, text)
                    },
                    None => Vec::new(),
                }
            },
            None => Vec::new(),
        };
        let infos = self.child_infos();
        let (actions, adds) = reconcile(&infos, &resolved, qs, qe);
        // this node's own captures, before the node is taken apart
        let own_hl: Option<Vec<HlCapture>> = match res {
            Some(lr) => match &lr.highlights {
                Some(q) => {
                    let matches = run_query_matches(
                        q,
                        &self.native,
                        self.range_start,
                        self.off_row,
                        self.off_col,
                        qs,
                        qe,
                        &text.bytes,
                    );
                    Some(raws_to_hl(&matches))
                },
                None => None,
            },
            None => None,
        };
        let own_priorities: Vec<u8> = match res {
            Some(lr) => clone_bytes(&lr.hl_priorities),
            None => Vec::new(),
        };
        let ghost base = edits@;
        let TsParser {
            lang,
            range_start,
            range_end,
            off_row,
            off_col,
            tree,
            ids,
            has_pending_diff,
            tagger,
            injection_query,
            native,
            sub_trees,
        } = self;
        let ps = range_start;
        let pe = range_end;
        let mut kids = sub_trees;
        let ghost kids0 = kids@;
        let kids_n = kids.len();
        let mut out: Vec<TsParser> = Vec::new();
        let mut idx: usize = 0;
        proof {
            assert(seq_extends(edits@, base)) by {
                assert(edits@.take(edits@.len() as int) =~= edits@);
            }
        }
        while kids.len() > 0
            invariant
                kids_n == kids0.len(),
                kids@.len() <= kids0.len(),
                kids@ =~= kids0.skip(kids0.len() - kids@.len()),
                kids0 == self.sub_trees@,
                idx == kids0.len() - kids@.len(),
                wf_view(self.view()),
                kids_ok(out@, ps as int, pe as int),
                ps == self.view().range_start,
                pe == self.view().range_end,
                qs as int == spec_pad_lo(w0 as int, self.view().range_start),
                qe as int == spec_pad_hi(w1 as int, text@.len() as int, self.view().range_end),
                seq_extends(edits@, base),
                infos_correspond(infos@, self.sub_trees@),
                actions@.len() == infos@.len(),
                forall|i: int|
                    0 <= i < actions@.len() ==> #[trigger] actions@[i]
                        == crate::injection::spec_child_action(
                        infos@,
                        resolved@,
                        qs as int,
                        qe as int,
                        i,
                    ),
                forall|q: int|
                    0 <= q < out@.len() ==> kept_or_added(
                        #[trigger] out@[q],
                        self.sub_trees@,
                        infos@,
                        resolved@,
                        qs as int,
                        qe as int,
                    ),
                forall|q: int|
                    0 <= q < out@.len() ==> exists|i: int|
                        0 <= i < idx && same_node_identity(#[trigger] out@[q], self.sub_trees@[i]),
                forall|i: int|
                    0 <= i < idx && ((#[trigger] actions@[i]) == ChildAction::KeepRecurse
                        || actions@[i] == ChildAction::KeepOutside) ==> exists|q: int|
                        0 <= q < out@.len() && same_node_identity(
                            #[trigger] out@[q],
                            self.sub_trees@[i],
                        ),
                forall|i: int|
                    0 <= i < idx && ((#[trigger] actions@[i]) == ChildAction::Remove || actions@[i]
                        == ChildAction::Replace) ==> edits_contain_segment(
                        edits@,
                        spec_subtree_removals(self.sub_trees@[i]),
                    ),
            decreases kids@.len(),
        {
            let ghost pre = kids@;
            let k = kids.remove(0);
            proof {
                lemma_views_of_pub(pre);
                lemma_views_of_pub(kids0);
                assert(k == pre[0]);
                assert(kids0.skip(kids0.len() - pre.len())[0] == kids0[kids0.len() - pre.len()]);
                assert(k == self.sub_trees@[kids0.len() - pre.len()]);
                assert(k.view() == self.view().children[kids0.len() - pre.len()]);
                assert(wf_view(k.view()));
            }
            let action = if idx < actions.len() {
                actions[idx]
            } else {
                ChildAction::KeepOutside
            };
            let ghost edits_before = edits@;
            let ghost out_before = out@;
            match action {
                ChildAction::KeepRecurse => {
                    let ks = k.range_start;
                    let ke = k.range_end;
                    let k2 = k.highlight_and_inject(
                        text,
                        registry,
                        ks,
                        ke,
                        depth,
                        budget,
                        next_tagger,
                        edits,
                    );
                    proof {
                        lemma_extends_trans(base, edits_before, edits@);
                        assert forall|i: int|
                            0 <= i < idx && ((#[trigger] actions@[i]) == ChildAction::Remove
                                || actions@[i] == ChildAction::Replace) implies edits_contain_segment(
                            edits@,
                            spec_subtree_removals(self.sub_trees@[i]),
                        ) by {
                            lemma_segment_extends(
                                edits_before,
                                edits@,
                                spec_subtree_removals(self.sub_trees@[i]),
                            );
                        }
                        assert(same_node_identity(k2, k));
                        assert(kept_or_added(
                            k2,
                            self.sub_trees@,
                            infos@,
                            resolved@,
                            qs as int,
                            qe as int,
                        ));
                        lemma_views_of_pub(self.sub_trees@);
                        assert forall|q: int| 0 <= q < out@.len() implies (
                        #[trigger] out@[q]).view().range_end <= k2.view().range_start by {
                            let i0 = choose|i0: int|
                                0 <= i0 < idx && same_node_identity(out@[q], self.sub_trees@[i0]);
                            assert(self.view().children[i0].range_end
                                <= self.view().children[idx as int].range_start);
                        }
                    }
                    insert_child(&mut out, k2, ps, pe);
                    proof {
                        assert(out@ == out_before.push(k2));
                        lemma_out_members(
                            out@,
                            out_before,
                            k2,
                            self.sub_trees@,
                            infos@,
                            resolved@,
                            qs as int,
                            qe as int,
                        );
                        assert forall|i: int|
                            0 <= i < idx + 1 && ((#[trigger] actions@[i])
                                == ChildAction::KeepRecurse || actions@[i]
                                == ChildAction::KeepOutside) implies exists|q: int|
                            0 <= q < out@.len() && same_node_identity(
                                #[trigger] out@[q],
                                self.sub_trees@[i],
                            ) by {
                            if i == idx {
                                assert(same_node_identity(out@[out@.len() - 1], self.sub_trees@[
                                i]));
                            } else {
                                let q0 = choose|q0: int|
                                    0 <= q0 < out_before.len() && same_node_identity(
                                        out_before[q0],
                                        self.sub_trees@[i],
                                    );
                                assert(out@[q0] == out_before[q0]);
                            }
                        }
                    }
                },
                ChildAction::KeepOutside => {
                    let k2 = k.highlight_and_inject(
                        text,
                        registry,
                        w0,
                        w1,
                        depth,
                        budget,
                        next_tagger,
                        edits,
                    );
                    proof {
                        lemma_extends_trans(base, edits_before, edits@);
                        assert forall|i: int|
                            0 <= i < idx && ((#[trigger] actions@[i]) == ChildAction::Remove
                                || actions@[i] == ChildAction::Replace) implies edits_contain_segment(
                            edits@,
                            spec_subtree_removals(self.sub_trees@[i]),
                        ) by {
                            lemma_segment_extends(
                                edits_before,
                                edits@,
                                spec_subtree_removals(self.sub_trees@[i]),
                            );
                        }
                        assert(same_node_identity(k2, k));
                        assert(kept_or_added(
                            k2,
                            self.sub_trees@,
                            infos@,
                            resolved@,
                            qs as int,
                            qe as int,
                        ));
                        lemma_views_of_pub(self.sub_trees@);
                        assert forall|q: int| 0 <= q < out@.len() implies (
                        #[trigger] out@[q]).view().range_end <= k2.view().range_start by {
                            let i0 = choose|i0: int|
                                0 <= i0 < idx && same_node_identity(out@[q], self.sub_trees@[i0]);
                            assert(self.view().children[i0].range_end
                                <= self.view().children[idx as int].range_start);
                        }
                    }
                    insert_child(&mut out, k2, ps, pe);
                    proof {
                        assert(out@ == out_before.push(k2));
                        lemma_out_members(
                            out@,
                            out_before,
                            k2,
                            self.sub_trees@,
                            infos@,
                            resolved@,
                            qs as int,
                            qe as int,
                        );
                        assert forall|i: int|
                            0 <= i < idx + 1 && ((#[trigger] actions@[i])
                                == ChildAction::KeepRecurse || actions@[i]
                                == ChildAction::KeepOutside) implies exists|q: int|
                            0 <= q < out@.len() && same_node_identity(
                                #[trigger] out@[q],
                                self.sub_trees@[i],
                            ) by {
                            if i == idx {
                                assert(same_node_identity(out@[out@.len() - 1], self.sub_trees@[
                                i]));
                            } else {
                                let q0 = choose|q0: int|
                                    0 <= q0 < out_before.len() && same_node_identity(
                                        out_before[q0],
                                        self.sub_trees@[i],
                                    );
                                assert(out@[q0] == out_before[q0]);
                            }
                        }
                    }
                },
                ChildAction::Remove => {
                    remove_subtree_tags(k, edits);
                    proof {
                        lemma_append_extends(edits_before, spec_subtree_removals(k));
                        lemma_extends_trans(base, edits_before, edits@);
                        lemma_segment_here(edits_before, spec_subtree_removals(k));
                        assert forall|i: int|
                            0 <= i < idx && ((#[trigger] actions@[i]) == ChildAction::Remove
                                || actions@[i] == ChildAction::Replace) implies edits_contain_segment(
                            edits@,
                            spec_subtree_removals(self.sub_trees@[i]),
                        ) by {
                            lemma_segment_extends(
                                edits_before,
                                edits@,
                                spec_subtree_removals(self.sub_trees@[i]),
                            );
                        }
                    }
                },
                ChildAction::Replace => {
                    remove_subtree_tags(k, edits);
                    proof {
                        lemma_append_extends(edits_before, spec_subtree_removals(k));
                        lemma_extends_trans(base, edits_before, edits@);
                        lemma_segment_here(edits_before, spec_subtree_removals(k));
                        assert forall|i: int|
                            0 <= i < idx && ((#[trigger] actions@[i]) == ChildAction::Remove
                                || actions@[i] == ChildAction::Replace) implies edits_contain_segment(
                            edits@,
                            spec_subtree_removals(self.sub_trees@[i]),
                        ) by {
                            lemma_segment_extends(
                                edits_before,
                                edits@,
                                spec_subtree_removals(self.sub_trees@[i]),
                            );
                        }
                    }
                },
            }
            idx = idx + 1;
        }
        // build the resolved injections that have no sub-tree yet, and
        // highlight each immediately
        let mut a: usize = 0;
        while a < adds.len()
            invariant
                a <= adds@.len(),
                kids_ok(out@, ps as int, pe as int),
                wf_view(self.view()),
                ps == self.view().range_start,
                pe == self.view().range_end,
                qs as int == spec_pad_lo(w0 as int, self.view().range_start),
                qe as int == spec_pad_hi(w1 as int, text@.len() as int, self.view().range_end),
                seq_extends(edits@, base),
                infos_correspond(infos@, self.sub_trees@),
                forall|k: int| 0 <= k < adds@.len() ==> 0 <= #[trigger] adds@[k] < resolved@.len(),
                forall|j: int|
                    0 <= j < resolved@.len() ==> (adds@.contains(j as usize)
                        <==> crate::injection::spec_add_needed(infos@, resolved@, j)),
                forall|q: int|
                    0 <= q < out@.len() ==> kept_or_added(
                        #[trigger] out@[q],
                        self.sub_trees@,
                        infos@,
                        resolved@,
                        qs as int,
                        qe as int,
                    ),
                actions@.len() == infos@.len(),
                forall|i: int|
                    0 <= i < actions@.len() ==> #[trigger] actions@[i]
                        == crate::injection::spec_child_action(
                        infos@,
                        resolved@,
                        qs as int,
                        qe as int,
                        i,
                    ),
                forall|i: int|
                    0 <= i < actions@.len() && ((#[trigger] actions@[i])
                        == ChildAction::KeepRecurse || actions@[i] == ChildAction::KeepOutside)
                        ==> exists|q: int|
                        0 <= q < out@.len() && same_node_identity(
                            #[trigger] out@[q],
                            self.sub_trees@[i],
                        ),
                forall|i: int|
                    0 <= i < actions@.len() && ((#[trigger] actions@[i]) == ChildAction::Remove
                        || actions@[i] == ChildAction::Replace) ==> edits_contain_segment(
                        edits@,
                        spec_subtree_removals(self.sub_trees@[i]),
                    ),
            decreases adds@.len() - a,
        {
            let j = adds[a];
            if j < resolved.len() {
                let t = &resolved[j];
                if t.start <= t.end && t.end <= usize::MAX / 2 && t.row <= usize::MAX / 2 && t.col
                    <= usize::MAX / 2 && depth > 0 {
                    match registry.find(&t.lang) {
                        Some(lr) => {
                            let tg = *next_tagger;
                            *next_tagger = if tg < usize::MAX {
                                tg + 1
                            } else {
                                tg
                            };
                            match TsParser::init(
                                &t.lang,
                                &lr.language,
                                text,
                                t.start,
                                t.end,
                                t.row,
                                t.col,
                                tg,
                                budget,
                            ) {
                                Ok(new_node) => {
                                    let mut new_node = new_node;
                                    new_node.injection_query = match &t.query_override {
                                        Some(nm) => Some(clone_bytes(nm)),
                                        None => None,
                                    };
                                    let ns = new_node.range_start;
                                    let ne = new_node.range_end;
                                    let ghost edits_before = edits@;
                                    let ghost out_before = out@;
                                    let n2 = new_node.highlight_and_inject(
                                        text,
                                        registry,
                                        ns,
                                        ne,
                                        depth - 1,
                                        budget,
                                        next_tagger,
                                        edits,
                                    );
                                    proof {
                                        lemma_extends_trans(base, edits_before, edits@);
                                        assert(adds@[a as int] == j);
                                        assert(adds@.contains(j));
                                        assert(crate::injection::spec_add_needed(
                                            infos@,
                                            resolved@,
                                            j as int,
                                        ));
                                        assert(n2.range_start == resolved@[j as int].start);
                                        assert(n2.range_end == resolved@[j as int].end);
                                        assert(n2.lang@ == resolved@[j as int].lang@);
                                        assert(crate::query::spec_opt_bytes_eq(
                                            n2.injection_query,
                                            resolved@[j as int].query_override,
                                        ));
                                        assert(kept_or_added(
                                            n2,
                                            self.sub_trees@,
                                            infos@,
                                            resolved@,
                                            qs as int,
                                            qe as int,
                                        ));
                                    }
                                    insert_child(&mut out, n2, ps, pe);
                                    proof {
                                        lemma_out_members(
                                            out@,
                                            out_before,
                                            n2,
                                            self.sub_trees@,
                                            infos@,
                                            resolved@,
                                            qs as int,
                                            qe as int,
                                        );
                                        assert forall|i: int|
                                            0 <= i < actions@.len() && ((#[trigger] actions@[i])
                                                == ChildAction::KeepRecurse || actions@[i]
                                                == ChildAction::KeepOutside) implies exists|q: int|
                                            0 <= q < out@.len() && same_node_identity(
                                                #[trigger] out@[q],
                                                self.sub_trees@[i],
                                            ) by {
                                            let q0 = choose|q0: int|
                                                0 <= q0 < out_before.len() && same_node_identity(
                                                    out_before[q0],
                                                    self.sub_trees@[i],
                                                );
                                            assert(out@.contains(out_before[q0]));
                                            let q1 = choose|q1: int|
                                                0 <= q1 < out@.len() && out@[q1] == out_before[q0];
                                        }
                                        assert forall|i: int|
                                            0 <= i < actions@.len() && ((#[trigger] actions@[i])
                                                == ChildAction::Remove || actions@[i]
                                                == ChildAction::Replace) implies edits_contain_segment(
                                            edits@,
                                            spec_subtree_removals(self.sub_trees@[i]),
                                        ) by {
                                            lemma_segment_extends(
                                                edits_before,
                                                edits@,
                                                spec_subtree_removals(self.sub_trees@[i]),
                                            );
                                        }
                                    }
                                },
                                Err(_) => {},
                            }
                        },
                        None => {},
                    }
                }
            }
            a = a + 1;
        }
        // this node's own tags, removed and re-inserted last, so a
        // re-added injection of the same language leaves no blank
        let ghost pre_he = edits@;
        match own_hl {
            Some(caps) => {
                let he = highlight_edits(&caps, &own_priorities, tagger, qs, qe);
                let mut h: usize = 0;
                proof {
                    assert(edits@ =~= pre_he + he@.take(0));
                }
                while h < he.len()
                    invariant
                        h <= he@.len(),
                        edits@ =~= pre_he + he@.take(h as int),
                    decreases he@.len() - h,
                {
                    edits.push(he[h]);
                    proof {
                        assert(edits@ =~= pre_he + he@.take(h + 1));
                    }
                    h = h + 1;
                }
                proof {
                    assert(he@.take(he@.len() as int) =~= he@);
                    assert(edits@ =~= pre_he + he@);
                    lemma_append_extends(pre_he, he@);
                    lemma_extends_trans(base, pre_he, edits@);
                    assert forall|i: int|
                        0 <= i < actions@.len() && ((#[trigger] actions@[i])
                            == ChildAction::Remove || actions@[i] == ChildAction::Replace) implies edits_contain_segment(
                        edits@,
                        spec_subtree_removals(self.sub_trees@[i]),
                    ) by {
                        lemma_segment_extends(
                            pre_he,
                            edits@,
                            spec_subtree_removals(self.sub_trees@[i]),
                        );
                    }
                    let mid = pre_he.subrange(base.len() as int, pre_he.len() as int);
                    assert(pre_he =~= base + mid);
                    assert(edits@ =~= base + mid + he@) by {
                        assert((base + mid) + he@ =~= base + mid + he@);
                    }
                    assert(edits@ == base + mid + crate::highlight::spec_highlight_edits(
                        caps@,
                        own_priorities@,
                        tagger,
                        qs,
                        qe,
                    ));
                    match spec_reg_find(registry.entries@, self.lang@) {
                        Some(ri) => {
                            assert(own_priorities@ == registry.entries@[ri].1.hl_priorities@);
                            assert(spec_highlight_edits_of(
                                caps@,
                                registry.entries@[ri].1.hl_priorities@,
                                mid,
                            ));
                        },
                        None => {},
                    }
                }
            },
            None => {
                proof {
                    // the node's language has no highlight query here
                    match spec_reg_find(registry.entries@, self.lang@) {
                        Some(ri) => {
                            assert(registry.entries@[ri].1.highlights is None);
                        },
                        None => {},
                    }
                }
            },
        }
        let r = TsParser {
            lang,
            range_start,
            range_end,
            off_row,
            off_col,
            tree,
            ids,
            has_pending_diff,
            tagger,
            injection_query,
            native,
            sub_trees: out,
        };
        proof {
            lemma_views_of_pub(r.sub_trees@);
            assert(wf_view(r.view()));
            assert(infos_correspond(infos@, self.sub_trees@));
            assert(spec_resolved_anchor(resolved@));
            assert(forall|q: int|
                0 <= q < r.sub_trees@.len() ==> kept_or_added(
                    #[trigger] r.sub_trees@[q],
                    self.sub_trees@,
                    infos@,
                    resolved@,
                    spec_pad_lo(w0 as int, self.view().range_start),
                    spec_pad_hi(w1 as int, text@.len() as int, self.view().range_end),
                ));
            assert forall|i: int|
                0 <= i < self.sub_trees@.len() && ((#[trigger] crate::injection::spec_child_action(
                    infos@,
                    resolved@,
                    spec_pad_lo(w0 as int, self.view().range_start),
                    spec_pad_hi(w1 as int, text@.len() as int, self.view().range_end),
                    i,
                )) == ChildAction::KeepRecurse || crate::injection::spec_child_action(
                    infos@,
                    resolved@,
                    spec_pad_lo(w0 as int, self.view().range_start),
                    spec_pad_hi(w1 as int, text@.len() as int, self.view().range_end),
                    i,
                ) == ChildAction::KeepOutside) implies exists|q: int|
                    0 <= q < r.sub_trees@.len() && same_node_identity(
                        #[trigger] r.sub_trees@[q],
                        self.sub_trees@[i],
                    ) by {
                assert(actions@[i] == crate::injection::spec_child_action(
                    infos@,
                    resolved@,
                    qs as int,
                    qe as int,
                    i,
                ));
            }
            assert forall|i: int|
                0 <= i < self.sub_trees@.len() && ((#[trigger] crate::injection::spec_child_action(
                    infos@,
                    resolved@,
                    spec_pad_lo(w0 as int, self.view().range_start),
                    spec_pad_hi(w1 as int, text@.len() as int, self.view().range_end),
                    i,
                )) == ChildAction::Remove || crate::injection::spec_child_action(
                    infos@,
                    resolved@,
                    spec_pad_lo(w0 as int, self.view().range_start),
                    spec_pad_hi(w1 as int, text@.len() as int, self.view().range_end),
                    i,
                ) == ChildAction::Replace) implies edits_contain_segment(
                    edits@,
                    spec_subtree_removals(self.sub_trees@[i]),
                ) by {
                assert(actions@[i] == crate::injection::spec_child_action(
                    infos@,
                    resolved@,
                    qs as int,
                    qe as int,
                    i,
                ));
            }
        }
        r
    }
}

/// The first sub-tree of `n` (scanning from position `j`) whose range
/// spans byte `b` and whose language is not comment-like.
pub open spec fn spec_pick_child(n: TsParser, b: int, j: int) -> Option<int>
    decreases n.sub_trees@.len() - j,
{
    if j < 0 || j >= n.sub_trees@.len() {
        None
    } else if n.sub_trees@[j].range_start <= b && b < n.sub_trees@[j].range_end
        && !crate::bytes::spec_contains_bytes(
        n.sub_trees@[j].lang@,
        crate::capnames::spec_comment_name(),
    ) {
        Some(j)
    } else {
        spec_pick_child(n, b, j + 1)
    }
}

/// Whether `c` is the innermost sub-tree at byte `b`: the node the
/// descent reaches by following, at each level, the first sub-tree that
/// spans `b` with a non-comment language.
pub open spec fn is_innermost_at(n: TsParser, b: int, c: TsParser) -> bool
    decreases n,
{
    match spec_pick_child(n, b, 0) {
        Some(i) => if 0 <= i < n.sub_trees@.len() {
            is_innermost_at(n.sub_trees@[i], b, c)
        } else {
            c == n
        },
        None => c == n,
    }
}

/// Descends to the innermost sub-tree spanning `b`, skipping sub-trees
/// of comment-like languages: indentation defers to the most specific
/// grammar at the position.
fn innermost_at<'a>(node: &'a TsParser, b: usize, comment: &Vec<u8>) -> (r: &'a TsParser)
    requires
        comment@ == crate::capnames::spec_comment_name(),
    ensures
        is_innermost_at(*node, b as int, *r),
    decreases *node,
{
    let len = node.sub_trees.len();
    let mut i: usize = 0;
    while i < len
        invariant
            len == node.sub_trees@.len(),
            i <= len,
            comment@ == crate::capnames::spec_comment_name(),
            spec_pick_child(*node, b as int, 0) == spec_pick_child(*node, b as int, i as int),
        decreases len - i,
    {
        let st = &node.sub_trees[i];
        if st.range_start <= b && b < st.range_end && !contains_bytes(&st.lang, comment) {
            proof {
                assert(spec_pick_child(*node, b as int, i as int) == Some(i as int));
            }
            return innermost_at(st, b, comment);
        }
        i = i + 1;
    }
    proof {
        assert(spec_pick_child(*node, b as int, 0) is None);
    }
    node
}

impl TsParser {
    /// The indentation level at the start of `line`: locates the
    /// innermost sub-tree covering the line's first byte (skipping
    /// sub-trees of comment-like languages), builds the capture index
    /// from that tree's indent query, and walks the anchor's ancestor
    /// chain per `indent_on_tree`. No opinion when that sub-tree's
    /// language is unregistered, has no indent query or the query has
    /// no patterns; deferral when the line lies outside the buffer.
    /// When this node's own language decides (it has no sub-tree at the
    /// position), an unregistered language or one without an indent
    /// query yields no opinion.
    pub fn indent_on(
        &self,
        text: &TextBuf,
        registry: &LanguageRegistry,
        line: usize,
        tab: u32,
    ) -> (r: IndentResult)
        ensures
            text@.len() == usize::MAX || line >= crate::text::spec_line_count(text@) ==> r
                == IndentResult::Defer,
            (text@.len() < usize::MAX && line < crate::text::spec_line_count(text@)) ==> forall|
                sb: int,
            |
                #[trigger] crate::indent::spec_line_start_at(text@, line as int, sb)
                    ==> exists|ct: TsParser|
                    #![trigger is_innermost_at(*self, sb, ct)]
                    is_innermost_at(*self, sb, ct) && (match spec_reg_find(
                        registry.entries@,
                        ct.lang@,
                    ) {
                        None => r == IndentResult::NoOpinion,
                        Some(ri) => ((registry.entries@[ri].1.indents is None ==> r
                            == IndentResult::NoOpinion) && (registry.entries@[ri].1.indents
                            is Some ==> ((!ct.tree.wf() ==> r == IndentResult::Defer) && (
                        ct.tree.wf() ==> (r == IndentResult::NoOpinion || exists|
                            recs: Seq<CaptureRec>,
                            nms: Seq<Vec<u8>>,
                            caps: crate::query::IndentCaps,
                            a: crate::indent::Anchor,
                        |
                            #![trigger crate::query::caps_built_from(caps, recs, nms), crate::indent::anchor_conforms(ct.tree, caps, text@, line as int, a)]
                            {
                                &&& crate::query::caps_built_from(caps, recs, nms)
                                &&& crate::indent::anchor_conforms(
                                    ct.tree,
                                    caps,
                                    text@,
                                    line as int,
                                    a,
                                )
                                &&& r == crate::indent::spec_anchor_outcome(
                                    ct.tree,
                                    caps,
                                    text@,
                                    line as int,
                                    tab as int,
                                    a,
                                )
                            }))))),
                    }),
    {
        if text.bytes.len() == usize::MAX {
            return IndentResult::Defer;
        }
        let count = text.line_count();
        if line >= count {
            return IndentResult::Defer;
        }
        let (start, end) = text.line_range(line);
        proof {
            crate::indent::lemma_line_start_unique(
                text@,
                line as int,
                start as int,
                end as int,
            );
        }
        // indentation defers to the most specific grammar at the point
        let comment = comment_name();
        let cur: &TsParser = innermost_at(self, start, &comment);
        let res = match registry.find(&cur.lang) {
            Some(r) => r,
            None => {
                return IndentResult::NoOpinion;
            },
        };
        let q = match &res.indents {
            Some(q) => q,
            None => {
                return IndentResult::NoOpinion;
            },
        };
        let pattern_count = query_pattern_count(q);
        if !cur.tree.check_wf() {
            return IndentResult::Defer;
        }
        let matches = run_query_matches(
            q,
            &cur.native,
            cur.range_start,
            cur.off_row,
            cur.off_col,
            cur.range_start,
            cur.range_end,
            &text.bytes,
        );
        let recs = map_captures(&matches, &cur.ids);
        let names = query_capture_names(q);
        let props = query_property_table(q);
        let r = crate::indent::indent_on_tree(
            &cur.tree,
            text,
            pattern_count,
            &recs,
            &names,
            &props,
            line,
            tab,
        );
        proof {
            if r != IndentResult::NoOpinion {
                let (caps, a) = choose|caps: crate::query::IndentCaps, a: crate::indent::Anchor|
                    #![trigger crate::indent::anchor_conforms(cur.tree, caps, text@, line as int, a)]
                    {
                        &&& crate::query::caps_built_from(caps, recs@, names@)
                        &&& crate::indent::anchor_conforms(cur.tree, caps, text@, line as int, a)
                        &&& r == crate::indent::spec_anchor_outcome(
                            cur.tree,
                            caps,
                            text@,
                            line as int,
                            tab as int,
                            a,
                        )
                    };
                assert(crate::query::caps_built_from(caps, recs@, names@)
                    && crate::indent::anchor_conforms(cur.tree, caps, text@, line as int, a));
            }
        }
        r
    }
}

/// Gathers the structurally changed ranges of every node that holds a
/// pending diff, to at most `depth` levels.
fn collect_changed_ranges(n: &TsParser, list: &mut Vec<(usize, usize)>, depth: usize)
    decreases depth,
{
    if depth == 0 {
        return ;
    }
    if n.has_pending_diff {
        let mut rs = tree_changed_ranges(&n.native);
        let mut i: usize = 0;
        while i < rs.len()
            invariant
                i <= rs@.len(),
            decreases rs@.len() - i,
        {
            list.push(rs[i]);
            i = i + 1;
        }
        let mut j: usize = 0;
        while j < n.sub_trees.len()
            invariant
                j <= n.sub_trees@.len(),
                depth >= 1,
            decreases n.sub_trees@.len() - j,
        {
            collect_changed_ranges(&n.sub_trees[j], list, depth - 1);
            j = j + 1;
        }
    }
}

/// Bridges to the forest module's view helpers.
proof fn lemma_views_of_pub(s: Seq<TsParser>)
    ensures
        crate::forest::views_of(s).len() == s.len(),
        forall|i: int|
            0 <= i < s.len() ==> #[trigger] crate::forest::views_of(s)[i] == s[i].view(),
    decreases s,
{
    if s.len() > 0 {
        lemma_views_of_pub(s.skip(1));
        assert forall|i: int| 0 <= i < s.len() implies #[trigger] crate::forest::views_of(s)[i]
            == s[i].view() by {
            if i > 0 {
                assert(crate::forest::views_of(s)[i] == crate::forest::views_of(s.skip(1))[i - 1]);
                assert(s.skip(1)[i - 1] == s[i]);
            }
        }
    }
}

proof fn lemma_views_of_push_pub(s: Seq<TsParser>, x: TsParser)
    ensures
        crate::forest::views_of(s.push(x)) =~= crate::forest::views_of(s).push(x.view()),
    decreases s,
{
    if s.len() == 0 {
        assert(s.push(x)[0] == x);
        assert(s.push(x).skip(1) =~= Seq::<TsParser>::empty());
        assert(crate::forest::views_of(s.push(x).skip(1)) =~= Seq::<
            crate::forest::NodeView,
        >::empty());
        assert(crate::forest::views_of(s) =~= Seq::<crate::forest::NodeView>::empty());
    } else {
        assert(s.push(x)[0] == s[0]);
        assert(s.push(x).skip(1) =~= s.skip(1).push(x));
        lemma_views_of_push_pub(s.skip(1), x);
        assert(crate::forest::views_of(s.push(x).skip(1)) == crate::forest::views_of(
            s.skip(1).push(x),
        ));
        assert(crate::forest::views_of(s.push(x)) =~= seq![s[0].view()] + crate::forest::views_of(
            s.skip(1),
        ).push(x.view()));
    }
}

} // verus!
