//! The highlighter: turns highlight-query captures into tag edits
//! against the host's tag store, and a model of that store showing the
//! edits idempotent.

use vstd::prelude::*;

verus! {

/// One style tag in the host's tag store, owned by a tag namespace
/// (`tagger`): a byte range, the capture index standing for the style,
/// and the semantic priority.
#[derive(Clone, Copy, PartialEq, Eq, Structural, Debug)]
pub struct Tag {
    pub tagger: usize,
    pub start: usize,
    pub end: usize,
    pub capture: usize,
    pub priority: u8,
}

/// One edit against the tag store.
#[derive(Clone, Copy, PartialEq, Eq, Structural, Debug)]
pub enum TagEdit {
    /// Remove every tag of `tagger` whose start lies in `[start, end)`.
    Remove { tagger: usize, start: usize, end: usize },
    /// Insert a tag (the store never holds duplicates).
    Insert(Tag),
}

/// One capture of the highlight query over the window.
#[derive(Clone, Copy, PartialEq, Eq, Structural, Debug)]
pub struct HlCapture {
    pub capture: usize,
    pub start_byte: usize,
    pub end_byte: usize,
}

/// Whether a removal edit hits a tag.
pub open spec fn spec_removes(tagger: int, start: int, end: int, t: Tag) -> bool {
    t.tagger == tagger && start <= t.start < end
}

/// The tag store after one edit.
pub open spec fn spec_apply_edit(s: Set<Tag>, e: TagEdit) -> Set<Tag> {
    match e {
        TagEdit::Remove { tagger, start, end } => s.filter(
            |t: Tag| !spec_removes(tagger as int, start as int, end as int, t),
        ),
        TagEdit::Insert(t) => s.insert(t),
    }
}

/// The tag store after a list of edits, applied in order.
pub open spec fn spec_apply_edits(s: Set<Tag>, es: Seq<TagEdit>) -> Set<Tag>
    decreases es.len(),
{
    if es.len() == 0 {
        s
    } else {
        spec_apply_edits(spec_apply_edit(s, es[0]), es.skip(1))
    }
}

/// The insert edits for the captures scanned so far: one tag per
/// capture whose node has non-zero byte length, carrying the capture
/// index and its priority.
pub open spec fn spec_insert_edits(
    captures: Seq<HlCapture>,
    priorities: Seq<u8>,
    tagger: usize,
) -> Seq<TagEdit>
    decreases captures.len(),
{
    if captures.len() == 0 {
        Seq::empty()
    } else {
        let rest = spec_insert_edits(captures.skip(1), priorities, tagger);
        let c = captures[0];
        if c.start_byte != c.end_byte {
            seq![
                TagEdit::Insert(
                    Tag {
                        tagger,
                        start: c.start_byte,
                        end: c.end_byte,
                        capture: c.capture,
                        priority: if c.capture < priorities.len() {
                            priorities[c.capture as int]
                        } else {
                            0
                        },
                    },
                ),
            ] + rest
        } else {
            rest
        }
    }
}

/// The edits of one highlight pass over the window `[w0, w1)`: first
/// remove the namespace's tags in the window, then insert one tag per
/// non-empty capture.
pub open spec fn spec_highlight_edits(
    captures: Seq<HlCapture>,
    priorities: Seq<u8>,
    tagger: usize,
    w0: usize,
    w1: usize,
) -> Seq<TagEdit> {
    seq![TagEdit::Remove { tagger, start: w0, end: w1 }] + spec_insert_edits(
        captures,
        priorities,
        tagger,
    )
}

/// Builds the tag edits of one highlight pass: a removal of the
/// window's own tags followed by one insertion per capture with a
/// non-empty range.
pub fn highlight_edits(
    captures: &Vec<HlCapture>,
    priorities: &Vec<u8>,
    tagger: usize,
    w0: usize,
    w1: usize,
) -> (r: Vec<TagEdit>)
    ensures
        r@ == spec_highlight_edits(captures@, priorities@, tagger, w0, w1),
{
    let mut out: Vec<TagEdit> = Vec::new();
    out.push(TagEdit::Remove { tagger, start: w0, end: w1 });
    proof {
        assert(out@.skip(1) =~= Seq::<TagEdit>::empty());
        assert(captures@.skip(0) =~= captures@);
        assert(Seq::<TagEdit>::empty() + spec_insert_edits(captures@, priorities@, tagger)
            =~= spec_insert_edits(captures@, priorities@, tagger));
    }
    let mut i: usize = 0;
    while i < captures.len()
        invariant
            i <= captures@.len(),
            out@.len() >= 1,
            out@[0] == (TagEdit::Remove { tagger, start: w0, end: w1 }),
            out@.skip(1) + spec_insert_edits(captures@.skip(i as int), priorities@, tagger)
                == spec_insert_edits(captures@, priorities@, tagger),
        decreases captures@.len() - i,
    {
        proof {
            assert(captures@.skip(i as int)[0] == captures@[i as int]);
            assert(captures@.skip(i as int).skip(1) =~= captures@.skip(i + 1));
        }
        let c = captures[i];
        if c.start_byte != c.end_byte {
            let priority = if c.capture < priorities.len() {
                priorities[c.capture]
            } else {
                0
            };
            let t = Tag { tagger, start: c.start_byte, end: c.end_byte, capture: c.capture, priority };
            let ghost out0 = out@;
            out.push(TagEdit::Insert(t));
            proof {
                assert(out@.skip(1) =~= out0.skip(1) + seq![TagEdit::Insert(t)]);
                assert(out0.skip(1) + seq![TagEdit::Insert(t)] + spec_insert_edits(
                    captures@.skip(i + 1),
                    priorities@,
                    tagger,
                ) =~= out0.skip(1) + (seq![TagEdit::Insert(t)] + spec_insert_edits(
                    captures@.skip(i + 1),
                    priorities@,
                    tagger,
                )));
            }
        }
        i = i + 1;
    }
    proof {
        assert(captures@.skip(captures@.len() as int) =~= Seq::<HlCapture>::empty());
        assert(out@ =~= seq![TagEdit::Remove { tagger, start: w0, end: w1 }] + out@.skip(1));
    }
    out
}

/// The inserts of a highlight pass are insert edits only.
proof fn lemma_insert_edits_are_inserts(captures: Seq<HlCapture>, priorities: Seq<u8>, tagger: usize)
    ensures
        forall|k: int|
            0 <= k < spec_insert_edits(captures, priorities, tagger).len() ==> spec_insert_edits(
                captures,
                priorities,
                tagger,
            )[k] is Insert,
    decreases captures.len(),
{
    if captures.len() > 0 {
        lemma_insert_edits_are_inserts(captures.skip(1), priorities, tagger);
    }
}

/// Applying a run of insert edits is the same as adding the inserted
/// tags as a set.
proof fn lemma_apply_inserts(s: Set<Tag>, es: Seq<TagEdit>)
    requires
        forall|k: int| 0 <= k < es.len() ==> #[trigger] es[k] is Insert,
    ensures
        forall|t: Tag|
            #[trigger] spec_apply_edits(s, es).contains(t) <==> (s.contains(t) || exists|k: int|
                0 <= k < es.len() && es[k] == TagEdit::Insert(t)),
    decreases es.len(),
{
    if es.len() > 0 {
        let s0 = spec_apply_edit(s, es[0]);
        lemma_apply_inserts(s0, es.skip(1));
        assert(es[0] is Insert);
        assert forall|t: Tag| #[trigger] spec_apply_edits(s, es).contains(t) implies (s.contains(t)
            || exists|k: int| 0 <= k < es.len() && es[k] == TagEdit::Insert(t)) by {
            assert(spec_apply_edits(s0, es.skip(1)).contains(t));
            if s0.contains(t) {
                if !s.contains(t) {
                    assert(es[0] == TagEdit::Insert(t));
                }
            } else {
                let k = choose|k: int|
                    0 <= k < es.skip(1).len() && es.skip(1)[k] == TagEdit::Insert(t);
                assert(es.skip(1)[k] == es[k + 1]);
            }
        }
        assert forall|t: Tag|
            (s.contains(t) || exists|k: int|
                0 <= k < es.len() && es[k] == TagEdit::Insert(t)) implies #[trigger] spec_apply_edits(
            s,
            es,
        ).contains(t) by {
            assert(spec_apply_edits(s, es) == spec_apply_edits(s0, es.skip(1)));
            if s.contains(t) {
                assert(s0.contains(t));
                assert(spec_apply_edits(s0, es.skip(1)).contains(t));
            } else {
                let k = choose|k: int| 0 <= k < es.len() && es[k] == TagEdit::Insert(t);
                if k == 0 {
                    assert(s0.contains(t));
                    assert(spec_apply_edits(s0, es.skip(1)).contains(t));
                } else {
                    assert(es.skip(1)[k - 1] == es[k]);
                    assert(spec_apply_edits(s0, es.skip(1)).contains(t));
                }
            }
        }
    }
}

/// Applying the edits of one highlight pass twice leaves the same tag
/// store as applying them once: the pass first clears its namespace's
/// window and then inserts a fixed tag set, so the second pass removes
/// and re-adds exactly what the first one wrote.
pub proof fn lemma_highlight_edits_idempotent(
    s: Set<Tag>,
    captures: Seq<HlCapture>,
    priorities: Seq<u8>,
    tagger: usize,
    w0: usize,
    w1: usize,
)
    ensures
        ({
            let es = spec_highlight_edits(captures, priorities, tagger, w0, w1);
            spec_apply_edits(spec_apply_edits(s, es), es) =~= spec_apply_edits(s, es)
        }),
{
    let es = spec_highlight_edits(captures, priorities, tagger, w0, w1);
    let inserts = spec_insert_edits(captures, priorities, tagger);
    let rem = TagEdit::Remove { tagger, start: w0, end: w1 };
    assert(es[0] == rem);
    assert(es.skip(1) =~= inserts);
    lemma_insert_edits_are_inserts(captures, priorities, tagger);
    let s1 = spec_apply_edit(s, rem);
    lemma_apply_inserts(s1, inserts);
    let once = spec_apply_edits(s, es);
    assert(once == spec_apply_edits(s1, inserts));
    let s2 = spec_apply_edit(once, rem);
    lemma_apply_inserts(s2, inserts);
    let twice = spec_apply_edits(once, es);
    assert(twice == spec_apply_edits(s2, inserts));
    assert forall|t: Tag| #[trigger] twice.contains(t) implies once.contains(t) by {
        if s2.contains(t) {
            assert(once.contains(t));
        }
    }
    assert forall|t: Tag| #[trigger] once.contains(t) implies twice.contains(t) by {
        if !(exists|k: int| 0 <= k < inserts.len() && inserts[k] == TagEdit::Insert(t)) {
            assert(s1.contains(t));
            assert(!spec_removes(tagger as int, w0 as int, w1 as int, t));
            assert(s2.contains(t));
        }
    }
}

} // verus!
