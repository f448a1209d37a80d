//! Edit records: a `Change` is one text edit, a `Moment` is an ordered
//! batch of changes applied atomically to one buffer revision.

use vstd::prelude::*;

use crate::point::BufPoint;
use crate::point::RowCol;
use crate::point::deoffset;

verus! {

/// One text edit: the text between `start` and `taken_end` was replaced
/// by text ending at `added_end`. All points are in the coordinates of
/// the buffer at the time this change is applied (changes of one moment
/// are sequential, each in the coordinates left by the previous one).
#[derive(Clone, Copy, PartialEq, Eq, Structural, Debug)]
pub struct Change {
    pub start: BufPoint,
    pub taken_end: BufPoint,
    pub added_end: BufPoint,
}

/// A point is bounded so that one shifted position always fits in usize.
pub open spec fn wf_point(p: BufPoint) -> bool {
    p.byte <= usize::MAX / 2 && p.line <= usize::MAX / 2 && p.col <= usize::MAX / 2
}

impl Change {
    /// A change removes a span that starts at `start`, and inserts one
    /// that also starts there.
    pub open spec fn wf(self) -> bool {
        &&& wf_point(self.start)
        &&& wf_point(self.taken_end)
        &&& wf_point(self.added_end)
        &&& self.start.byte <= self.taken_end.byte
        &&& self.start.line <= self.taken_end.line
        &&& self.start.byte <= self.added_end.byte
        &&& self.start.line <= self.added_end.line
    }

    /// Net byte shift: what the change adds to every byte position at or
    /// after the removed span's end.
    pub open spec fn shift_bytes(self) -> int {
        self.added_end.byte - self.taken_end.byte
    }

    /// Net line shift.
    pub open spec fn shift_lines(self) -> int {
        self.added_end.line - self.taken_end.line
    }
}

/// An ordered batch of changes: ascending and non-overlapping, each
/// given in the coordinates produced by the previous one.
pub struct Moment {
    pub changes: Vec<Change>,
}

impl Moment {
    pub open spec fn wf(self) -> bool {
        &&& forall|i: int| 0 <= i < self.changes@.len() ==> (#[trigger] self.changes@[i]).wf()
        &&& forall|i: int|
            0 <= i && i + 1 < self.changes@.len() ==> {
                &&& (#[trigger] self.changes@[i]).added_end.byte <= self.changes@[i + 1].start.byte
                &&& self.changes@[i].added_end.line <= self.changes@[i + 1].start.line
            }
    }

    /// The sum of the byte shifts of all changes.
    pub open spec fn net_shift_bytes(self) -> int {
        net_shift_bytes_of(self.changes@)
    }

    /// Checks the ordering and point sanity of the batch at run time,
    /// for change logs that arrive from outside the engine.
    pub fn check(&self) -> (r: bool)
        ensures
            r == self.wf(),
    {
        let mut i: usize = 0;
        while i < self.changes.len()
            invariant
                i <= self.changes@.len(),
                forall|k: int| 0 <= k < i ==> (#[trigger] self.changes@[k]).wf(),
                forall|k: int|
                    0 <= k < i && k + 1 < self.changes@.len() ==> {
                        &&& (#[trigger] self.changes@[k]).added_end.byte <= self.changes@[k
                            + 1].start.byte
                        &&& self.changes@[k].added_end.line <= self.changes@[k + 1].start.line
                    },
            decreases self.changes@.len() - i,
        {
            let c = &self.changes[i];
            if !(wf_point_check(c.start) && wf_point_check(c.taken_end) && wf_point_check(
                c.added_end,
            ) && c.start.byte <= c.taken_end.byte && c.start.line <= c.taken_end.line
                && c.start.byte <= c.added_end.byte && c.start.line <= c.added_end.line) {
                return false;
            }
            if i + 1 < self.changes.len() {
                let d = &self.changes[i + 1];
                if !(c.added_end.byte <= d.start.byte && c.added_end.line <= d.start.line) {
                    return false;
                }
            }
            i = i + 1;
        }
        true
    }
}

fn wf_point_check(p: BufPoint) -> (r: bool)
    ensures
        r == wf_point(p),
{
    p.byte <= usize::MAX / 2 && p.line <= usize::MAX / 2 && p.col <= usize::MAX / 2
}

/// Net byte shift of a sequence of changes.
pub open spec fn net_shift_bytes_of(changes: Seq<Change>) -> int
    decreases changes.len(),
{
    if changes.len() == 0 {
        0
    } else {
        changes[0].shift_bytes() + net_shift_bytes_of(changes.skip(1))
    }
}

/// Whether every change of `changes` stays inside a buffer that starts
/// `len` bytes long, the length evolving with each change's shift.
pub open spec fn moment_fits(changes: Seq<Change>, len: int) -> bool
    decreases changes.len(),
{
    if changes.len() == 0 {
        true
    } else {
        &&& changes[0].taken_end.byte <= len
        &&& len + changes[0].shift_bytes() <= usize::MAX / 2
        &&& moment_fits(changes.skip(1), len + changes[0].shift_bytes())
    }
}

/// Whether a change removes one endpoint of the half-open range
/// `[start, end)` without removing the whole of it: such a range can no
/// longer be tracked and the node that owns it is destroyed.
pub open spec fn spec_change_clips(c: Change, start: int, end: int) -> bool {
    ||| (c.start.byte <= start && start < c.taken_end.byte)
    ||| (c.start.byte < end && end <= c.taken_end.byte)
}

/// Whether `change` clips the range `[start, end)`.
pub fn change_clips(change: &Change, start: usize, end: usize) -> (r: bool)
    ensures
        r == spec_change_clips(*change, start as int, end as int),
{
    (change.start.byte <= start && start < change.taken_end.byte)
        || (change.start.byte < end && end <= change.taken_end.byte)
}

/// An accumulated net shift over a run of changes, in bytes and lines.
#[derive(Clone, Copy, PartialEq, Eq, Structural, Debug)]
pub struct Shift {
    pub bytes: i64,
    pub lines: i64,
}

impl Shift {
    pub open spec fn zero_spec() -> Shift {
        Shift { bytes: 0, lines: 0 }
    }

    pub fn zero() -> (r: Shift)
        ensures
            r == Shift::zero_spec(),
    {
        Shift { bytes: 0i64, lines: 0i64 }
    }

    /// The net shift of one change.
    pub fn of_change(c: &Change) -> (r: Shift)
        requires
            c.wf(),
        ensures
            r.bytes == c.shift_bytes(),
            r.lines == c.shift_lines(),
    {
        Shift {
            bytes: c.added_end.byte as i64 - c.taken_end.byte as i64,
            lines: c.added_end.line as i64 - c.taken_end.line as i64,
        }
    }
}

/// Adds two accumulated shifts together.
pub fn add_shifts(lhs: Shift, rhs: Shift) -> (r: Shift)
    requires
        i64::MIN <= lhs.bytes + rhs.bytes <= i64::MAX,
        i64::MIN <= lhs.lines + rhs.lines <= i64::MAX,
    ensures
        r.bytes == lhs.bytes + rhs.bytes,
        r.lines == lhs.lines + rhs.lines,
{
    Shift { bytes: lhs.bytes + rhs.bytes, lines: lhs.lines + rhs.lines }
}

/// An incremental edit handed to the native tree, in the local
/// coordinates of the node that owns the tree.
#[derive(Clone, Copy, PartialEq, Eq, Structural, Debug)]
pub struct EditRec {
    pub start_byte: usize,
    pub old_end_byte: usize,
    pub new_end_byte: usize,
    pub start_row: usize,
    pub start_col: usize,
    pub old_end_row: usize,
    pub old_end_col: usize,
    pub new_end_row: usize,
    pub new_end_col: usize,
}

/// Whether a change's points sit at or after a node's start, so that the
/// change can be translated into the node's local coordinate space.
pub open spec fn change_in_local_space(c: Change, off_row: int, off_col: int, r_start: int) -> bool {
    &&& r_start <= c.start.byte
    &&& off_row <= c.start.line
    &&& c.start.line == off_row ==> off_col <= c.start.col
    &&& off_row <= c.taken_end.line
    &&& c.taken_end.line == off_row ==> off_col <= c.taken_end.col
    &&& off_row <= c.added_end.line
    &&& c.added_end.line == off_row ==> off_col <= c.added_end.col
}

/// Translates a change into the local coordinate space of a node whose
/// range starts at byte `r_start` with row/column offset `offset`.
pub fn input_edit(change: &Change, offset: RowCol, r_start: usize) -> (r: EditRec)
    requires
        change.wf(),
        change_in_local_space(*change, offset.row as int, offset.col as int, r_start as int),
    ensures
        r.start_byte == change.start.byte - r_start,
        r.old_end_byte == change.taken_end.byte - r_start,
        r.new_end_byte == change.added_end.byte - r_start,
        r.start_row == change.start.line - offset.row,
        r.old_end_row == change.taken_end.line - offset.row,
        r.new_end_row == change.added_end.line - offset.row,
        r.start_col == if change.start.line == offset.row {
            change.start.col - offset.col
        } else {
            change.start.col as int
        },
        r.old_end_col == if change.taken_end.line == offset.row {
            change.taken_end.col - offset.col
        } else {
            change.taken_end.col as int
        },
        r.new_end_col == if change.added_end.line == offset.row {
            change.added_end.col - offset.col
        } else {
            change.added_end.col as int
        },
{
    let start = deoffset(RowCol { row: change.start.line, col: change.start.col }, offset);
    let old_end = deoffset(
        RowCol { row: change.taken_end.line, col: change.taken_end.col },
        offset,
    );
    let new_end = deoffset(
        RowCol { row: change.added_end.line, col: change.added_end.col },
        offset,
    );
    EditRec {
        start_byte: change.start.byte - r_start,
        old_end_byte: change.taken_end.byte - r_start,
        new_end_byte: change.added_end.byte - r_start,
        start_row: start.row,
        start_col: start.col,
        old_end_row: old_end.row,
        old_end_col: old_end.col,
        new_end_row: new_end.row,
        new_end_col: new_end.col,
    }
}

} // verus!
