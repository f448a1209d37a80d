//! Positions in the host buffer and row/column offsets for nested trees.

use vstd::prelude::*;

verus! {

/// A position in the host buffer: an absolute byte offset, the line it
/// falls on, and the column (bytes since the start of that line).
#[derive(Clone, Copy, PartialEq, Eq, Structural, Debug)]
pub struct BufPoint {
    pub byte: usize,
    pub line: usize,
    pub col: usize,
}

/// Where a nested tree's local coordinate space (which starts at row 0)
/// sits in the host buffer's coordinate space.
#[derive(Clone, Copy, PartialEq, Eq, Structural, Debug)]
pub struct RowCol {
    pub row: usize,
    pub col: usize,
}

impl BufPoint {
    pub fn new(byte: usize, line: usize, col: usize) -> (r: BufPoint)
        ensures
            r.byte == byte && r.line == line && r.col == col,
    {
        BufPoint { byte, line, col }
    }
}

impl RowCol {
    pub fn new(row: usize, col: usize) -> (r: RowCol)
        ensures
            r.row == row && r.col == col,
    {
        RowCol { row, col }
    }
}

/// Translates a buffer-space point into a tree's local space by removing
/// the tree's offset: the column changes only when the point sits on the
/// offset's own row.
pub fn deoffset(p: RowCol, offset: RowCol) -> (r: RowCol)
    requires
        offset.row <= p.row,
        p.row == offset.row ==> offset.col <= p.col,
    ensures
        r.row == p.row - offset.row,
        p.row == offset.row ==> r.col == p.col - offset.col,
        p.row != offset.row ==> r.col == p.col,
{
    if p.row == offset.row {
        RowCol { row: 0, col: p.col - offset.col }
    } else {
        RowCol { row: p.row - offset.row, col: p.col }
    }
}

/// Translates a local-space point back into buffer space by adding an
/// offset: the column changes only for points on the local row 0.
pub fn reoffset(p: RowCol, offset: RowCol) -> (r: RowCol)
    requires
        p.row + offset.row <= usize::MAX,
        p.row == 0 ==> p.col + offset.col <= usize::MAX,
    ensures
        r.row == p.row + offset.row,
        p.row == 0 ==> r.col == p.col + offset.col,
        p.row != 0 ==> r.col == p.col,
{
    if p.row == 0 {
        RowCol { row: offset.row, col: p.col + offset.col }
    } else {
        RowCol { row: p.row + offset.row, col: p.col }
    }
}

} // verus!
