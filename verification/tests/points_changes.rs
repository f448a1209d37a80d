use duat_treesitter::change::{add_shifts, change_clips, input_edit, Shift};
use duat_treesitter::{BufPoint, Change, Moment, RowCol};
use duat_treesitter::point::{deoffset, reoffset};

fn pt(byte: usize, line: usize, col: usize) -> BufPoint {
    BufPoint { byte, line, col }
}

#[test]
fn deoffset_same_row_subtracts_column() {
    let r = deoffset(RowCol { row: 3, col: 10 }, RowCol { row: 3, col: 4 });
    assert_eq!((r.row, r.col), (0, 6));
}

#[test]
fn deoffset_other_row_keeps_column() {
    let r = deoffset(RowCol { row: 5, col: 10 }, RowCol { row: 3, col: 4 });
    assert_eq!((r.row, r.col), (2, 10));
}

#[test]
fn reoffset_row_zero_adds_column() {
    let r = reoffset(RowCol { row: 0, col: 6 }, RowCol { row: 3, col: 4 });
    assert_eq!((r.row, r.col), (3, 10));
}

#[test]
fn reoffset_other_row_keeps_column() {
    let r = reoffset(RowCol { row: 2, col: 10 }, RowCol { row: 3, col: 4 });
    assert_eq!((r.row, r.col), (5, 10));
}

#[test]
fn change_clips_start_of_range() {
    // removes [5, 15): range [10, 20) loses its start
    let c = Change { start: pt(5, 0, 5), taken_end: pt(15, 0, 15), added_end: pt(5, 0, 5) };
    assert!(change_clips(&c, 10, 20));
}

#[test]
fn change_clips_end_of_range() {
    let c = Change { start: pt(15, 0, 15), taken_end: pt(25, 0, 25), added_end: pt(15, 0, 15) };
    assert!(change_clips(&c, 10, 20));
}

#[test]
fn change_before_range_does_not_clip() {
    let c = Change { start: pt(2, 0, 2), taken_end: pt(5, 0, 5), added_end: pt(2, 0, 2) };
    assert!(!change_clips(&c, 10, 20));
}

#[test]
fn change_inside_range_does_not_clip() {
    let c = Change { start: pt(12, 0, 12), taken_end: pt(14, 0, 14), added_end: pt(13, 0, 13) };
    assert!(!change_clips(&c, 10, 20));
}

#[test]
fn add_shifts_sums_componentwise() {
    let s = add_shifts(Shift { bytes: 5, lines: 1 }, Shift { bytes: -3, lines: 0 });
    assert_eq!((s.bytes, s.lines), (2, 1));
}

#[test]
fn input_edit_translates_into_local_space() {
    let c = Change { start: pt(30, 2, 4), taken_end: pt(35, 2, 9), added_end: pt(32, 2, 6) };
    let e = input_edit(&c, RowCol { row: 2, col: 1 }, 20);
    assert_eq!(e.start_byte, 10);
    assert_eq!(e.old_end_byte, 15);
    assert_eq!(e.new_end_byte, 12);
    assert_eq!((e.start_row, e.start_col), (0, 3));
    assert_eq!((e.old_end_row, e.old_end_col), (0, 8));
    assert_eq!((e.new_end_row, e.new_end_col), (0, 5));
}

#[test]
fn moment_check_accepts_ordered_changes() {
    let m = Moment {
        changes: vec![
            Change { start: pt(10, 0, 10), taken_end: pt(10, 0, 10), added_end: pt(15, 0, 15) },
            Change { start: pt(50, 0, 50), taken_end: pt(53, 0, 53), added_end: pt(50, 0, 50) },
        ],
    };
    assert!(m.check());
}

#[test]
fn moment_check_rejects_out_of_order_changes() {
    let m = Moment {
        changes: vec![
            Change { start: pt(50, 0, 50), taken_end: pt(53, 0, 53), added_end: pt(50, 0, 50) },
            Change { start: pt(10, 0, 10), taken_end: pt(10, 0, 10), added_end: pt(15, 0, 15) },
        ],
    };
    assert!(!m.check());
}
