use termedit::buffer::{Buffer, Cursor};
use termedit::render::{
    cell_width, cell_width_for, prefix_cells, slice_by_cells, slice_by_widths, status_line,
};

fn cells(s: &str) -> usize {
    s.chars().map(cell_width).sum()
}

#[test]
fn cell_widths() {
    assert_eq!(cell_width('a'), 1);
    assert_eq!(cell_width('中'), 2);
    assert_eq!(cell_width('\t'), 1);
    assert_eq!(cell_width('\u{301}'), 1);
    assert_eq!(cell_width_for(None), 1);
    assert_eq!(cell_width_for(Some(0)), 1);
    assert_eq!(cell_width_for(Some(2)), 2);
}

#[test]
fn prefix_cells_counts_wide_chars() {
    assert_eq!(prefix_cells("hello", 3), 3);
    assert_eq!(prefix_cells("hello", 99), 5);
    assert_eq!(prefix_cells("a中b", 2), 3);
    assert_eq!(prefix_cells("", 4), 0);
}

#[test]
fn slice_hello() {
    assert_eq!(slice_by_cells("hello", 0, 3), "hel");
    assert_eq!(slice_by_cells("hello", 2, 2), "ll");
    assert_eq!(slice_by_cells("hello", 4, 10), "o");
    assert_eq!(slice_by_cells("hello", 0, 0), "");
    assert_eq!(slice_by_cells("hello", 9, 3), "");
}

#[test]
fn slice_drops_split_wide_chars() {
    assert_eq!(slice_by_cells("a中b", 0, 2), "a");
    assert_eq!(slice_by_cells("中b", 1, 2), "b");
    assert_eq!(slice_by_cells("a中b", 1, 2), "中");
    assert_eq!(slice_by_cells("中中", 1, 2), "");
}

#[test]
fn slice_by_given_widths() {
    assert_eq!(slice_by_widths("abc", &[1, 2, 1], 0, 2), "a");
    assert_eq!(slice_by_widths("abc", &[1, 2, 1], 1, 3), "bc");
    assert_eq!(slice_by_widths("abc", &[2, 2, 2], 1, 4), "b");
}

fn named_buffer(dirty: bool) -> Buffer {
    let mut b = Buffer::new_empty(Some("a.txt".to_string()));
    b.dirty = dirty;
    b
}

#[test]
fn status_line_width_20() {
    let b = named_buffer(true);
    let s = status_line(&b, "NORMAL", None, 20);
    assert_eq!(cells(&s), 20);
    assert!(s.ends_with(" 1:1 "));
    assert_eq!(s, " NORMAL  a.txt  1:1 ");
}

#[test]
fn status_line_wide_enough_shows_marker() {
    let b = named_buffer(true);
    let s = status_line(&b, "NORMAL", None, 30);
    assert_eq!(s, " NORMAL  a.txt [+]        1:1 ");
    assert_eq!(cells(&s), 30);
}

#[test]
fn status_line_message_and_position() {
    let mut b = named_buffer(false);
    b.cursor = Cursor { line: 11, col: 4 };
    assert_eq!(status_line(&b, "INSERT", None, 26), " INSERT  a.txt       12:5 ");
    assert_eq!(status_line(&b, "INSERT", Some("saved"), 26), " INSERT  a.txt      saved ");
    let unnamed = Buffer::new_empty(None);
    assert_eq!(status_line(&unnamed, "NORMAL", None, 24), " NORMAL  [No Name]  1:1 ");
}

#[test]
fn status_line_narrow() {
    let b = named_buffer(false);
    assert_eq!(status_line(&b, "NORMAL", Some("a long message"), 6), " a lon");
    assert_eq!(status_line(&b, "NORMAL", None, 0), "");
}
