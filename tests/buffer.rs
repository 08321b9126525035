use termedit::buffer::{Buffer, Cursor};

fn buffer_with(text: &str) -> Buffer {
    Buffer::from_text(None, text.to_string())
}

#[test]
fn insert_and_backspace() {
    let mut b = Buffer::new_empty(None);
    b.insert_char('a');
    b.insert_char('b');
    assert_eq!(b.contents(), "ab");
    b.backspace();
    assert_eq!(b.contents(), "a");
}

#[test]
fn newline_and_join() {
    let mut b = Buffer::new_empty(None);
    b.insert_char('a');
    b.insert_newline();
    b.insert_char('b');
    assert_eq!(b.contents(), "a\nb");
    b.cursor.line = 1;
    b.cursor.col = 0;
    b.backspace();
    assert_eq!(b.contents(), "ab");
}

#[test]
fn empty_document_has_one_line() {
    let b = Buffer::new_empty(None);
    assert_eq!(b.len_lines(), 1);
    assert_eq!(b.line_string(0), "");
    assert_eq!(b.line_len_chars(0), 0);
    assert!(!b.dirty);
}

#[test]
fn from_text_normalizes_carriage_returns() {
    let b = buffer_with("ab\r\ncd\ref");
    assert_eq!(b.contents(), "ab\ncd\nef");
    assert_eq!(b.len_lines(), 3);
    assert_eq!(b.cursor, Cursor { line: 0, col: 0 });
    assert!(!b.dirty);
}

#[test]
fn out_of_range_lines_are_empty() {
    let b = buffer_with("abc\nde");
    assert_eq!(b.line_string(1), "de");
    assert_eq!(b.line_string(7), "");
    assert_eq!(b.line_len_chars(0), 3);
    assert_eq!(b.line_len_chars(1), 2);
    assert_eq!(b.line_len_chars(9), 0);
}

#[test]
fn line_string_drops_carriage_return_before_line_feed() {
    let mut b = Buffer::new_empty(None);
    b.insert_char('x');
    b.insert_char('\r');
    b.insert_newline();
    b.insert_char('y');
    assert_eq!(b.contents(), "x\r\ny");
    assert_eq!(b.line_string(0), "x");
    assert_eq!(b.line_len_chars(0), 2);
}

#[test]
fn sticky_column_survives_short_line() {
    let mut b = buffer_with("abcdef\nxy\nabcdef");
    b.move_line_end();
    b.move_left();
    assert_eq!(b.cursor, Cursor { line: 0, col: 5 });
    b.move_down();
    assert_eq!(b.cursor, Cursor { line: 1, col: 2 });
    b.move_down();
    assert_eq!(b.cursor, Cursor { line: 2, col: 5 });
    b.move_up();
    b.move_up();
    assert_eq!(b.cursor, Cursor { line: 0, col: 5 });
}

#[test]
fn horizontal_moves_wrap_between_lines() {
    let mut b = buffer_with("ab\ncd");
    b.move_left();
    assert_eq!(b.cursor, Cursor { line: 0, col: 0 });
    b.move_right();
    b.move_right();
    b.move_right();
    assert_eq!(b.cursor, Cursor { line: 1, col: 0 });
    b.move_left();
    assert_eq!(b.cursor, Cursor { line: 0, col: 2 });
    b.move_bottom();
    assert_eq!(b.cursor, Cursor { line: 1, col: 2 });
    b.move_right();
    assert_eq!(b.cursor, Cursor { line: 1, col: 2 });
    b.move_top();
    assert_eq!(b.cursor, Cursor { line: 0, col: 0 });
    b.move_line_end();
    assert_eq!(b.cursor, Cursor { line: 0, col: 2 });
    b.move_line_start();
    assert_eq!(b.cursor, Cursor { line: 0, col: 0 });
}

#[test]
fn insert_char_then_backspace_restores() {
    let mut b = buffer_with("hello\nworld");
    b.move_down();
    b.move_right();
    b.move_right();
    let before = b.contents();
    let cursor = b.cursor;
    b.insert_char('Z');
    assert_eq!(b.contents(), "hello\nwoZrld");
    assert_eq!(b.cursor, Cursor { line: 1, col: 3 });
    b.backspace();
    assert_eq!(b.contents(), before);
    assert_eq!(b.cursor, cursor);
}

#[test]
fn insert_newline_then_backspace_restores() {
    let mut b = buffer_with("hello\nworld");
    b.move_right();
    b.move_right();
    let before = b.contents();
    b.insert_newline();
    assert_eq!(b.contents(), "he\nllo\nworld");
    assert_eq!(b.cursor, Cursor { line: 1, col: 0 });
    b.backspace();
    assert_eq!(b.contents(), before);
    assert_eq!(b.cursor, Cursor { line: 0, col: 2 });
}

#[test]
fn backspace_join_keeps_previous_line_length() {
    let mut b = buffer_with("abc\nde");
    b.move_down();
    b.move_line_start();
    b.backspace();
    assert_eq!(b.contents(), "abcde");
    assert_eq!(b.cursor, Cursor { line: 0, col: 3 });
    assert!(b.dirty);
}

#[test]
fn backspace_at_start_is_no_op() {
    let mut b = buffer_with("abc\nde");
    b.backspace();
    assert_eq!(b.contents(), "abc\nde");
    assert_eq!(b.cursor, Cursor { line: 0, col: 0 });
    assert!(!b.dirty);
}

#[test]
fn delete_at_end_is_no_op() {
    let mut b = buffer_with("abc\nde");
    b.move_bottom();
    b.delete();
    assert_eq!(b.contents(), "abc\nde");
    assert_eq!(b.cursor, Cursor { line: 1, col: 2 });
    assert!(!b.dirty);
}

#[test]
fn delete_removes_char_and_joins_lines() {
    let mut b = buffer_with("abc\nde");
    b.move_right();
    b.delete();
    assert_eq!(b.contents(), "ac\nde");
    assert_eq!(b.cursor, Cursor { line: 0, col: 1 });
    b.move_line_end();
    b.delete();
    assert_eq!(b.contents(), "acde");
    assert_eq!(b.cursor, Cursor { line: 0, col: 2 });
    assert_eq!(b.len_lines(), 1);
}

#[test]
fn operations_clamp_a_stray_cursor() {
    let mut b = buffer_with("abc\nde");
    b.cursor = Cursor { line: 9, col: 9 };
    b.move_left();
    assert_eq!(b.cursor, Cursor { line: 1, col: 1 });
    b.cursor = Cursor { line: 0, col: 40 };
    b.insert_char('x');
    assert_eq!(b.contents(), "abcx\nde");
    assert_eq!(b.cursor, Cursor { line: 0, col: 4 });
}

#[test]
fn cursor_stays_in_bounds_after_edits() {
    let mut b = buffer_with("one\ntwo\nthree");
    b.move_bottom();
    for _ in 0..5 {
        b.backspace();
        assert!(b.cursor.line < b.len_lines());
        assert!(b.cursor.col <= b.line_len_chars(b.cursor.line));
    }
    assert_eq!(b.contents(), "one\ntwo\n");
    b.delete();
    b.move_up();
    b.delete();
    assert!(b.cursor.line < b.len_lines());
    assert!(b.cursor.col <= b.line_len_chars(b.cursor.line));
}

#[test]
fn mark_saved_and_set_contents() {
    let mut b = buffer_with("abc");
    b.insert_char('x');
    assert!(b.dirty);
    b.mark_saved();
    assert!(!b.dirty);
    b.set_contents("q\r\nr".to_string());
    assert_eq!(b.contents(), "q\nr");
    assert_eq!(b.cursor, Cursor { line: 0, col: 0 });
}
