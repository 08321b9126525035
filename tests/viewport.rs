use termedit::viewport::Viewport;

#[test]
fn follow_cursor_scrolls_down_and_up() {
    let mut v = Viewport { top_line: 0, left_cells: 0 };
    v.follow_cursor(10, 0, 5, 20);
    assert_eq!(v, Viewport { top_line: 6, left_cells: 0 });
    v.follow_cursor(3, 0, 5, 20);
    assert_eq!(v, Viewport { top_line: 3, left_cells: 0 });
    v.follow_cursor(5, 0, 5, 20);
    assert_eq!(v, Viewport { top_line: 3, left_cells: 0 });
}

#[test]
fn follow_cursor_scrolls_sideways() {
    let mut v = Viewport { top_line: 0, left_cells: 0 };
    v.follow_cursor(0, 25, 5, 20);
    assert_eq!(v.left_cells, 6);
    v.follow_cursor(0, 2, 5, 20);
    assert_eq!(v.left_cells, 2);
    v.follow_cursor(0, 50, 5, 0);
    assert_eq!(v.left_cells, 2);
    v.follow_cursor(40, 50, 0, 10);
    assert_eq!(v, Viewport { top_line: 0, left_cells: 2 });
}
