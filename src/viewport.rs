use vstd::prelude::*;

verus! {

/// The part of the document on screen: its first line and its first cell column.
#[derive(Debug, Clone, Copy, Default, PartialEq, Eq)]
pub struct Viewport {
    pub top_line: usize,
    pub left_cells: usize,
}

/// The window start moved the least so that `pos` lies in `[start, start + size)`.
pub open spec fn scrolled(start: int, pos: int, size: int) -> int {
    if pos < start {
        pos
    } else if pos >= start + size {
        pos - (size - 1)
    } else {
        start
    }
}

fn scroll(start: usize, pos: usize, size: usize) -> (r: usize)
    requires
        size > 0,
    ensures
        r == scrolled(start as int, pos as int, size as int),
        r <= pos < r + size,
{
    if pos < start {
        pos
    } else if pos - start >= size {
        pos - (size - 1)
    } else {
        start
    }
}

impl Viewport {
    /// Scrolls so that the cursor, on line `cursor_line` at cell column
    /// `cursor_cells`, is inside a view `content_height` lines high and
    /// `width` cells wide. Nothing moves when the view has no lines; the
    /// columns stay when it has no width.
    pub fn follow_cursor(
        &mut self,
        cursor_line: usize,
        cursor_cells: usize,
        content_height: usize,
        width: usize,
    )
        ensures
            content_height == 0 ==> *final(self) == *old(self),
            content_height > 0 ==> final(self).top_line == scrolled(
                old(self).top_line as int,
                cursor_line as int,
                content_height as int,
            ),
            content_height > 0 ==> final(self).left_cells == (if width > 0 {
                scrolled(old(self).left_cells as int, cursor_cells as int, width as int)
            } else {
                old(self).left_cells as int
            }),
            content_height > 0 ==> final(self).top_line <= cursor_line < final(self).top_line
                + content_height,
            content_height > 0 && width > 0 ==> final(self).left_cells <= cursor_cells
                < final(self).left_cells + width,
    {
        if content_height == 0 {
            return;
        }
        self.top_line = scroll(self.top_line, cursor_line, content_height);
        if width > 0 {
            self.left_cells = scroll(self.left_cells, cursor_cells, width);
        }
    }
}

} // verus!
