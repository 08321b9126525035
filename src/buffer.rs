use vstd::prelude::*;
use ropey::Rope;
use crate::fs_io::{normalize_newlines, normalized};
use crate::store::{
    rope_chars, rope_char, rope_from_str, rope_insert_char, rope_len_chars, rope_len_lines,
    rope_line_to_char, rope_remove, rope_slice_string, rope_to_string,
};
use crate::text::{
    all_plain, join_lines, lemma_edit_lines, lemma_line_place, lemma_lines_of, line_start,
    lines_of, no_newline,
};

verus! {

/// A position in a document: a line index and a character offset within it.
#[derive(Clone, Copy, Debug, Default, PartialEq, Eq)]
pub struct Cursor {
    pub line: usize,
    pub col: usize,
}

/// A buffer's contents and cursor, as mathematical values.
pub struct EditState {
    pub text: Seq<char>,
    pub line: int,
    pub col: int,
    pub pref: int,
}

/// Number of characters in line `i` of `text`, line feed excluded.
pub open spec fn line_len(text: Seq<char>, i: int) -> int {
    lines_of(text)[i].len() as int
}

/// The cursor lies on a line of the text, at most at that line's end.
pub open spec fn cursor_valid(st: EditState) -> bool {
    &&& 0 <= st.line < lines_of(st.text).len()
    &&& 0 <= st.col <= line_len(st.text, st.line)
}

/// Character index of the cursor in the text.
pub open spec fn cursor_index(st: EditState) -> int {
    line_start(lines_of(st.text), st.line) + st.col
}

/// The cursor moved into the text: the line onto the last line if past it,
/// the column onto the line's end if past it. The preferred column is kept.
pub open spec fn fit(st: EditState) -> EditState {
    let n = lines_of(st.text).len() as int;
    let line = if st.line < n { st.line } else { n - 1 };
    let len = line_len(st.text, line);
    EditState {
        text: st.text,
        line,
        col: if st.col <= len { st.col } else { len },
        pref: st.pref,
    }
}

/// `fit`, and the preferred column also brought down to the line's length.
pub open spec fn settle(st: EditState) -> EditState {
    let f = fit(st);
    let len = line_len(st.text, f.line);
    EditState { pref: if f.pref <= len { f.pref } else { len }, ..f }
}

/// Cursor placed at `(line, col)`, with `col` also the preferred column.
pub open spec fn placed(st: EditState, line: int, col: int) -> EditState {
    EditState { text: st.text, line, col, pref: col }
}

pub open spec fn moved_left(st: EditState) -> EditState {
    if st.col > 0 {
        placed(st, st.line, st.col - 1)
    } else if st.line > 0 {
        placed(st, st.line - 1, line_len(st.text, st.line - 1))
    } else {
        placed(st, st.line, st.col)
    }
}

pub open spec fn moved_right(st: EditState) -> EditState {
    if st.col < line_len(st.text, st.line) {
        placed(st, st.line, st.col + 1)
    } else if st.line + 1 < lines_of(st.text).len() {
        placed(st, st.line + 1, 0)
    } else {
        placed(st, st.line, st.col)
    }
}

/// Vertical move to `line`: the column is the preferred column, cut to the
/// line's length; the preferred column stays.
pub open spec fn moved_to_line(st: EditState, line: int) -> EditState {
    let len = line_len(st.text, line);
    EditState { line, col: if st.pref <= len { st.pref } else { len }, ..st }
}

pub open spec fn moved_up(st: EditState) -> EditState {
    if st.line > 0 {
        moved_to_line(st, st.line - 1)
    } else {
        st
    }
}

pub open spec fn moved_down(st: EditState) -> EditState {
    if st.line + 1 < lines_of(st.text).len() {
        moved_to_line(st, st.line + 1)
    } else {
        st
    }
}

pub open spec fn moved_to_bottom(st: EditState) -> EditState {
    let last = lines_of(st.text).len() - 1;
    placed(st, last, line_len(st.text, last))
}

/// `c` inserted at the cursor, which moves past it (a line feed leaves the
/// cursor at the end of the line it ends).
pub open spec fn inserted_char(st: EditState, c: char) -> EditState {
    let col = if c == '\n' { st.col } else { st.col + 1 };
    EditState {
        text: st.text.insert(cursor_index(st), c),
        line: st.line,
        col,
        pref: col,
    }
}

/// The line split at the cursor; the cursor goes to the start of the new line.
pub open spec fn inserted_newline(st: EditState) -> EditState {
    EditState {
        text: st.text.insert(cursor_index(st), '\n'),
        line: st.line + 1,
        col: 0,
        pref: 0,
    }
}

/// The character before the cursor removed. At a line's start that is the
/// line feed before it: the line joins the previous one and the cursor goes
/// to where that line ended before the join. Nothing changes at the text's start.
pub open spec fn backspaced(st: EditState) -> EditState {
    let t = st.text.remove(cursor_index(st) - 1);
    if st.col > 0 {
        EditState { text: t, line: st.line, col: st.col - 1, pref: st.col - 1 }
    } else if st.line > 0 {
        let c = line_len(st.text, st.line - 1);
        EditState { text: t, line: st.line - 1, col: c, pref: c }
    } else {
        st
    }
}

/// The character at the cursor removed (at a line's end, the line feed: the
/// next line joins this one). The cursor stays; the preferred column is cut to
/// the new line length. Nothing changes at the text's end.
pub open spec fn deleted(st: EditState) -> EditState {
    let t = st.text.remove(cursor_index(st));
    let len = line_len(st.text, st.line);
    if st.col < len || st.line + 1 < lines_of(st.text).len() {
        let new_len = line_len(t, st.line);
        EditState { text: t, pref: if st.pref <= new_len { st.pref } else { new_len }, ..st }
    } else {
        st
    }
}

/// Line `line` of `text` without its line feed, and without a carriage return
/// just before that line feed; empty past the last line.
pub open spec fn line_text(text: Seq<char>, line: int) -> Seq<char> {
    let ls = lines_of(text);
    if 0 <= line < ls.len() {
        let l = ls[line];
        if line + 1 < ls.len() && l.len() > 0 && l.last() == '\r' {
            l.drop_last()
        } else {
            l
        }
    } else {
        Seq::empty()
    }
}

/// Inserting a character that is no line feed changes only its own line.
proof fn lemma_insert_in_line(s: Seq<char>, line: int, col: int, c: char)
    requires
        0 <= line < lines_of(s).len(),
        0 <= col <= lines_of(s)[line].len(),
        c != '\n',
    ensures
        lines_of(s.insert(line_start(lines_of(s), line) + col, c)) == lines_of(s).update(
            line,
            lines_of(s)[line].insert(col, c),
        ),
{
    let ls = lines_of(s);
    let l = ls[line];
    let st = line_start(ls, line);
    lemma_lines_of(s);
    lemma_line_place(ls, line);
    let nl = l.insert(col, c);
    assert(no_newline(l));
    assert forall|k: int| 0 <= k < nl.len() implies nl[k] != '\n' by {
        if k < col {
            assert(nl[k] == l[k]);
        } else if k > col {
            assert(nl[k] == l[k - 1]);
        }
    }
    let m = seq![nl];
    assert(all_plain(m));
    lemma_edit_lines(s, line, line + 1, m);
    assert(join_lines(m) == nl);
    assert(s.insert(st + col, c) =~= s.take(st) + join_lines(m) + s.skip(st + l.len()));
    assert(ls.take(line) + m + ls.skip(line + 1) =~= ls.update(line, nl));
}

/// Inserting a line feed splits its line in two.
proof fn lemma_split_line(s: Seq<char>, line: int, col: int)
    requires
        0 <= line < lines_of(s).len(),
        0 <= col <= lines_of(s)[line].len(),
    ensures
        lines_of(s.insert(line_start(lines_of(s), line) + col, '\n')) == lines_of(s).take(line)
            + seq![lines_of(s)[line].take(col), lines_of(s)[line].skip(col)] + lines_of(s).skip(
            line + 1,
        ),
{
    let ls = lines_of(s);
    let l = ls[line];
    let st = line_start(ls, line);
    lemma_lines_of(s);
    lemma_line_place(ls, line);
    assert(no_newline(l));
    let m = seq![l.take(col), l.skip(col)];
    assert(no_newline(m[0]));
    assert(no_newline(m[1]));
    assert(all_plain(m));
    lemma_edit_lines(s, line, line + 1, m);
    assert(m.drop_first() =~= seq![l.skip(col)]);
    assert(join_lines(seq![l.skip(col)]) == l.skip(col));
    assert(join_lines(m) =~= l.take(col) + seq!['\n'] + l.skip(col));
    assert(s.insert(st + col, '\n') =~= s.take(st) + join_lines(m) + s.skip(st + l.len()));
}

/// Removing a character of a line changes only that line.
proof fn lemma_remove_in_line(s: Seq<char>, line: int, col: int)
    requires
        0 <= line < lines_of(s).len(),
        0 <= col < lines_of(s)[line].len(),
    ensures
        lines_of(s.remove(line_start(lines_of(s), line) + col)) == lines_of(s).update(
            line,
            lines_of(s)[line].remove(col),
        ),
{
    let ls = lines_of(s);
    let l = ls[line];
    let st = line_start(ls, line);
    lemma_lines_of(s);
    lemma_line_place(ls, line);
    let nl = l.remove(col);
    assert(no_newline(l));
    assert forall|k: int| 0 <= k < nl.len() implies nl[k] != '\n' by {
        if k < col {
            assert(nl[k] == l[k]);
        } else {
            assert(nl[k] == l[k + 1]);
        }
    }
    let m = seq![nl];
    assert(all_plain(m));
    lemma_edit_lines(s, line, line + 1, m);
    assert(join_lines(m) == nl);
    assert(s.remove(st + col) =~= s.take(st) + join_lines(m) + s.skip(st + l.len()));
    assert(ls.take(line) + m + ls.skip(line + 1) =~= ls.update(line, nl));
}

/// The line feed at the end of a line that has a successor; removing it joins
/// the two lines.
proof fn lemma_join_with_next(s: Seq<char>, line: int)
    requires
        0 <= line,
        line + 1 < lines_of(s).len(),
    ensures
        s[line_start(lines_of(s), line) + lines_of(s)[line].len()] == '\n',
        line_start(lines_of(s), line + 1) == line_start(lines_of(s), line) + lines_of(s)[line].len()
            + 1,
        lines_of(s.remove(line_start(lines_of(s), line) + lines_of(s)[line].len()))
            == lines_of(s).take(line) + seq![lines_of(s)[line] + lines_of(s)[line + 1]]
            + lines_of(s).skip(line + 2),
{
    let ls = lines_of(s);
    let a = ls[line];
    let b = ls[line + 1];
    let st = line_start(ls, line);
    lemma_lines_of(s);
    lemma_line_place(ls, line);
    lemma_line_place(ls, line + 1);
    assert(no_newline(a));
    assert(no_newline(b));
    let j = a + b;
    assert forall|k: int| 0 <= k < j.len() implies j[k] != '\n' by {
        if k < a.len() {
            assert(j[k] == a[k]);
        } else {
            assert(j[k] == b[k - a.len()]);
        }
    }
    let m = seq![j];
    assert(all_plain(m));
    lemma_edit_lines(s, line, line + 2, m);
    assert(join_lines(m) == j);
    let e = st + a.len() + 1 + b.len();
    assert(s.subrange(st, st + a.len()) == a);
    assert(s.subrange(st + a.len() + 1, e) == b);
    assert(s.remove(st + a.len()) =~= s.take(st) + join_lines(m) + s.skip(e));
}

/// Inserting a character other than a line feed and then deleting backwards
/// gives back the text and the cursor position.
pub proof fn lemma_insert_char_then_backspace(st: EditState, c: char)
    requires
        cursor_valid(st),
        c != '\n',
    ensures
        backspaced(fit(inserted_char(st, c))).text == st.text,
        backspaced(fit(inserted_char(st, c))).line == st.line,
        backspaced(fit(inserted_char(st, c))).col == st.col,
{
    let s = st.text;
    let ls = lines_of(s);
    let st1 = inserted_char(st, c);
    let idx = cursor_index(st);
    lemma_lines_of(s);
    lemma_line_place(ls, st.line);
    lemma_insert_in_line(s, st.line, st.col, c);
    let ls1 = lines_of(st1.text);
    assert(ls1.take(st.line) =~= ls.take(st.line));
    assert(fit(st1) == st1);
    assert(cursor_index(st1) == idx + 1);
    assert(st1.text.remove(idx) =~= s);
}

/// Splitting a line and then deleting backwards gives back the text and the
/// cursor position.
pub proof fn lemma_insert_newline_then_backspace(st: EditState)
    requires
        cursor_valid(st),
    ensures
        backspaced(fit(inserted_newline(st))).text == st.text,
        backspaced(fit(inserted_newline(st))).line == st.line,
        backspaced(fit(inserted_newline(st))).col == st.col,
{
    let s = st.text;
    let ls = lines_of(s);
    let st1 = inserted_newline(st);
    let idx = cursor_index(st);
    lemma_lines_of(s);
    lemma_line_place(ls, st.line);
    lemma_split_line(s, st.line, st.col);
    let ls1 = lines_of(st1.text);
    assert(ls1.take(st.line) =~= ls.take(st.line));
    assert(ls1[st.line] == ls[st.line].take(st.col));
    lemma_line_place(ls1, st.line);
    assert(fit(st1) == st1);
    assert(cursor_index(st1) == idx + 1);
    assert(st1.text.remove(idx) =~= s);
}

/// Moving down and back up returns to the column last chosen by a
/// horizontal move, whatever the length of the line in between.
pub proof fn lemma_down_then_up_keeps_column(st: EditState)
    requires
        cursor_valid(st),
        st.pref == st.col,
        st.line + 1 < lines_of(st.text).len(),
    ensures
        moved_up(fit(moved_down(st))).line == st.line,
        moved_up(fit(moved_down(st))).col == st.col,
        moved_up(fit(moved_down(st))).pref == st.pref,
{
    let d = moved_down(st);
    assert(fit(d) == d);
}

/// Deleting backwards at the start of the text, or forwards at its end,
/// changes neither the text nor the cursor.
pub proof fn lemma_no_op_at_edges(st: EditState)
    requires
        cursor_valid(st),
    ensures
        st.line == 0 && st.col == 0 ==> backspaced(st) == st,
        st.line + 1 == lines_of(st.text).len() && st.col == line_len(st.text, st.line)
            ==> deleted(st) == st,
{
}

/// A text held in a rope, with a cursor, a preferred column, the path it
/// belongs to and whether it changed since it was last saved.
#[derive(Debug)]
pub struct Buffer {
    pub text: Rope,
    pub cursor: Cursor,
    pub preferred_col: usize,
    pub file_path: Option<String>,
    pub dirty: bool,
}

impl View for Buffer {
    type V = EditState;

    open spec fn view(&self) -> EditState {
        EditState {
            text: rope_chars(self.text),
            line: self.cursor.line as int,
            col: self.cursor.col as int,
            pref: self.preferred_col as int,
        }
    }
}

impl Buffer {
    /// The buffer's cursor lies within its text.
    pub open spec fn cursor_ok(&self) -> bool {
        cursor_valid(self@)
    }

    /// The other fields are as in `old`.
    pub open spec fn same_file(&self, old: &Buffer) -> bool {
        self.file_path == old.file_path
    }

    pub fn new_empty(file_path: Option<String>) -> (b: Self)
        ensures
            b@.text == Seq::<char>::empty(),
            b@.line == 0 && b@.col == 0 && b@.pref == 0,
            b.file_path == file_path,
            !b.dirty,
            b.cursor_ok(),
    {
        let b = Buffer {
            text: rope_from_str(""),
            cursor: Cursor { line: 0, col: 0 },
            preferred_col: 0,
            file_path,
            dirty: false,
        };
        proof {
            reveal_strlit("");
            assert(b@.text =~= Seq::<char>::empty());
        }
        b
    }

    /// A buffer holding `text` with its line endings normalized, cursor at the start.
    pub fn from_text(file_path: Option<String>, text: String) -> (b: Self)
        ensures
            b@.text == normalized(text@),
            b@.line == 0 && b@.col == 0 && b@.pref == 0,
            b.file_path == file_path,
            !b.dirty,
            b.cursor_ok(),
    {
        let mut b = Self::new_empty(file_path);
        b.set_contents(text);
        b
    }

    pub fn len_lines(&self) -> (n: usize)
        ensures
            n == lines_of(self@.text).len(),
            n >= 1,
    {
        proof {
            lemma_lines_of(self@.text);
        }
        rope_len_lines(&self.text)
    }

    /// The number of characters the text holds.
    pub fn len_chars(&self) -> (n: usize)
        ensures
            n == self@.text.len(),
    {
        rope_len_chars(&self.text)
    }

    /// Line `line` without its line ending; empty past the last line.
    pub fn line_string(&self, line: usize) -> (s: String)
        ensures
            s@ == line_text(self@.text, line as int),
    {
        let n = self.len_lines();
        if line >= n {
            return String::new();
        }
        let ghost t = self@.text;
        let ghost ls = lines_of(t);
        let start = rope_line_to_char(&self.text, line);
        let len = self.line_len_chars(line);
        // the text's length fits in a usize
        let _total = rope_len_chars(&self.text);
        proof {
            lemma_lines_of(t);
            lemma_line_place(ls, line as int);
        }
        let mut end = start + len;
        if line + 1 < n && len > 0 {
            let c = rope_char(&self.text, end - 1);
            if c == '\r' {
                end = end - 1;
            }
        }
        let s = rope_slice_string(&self.text, start, end);
        proof {
            let l = ls[line as int];
            assert(t.subrange(start as int, start + len) == l);
            if end < start + len {
                assert(s@ =~= l.drop_last());
            } else {
                assert(s@ =~= l);
            }
        }
        s
    }

    /// Number of characters of line `line`, line feed excluded; 0 past the last line.
    pub fn line_len_chars(&self, line: usize) -> (n: usize)
        ensures
            n == (if line < lines_of(self@.text).len() {
                line_len(self@.text, line as int)
            } else {
                0
            }),
    {
        let ghost t = self@.text;
        let ghost ls = lines_of(t);
        let n = self.len_lines();
        if line >= n {
            return 0;
        }
        let start = rope_line_to_char(&self.text, line);
        proof {
            lemma_lines_of(t);
            lemma_line_place(ls, line as int);
        }
        if line + 1 < n {
            let next = rope_line_to_char(&self.text, line + 1);
            next - start - 1
        } else {
            rope_len_chars(&self.text) - start
        }
    }

    pub fn set_preferred_col(&mut self)
        ensures
            final(self)@ == (EditState { pref: old(self)@.col, ..old(self)@ }),
            final(self).dirty == old(self).dirty,
            final(self).same_file(old(self)),
    {
        self.preferred_col = self.cursor.col;
    }

    /// Moves the cursor into the text; the preferred column is left alone.
    fn fit_cursor(&mut self)
        ensures
            final(self)@ == fit(old(self)@),
            final(self).cursor_ok(),
            final(self).dirty == old(self).dirty,
            final(self).same_file(old(self)),
    {
        let n = self.len_lines();
        if self.cursor.line >= n {
            self.cursor.line = n - 1;
        }
        let len = self.line_len_chars(self.cursor.line);
        if self.cursor.col > len {
            self.cursor.col = len;
        }
    }

    pub fn move_left(&mut self)
        ensures
            final(self)@ == moved_left(fit(old(self)@)),
            final(self).cursor_ok(),
            final(self).dirty == old(self).dirty,
            final(self).same_file(old(self)),
    {
        self.fit_cursor();
        if self.cursor.col > 0 {
            self.cursor.col = self.cursor.col - 1;
        } else if self.cursor.line > 0 {
            self.cursor.line = self.cursor.line - 1;
            self.cursor.col = self.line_len_chars(self.cursor.line);
        }
        self.set_preferred_col();
    }

    pub fn move_right(&mut self)
        ensures
            final(self)@ == moved_right(fit(old(self)@)),
            final(self).cursor_ok(),
            final(self).dirty == old(self).dirty,
            final(self).same_file(old(self)),
    {
        self.fit_cursor();
        let len = self.line_len_chars(self.cursor.line);
        let n = self.len_lines();
        if self.cursor.col < len {
            self.cursor.col = self.cursor.col + 1;
        } else if self.cursor.line + 1 < n {
            self.cursor.line = self.cursor.line + 1;
            self.cursor.col = 0;
        }
        self.set_preferred_col();
    }

    pub fn move_up(&mut self)
        ensures
            final(self)@ == moved_up(fit(old(self)@)),
            final(self).cursor_ok(),
            final(self).dirty == old(self).dirty,
            final(self).same_file(old(self)),
    {
        self.fit_cursor();
        if self.cursor.line > 0 {
            self.cursor.line = self.cursor.line - 1;
            let len = self.line_len_chars(self.cursor.line);
            self.cursor.col = if self.preferred_col <= len { self.preferred_col } else { len };
        }
    }

    pub fn move_down(&mut self)
        ensures
            final(self)@ == moved_down(fit(old(self)@)),
            final(self).cursor_ok(),
            final(self).dirty == old(self).dirty,
            final(self).same_file(old(self)),
    {
        self.fit_cursor();
        let n = self.len_lines();
        if self.cursor.line + 1 < n {
            self.cursor.line = self.cursor.line + 1;
            let len = self.line_len_chars(self.cursor.line);
            self.cursor.col = if self.preferred_col <= len { self.preferred_col } else { len };
        }
    }

    pub fn move_line_start(&mut self)
        ensures
            final(self)@ == placed(fit(old(self)@), fit(old(self)@).line, 0),
            final(self).cursor_ok(),
            final(self).dirty == old(self).dirty,
            final(self).same_file(old(self)),
    {
        self.fit_cursor();
        self.cursor.col = 0;
        self.set_preferred_col();
    }

    pub fn move_line_end(&mut self)
        ensures
            final(self)@ == placed(
                fit(old(self)@),
                fit(old(self)@).line,
                line_len(old(self)@.text, fit(old(self)@).line),
            ),
            final(self).cursor_ok(),
            final(self).dirty == old(self).dirty,
            final(self).same_file(old(self)),
    {
        self.fit_cursor();
        self.cursor.col = self.line_len_chars(self.cursor.line);
        self.set_preferred_col();
    }

    pub fn move_top(&mut self)
        ensures
            final(self)@ == placed(old(self)@, 0, 0),
            final(self).cursor_ok(),
            final(self).dirty == old(self).dirty,
            final(self).same_file(old(self)),
    {
        proof {
            lemma_lines_of(self@.text);
        }
        self.cursor.line = 0;
        self.cursor.col = 0;
        self.set_preferred_col();
    }

    pub fn move_bottom(&mut self)
        ensures
            final(self)@ == moved_to_bottom(old(self)@),
            final(self).cursor_ok(),
            final(self).dirty == old(self).dirty,
            final(self).same_file(old(self)),
    {
        self.cursor.line = self.len_lines() - 1;
        self.cursor.col = self.line_len_chars(self.cursor.line);
        self.set_preferred_col();
    }

    /// Inserts `ch` at the cursor and moves the cursor past it.
    pub fn insert_char(&mut self, ch: char)
        requires
            old(self)@.text.len() < usize::MAX,
        ensures
            final(self)@ == inserted_char(fit(old(self)@), ch),
            final(self).cursor_ok(),
            final(self).dirty,
            final(self).same_file(old(self)),
    {
        self.fit_cursor();
        let ghost st = self@;
        let ghost ls = lines_of(st.text);
        let idx = self.char_index();
        rope_insert_char(&mut self.text, idx, ch);
        proof {
            if ch != '\n' {
                lemma_insert_in_line(st.text, st.line, st.col, ch);
            } else {
                lemma_split_line(st.text, st.line, st.col);
            }
        }
        if ch != '\n' {
            self.cursor.col = self.cursor.col + 1;
        }
        self.set_preferred_col();
        self.dirty = true;
    }

    /// Splits the line at the cursor; the cursor goes to the start of the new line.
    pub fn insert_newline(&mut self)
        requires
            old(self)@.text.len() < usize::MAX,
        ensures
            final(self)@ == inserted_newline(fit(old(self)@)),
            final(self).cursor_ok(),
            final(self).dirty,
            final(self).same_file(old(self)),
    {
        self.fit_cursor();
        let ghost st = self@;
        let idx = self.char_index();
        rope_insert_char(&mut self.text, idx, '\n');
        proof {
            lemma_lines_of(st.text);
            lemma_split_line(st.text, st.line, st.col);
        }
        self.cursor.line = self.cursor.line + 1;
        self.cursor.col = 0;
        self.set_preferred_col();
        self.dirty = true;
    }

    /// Removes the character before the cursor, joining lines at a line start.
    pub fn backspace(&mut self)
        ensures
            final(self)@ == backspaced(fit(old(self)@)),
            final(self).cursor_ok(),
            final(self).dirty == (old(self).dirty || fit(old(self)@).line > 0 || fit(
                old(self)@,
            ).col > 0),
            final(self).same_file(old(self)),
    {
        self.fit_cursor();
        let ghost st = self@;
        let ghost ls = lines_of(st.text);
        if self.cursor.col > 0 {
            let idx = self.char_index();
            rope_remove(&mut self.text, idx - 1, idx);
            proof {
                lemma_remove_in_line(st.text, st.line, st.col - 1);
                assert(st.text.take(idx - 1) + st.text.skip(idx as int) =~= st.text.remove(idx - 1));
            }
            self.cursor.col = self.cursor.col - 1;
            self.set_preferred_col();
            self.dirty = true;
            return;
        }
        if self.cursor.line == 0 {
            return;
        }
        let prev_len = self.line_len_chars(self.cursor.line - 1);
        let start = rope_line_to_char(&self.text, self.cursor.line);
        proof {
            lemma_lines_of(st.text);
            lemma_line_place(ls, st.line);
            lemma_join_with_next(st.text, st.line - 1);
            assert(st.text.take(start - 1) + st.text.skip(start as int) =~= st.text.remove(start - 1));
        }
        rope_remove(&mut self.text, start - 1, start);
        self.cursor.line = self.cursor.line - 1;
        self.cursor.col = prev_len;
        self.set_preferred_col();
        self.dirty = true;
    }

    /// Removes the character at the cursor, joining the next line at a line end.
    pub fn delete(&mut self)
        ensures
            final(self)@ == deleted(fit(old(self)@)),
            final(self).cursor_ok(),
            final(self).dirty == (old(self).dirty || fit(old(self)@).col < line_len(
                old(self)@.text,
                fit(old(self)@).line,
            ) || fit(old(self)@).line + 1 < lines_of(old(self)@.text).len()),
            final(self).same_file(old(self)),
    {
        self.fit_cursor();
        let ghost st = self@;
        let ghost ls = lines_of(st.text);
        let len = self.line_len_chars(self.cursor.line);
        let idx = self.char_index();
        let n = self.len_lines();
        if self.cursor.col < len || self.cursor.line + 1 < n {
            proof {
                lemma_lines_of(st.text);
                if st.col < len {
                    lemma_remove_in_line(st.text, st.line, st.col);
                } else {
                    lemma_line_place(ls, st.line + 1);
                    lemma_join_with_next(st.text, st.line);
                }
                assert(st.text.take(idx as int) + st.text.skip(idx + 1) =~= st.text.remove(idx as int));
            }
            rope_remove(&mut self.text, idx, idx + 1);
            self.dirty = true;
            self.clamp_cursor();
        }
    }

    /// All the text.
    pub fn contents(&self) -> (s: String)
        ensures
            s@ == self@.text,
    {
        rope_to_string(&self.text)
    }

    /// Replaces the text by `text` with its line endings normalized; the
    /// cursor goes to the start and the buffer counts as saved.
    pub fn set_contents(&mut self, text: String)
        ensures
            final(self)@.text == normalized(text@),
            final(self)@.line == 0 && final(self)@.col == 0 && final(self)@.pref == 0,
            !final(self).dirty,
            final(self).cursor_ok(),
            final(self).same_file(old(self)),
    {
        let clean = normalize_newlines(text.as_str());
        self.text = rope_from_str(clean.as_str());
        self.cursor = Cursor { line: 0, col: 0 };
        self.preferred_col = 0;
        self.dirty = false;
        proof {
            lemma_lines_of(self@.text);
        }
    }

    pub fn mark_saved(&mut self)
        ensures
            final(self)@ == old(self)@,
            !final(self).dirty,
            final(self).same_file(old(self)),
    {
        self.dirty = false;
    }

    /// Moves the cursor into the text and cuts the preferred column to the
    /// cursor line's length.
    pub fn clamp_cursor(&mut self)
        ensures
            final(self)@ == settle(old(self)@),
            final(self).cursor_ok(),
            final(self).dirty == old(self).dirty,
            final(self).same_file(old(self)),
    {
        self.fit_cursor();
        let len = self.line_len_chars(self.cursor.line);
        if self.preferred_col > len {
            self.preferred_col = len;
        }
    }

    /// Character index of the cursor, which must lie within the text.
    fn char_index(&self) -> (i: usize)
        requires
            self.cursor_ok(),
        ensures
            i == cursor_index(self@),
            i + (line_len(self@.text, self@.line) - self@.col) <= self@.text.len() <= usize::MAX,
    {
        let ghost t = self@.text;
        proof {
            lemma_lines_of(t);
            lemma_line_place(lines_of(t), self@.line);
        }
        let start = rope_line_to_char(&self.text, self.cursor.line);
        // the text's length fits in a usize
        let _total = rope_len_chars(&self.text);
        start + self.cursor.col
    }
}

} // verus!
