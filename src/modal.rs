use vstd::prelude::*;
use crate::buffer::{
    backspaced, deleted, fit, inserted_char, inserted_newline, moved_down, moved_left,
    moved_right, moved_to_bottom, moved_up, placed, Buffer, EditState, line_len,
};
use crate::commands::{command_of, parse_command, Command, CommandParseError, CommandView};
use crate::strings::{chars_of, push_char, string_of};
use crate::text::lines_of;

verus! {

/// What keys do: move and edit, type a command line, or run commands.
#[derive(Debug, Clone, Copy, PartialEq, Eq, Structural)]
pub enum Mode {
    Normal,
    Insert,
    Command,
}

/// A key, as far as the editor tells keys apart.
#[derive(Debug, Clone, Copy, PartialEq, Eq, Structural)]
pub enum Key {
    Char(char),
    Left,
    Right,
    Up,
    Down,
    Home,
    End,
    Enter,
    Esc,
    Backspace,
    Delete,
    Other,
}

/// The modifiers held with a key: none, exactly Shift, exactly Control, or
/// anything else.
#[derive(Debug, Clone, Copy, PartialEq, Eq, Structural)]
pub enum Mods {
    Plain,
    Shift,
    Control,
    Other,
}

/// A change to the buffer that a key asks for.
#[derive(Debug, Clone, Copy, PartialEq, Eq, Structural)]
pub enum EditOp {
    MoveLeft,
    MoveRight,
    MoveUp,
    MoveDown,
    LineStart,
    LineEnd,
    Top,
    Bottom,
    InsertChar(char),
    InsertNewline,
    Backspace,
    Delete,
}

/// What the buffer's state becomes under `op`.
pub open spec fn edited(st: EditState, op: EditOp) -> EditState {
    match op {
        EditOp::MoveLeft => moved_left(fit(st)),
        EditOp::MoveRight => moved_right(fit(st)),
        EditOp::MoveUp => moved_up(fit(st)),
        EditOp::MoveDown => moved_down(fit(st)),
        EditOp::LineStart => placed(fit(st), fit(st).line, 0),
        EditOp::LineEnd => placed(fit(st), fit(st).line, line_len(st.text, fit(st).line)),
        EditOp::Top => placed(st, 0, 0),
        EditOp::Bottom => moved_to_bottom(st),
        EditOp::InsertChar(c) => inserted_char(fit(st), c),
        EditOp::InsertNewline => inserted_newline(fit(st)),
        EditOp::Backspace => backspaced(fit(st)),
        EditOp::Delete => deleted(fit(st)),
    }
}

/// Whether the buffer counts as changed after `op`: insertions change it,
/// deletions when they remove something, moves never.
pub open spec fn edited_dirty(st: EditState, op: EditOp, dirty: bool) -> bool {
    let f = fit(st);
    match op {
        EditOp::InsertChar(_) => true,
        EditOp::InsertNewline => true,
        EditOp::Backspace => dirty || f.line > 0 || f.col > 0,
        EditOp::Delete => dirty || f.col < line_len(st.text, f.line) || f.line + 1 < lines_of(
            st.text,
        ).len(),
        _ => dirty,
    }
}

/// An edit that adds a character.
pub open spec fn grows(op: EditOp) -> bool {
    op matches EditOp::InsertChar(_) || op == EditOp::InsertNewline
}

/// Carries out `op` on `buffer`.
pub fn apply_edit(buffer: &mut Buffer, op: EditOp)
    requires
        grows(op) ==> old(buffer)@.text.len() < usize::MAX,
    ensures
        final(buffer)@ == edited(old(buffer)@, op),
        final(buffer).dirty == edited_dirty(old(buffer)@, op, old(buffer).dirty),
        final(buffer).cursor_ok(),
        final(buffer).file_path == old(buffer).file_path,
{
    match op {
        EditOp::MoveLeft => buffer.move_left(),
        EditOp::MoveRight => buffer.move_right(),
        EditOp::MoveUp => buffer.move_up(),
        EditOp::MoveDown => buffer.move_down(),
        EditOp::LineStart => buffer.move_line_start(),
        EditOp::LineEnd => buffer.move_line_end(),
        EditOp::Top => buffer.move_top(),
        EditOp::Bottom => buffer.move_bottom(),
        EditOp::InsertChar(c) => buffer.insert_char(c),
        EditOp::InsertNewline => buffer.insert_newline(),
        EditOp::Backspace => buffer.backspace(),
        EditOp::Delete => buffer.delete(),
    }
}

/// What a key does in normal mode: the edit, the next mode, whether a first
/// `g` is waiting, and whether to quit. `gg` goes to the top, `G` to the
/// bottom, `hjkl` and the arrows move, `0` and `$` go to the line's ends, `i`
/// inserts, `:` opens the command line, Control-C quits.
pub struct NormalStep {
    pub op: Option<EditOp>,
    pub mode: Mode,
    pub pending_g: bool,
    pub quit: bool,
}

pub open spec fn normal_step(pending_g: bool, key: Key, mods: Mods) -> NormalStep {
    let moving = |op: EditOp| NormalStep { op: Some(op), mode: Mode::Normal, pending_g: false, quit: false };
    let idle = NormalStep { op: None, mode: Mode::Normal, pending_g: false, quit: false };
    match key {
        Key::Char(c) => {
            if c == 'c' && mods == Mods::Control {
                NormalStep { quit: true, pending_g, ..idle }
            } else if c == 'i' && mods == Mods::Plain {
                NormalStep { mode: Mode::Insert, ..idle }
            } else if c == ':' && mods == Mods::Plain {
                NormalStep { mode: Mode::Command, ..idle }
            } else if c == 'g' && mods == Mods::Plain {
                if pending_g { moving(EditOp::Top) } else { NormalStep { pending_g: true, ..idle } }
            } else if c == 'G' && mods == Mods::Shift {
                moving(EditOp::Bottom)
            } else if c == 'h' && mods == Mods::Plain {
                moving(EditOp::MoveLeft)
            } else if c == 'j' && mods == Mods::Plain {
                moving(EditOp::MoveDown)
            } else if c == 'k' && mods == Mods::Plain {
                moving(EditOp::MoveUp)
            } else if c == 'l' && mods == Mods::Plain {
                moving(EditOp::MoveRight)
            } else if c == '0' && mods == Mods::Plain {
                moving(EditOp::LineStart)
            } else if c == '$' && mods == Mods::Shift {
                moving(EditOp::LineEnd)
            } else {
                idle
            }
        },
        Key::Left => moving(EditOp::MoveLeft),
        Key::Down => moving(EditOp::MoveDown),
        Key::Up => moving(EditOp::MoveUp),
        Key::Right => moving(EditOp::MoveRight),
        Key::End => moving(EditOp::LineEnd),
        _ => idle,
    }
}

/// The edit a key asks for in insert mode; `None` for Esc, which leaves the mode.
pub open spec fn insert_step(key: Key, mods: Mods) -> (Option<EditOp>, bool) {
    match key {
        Key::Esc => (None, true),
        Key::Enter => (Some(EditOp::InsertNewline), false),
        Key::Backspace => (Some(EditOp::Backspace), false),
        Key::Delete => (Some(EditOp::Delete), false),
        Key::Left => (Some(EditOp::MoveLeft), false),
        Key::Right => (Some(EditOp::MoveRight), false),
        Key::Up => (Some(EditOp::MoveUp), false),
        Key::Down => (Some(EditOp::MoveDown), false),
        Key::Home => (Some(EditOp::LineStart), false),
        Key::End => (Some(EditOp::LineEnd), false),
        Key::Char(c) => if mods == Mods::Plain || mods == Mods::Shift {
            (Some(EditOp::InsertChar(c)), false)
        } else {
            (None, false)
        },
        _ => (None, false),
    }
}

pub fn normal_key(pending_g: bool, key: Key, mods: Mods) -> (r: NormalStep)
    ensures
        r == normal_step(pending_g, key, mods),
{
    let idle = NormalStep { op: None, mode: Mode::Normal, pending_g: false, quit: false };
    let op = match key {
        Key::Char(c) => {
            let plain = mods == Mods::Plain;
            if c == 'c' && mods == Mods::Control {
                return NormalStep { quit: true, pending_g, ..idle };
            } else if c == 'i' && plain {
                return NormalStep { mode: Mode::Insert, ..idle };
            } else if c == ':' && plain {
                return NormalStep { mode: Mode::Command, ..idle };
            } else if c == 'g' && plain {
                if pending_g {
                    EditOp::Top
                } else {
                    return NormalStep { pending_g: true, ..idle };
                }
            } else if c == 'G' && mods == Mods::Shift {
                EditOp::Bottom
            } else if c == 'h' && plain {
                EditOp::MoveLeft
            } else if c == 'j' && plain {
                EditOp::MoveDown
            } else if c == 'k' && plain {
                EditOp::MoveUp
            } else if c == 'l' && plain {
                EditOp::MoveRight
            } else if c == '0' && plain {
                EditOp::LineStart
            } else if c == '$' && mods == Mods::Shift {
                EditOp::LineEnd
            } else {
                return idle;
            }
        },
        Key::Left => EditOp::MoveLeft,
        Key::Down => EditOp::MoveDown,
        Key::Up => EditOp::MoveUp,
        Key::Right => EditOp::MoveRight,
        Key::End => EditOp::LineEnd,
        _ => {
            return idle;
        },
    };
    NormalStep { op: Some(op), ..idle }
}

pub fn insert_key(key: Key, mods: Mods) -> (r: (Option<EditOp>, bool))
    ensures
        r == insert_step(key, mods),
{
    match key {
        Key::Esc => (None, true),
        Key::Enter => (Some(EditOp::InsertNewline), false),
        Key::Backspace => (Some(EditOp::Backspace), false),
        Key::Delete => (Some(EditOp::Delete), false),
        Key::Left => (Some(EditOp::MoveLeft), false),
        Key::Right => (Some(EditOp::MoveRight), false),
        Key::Up => (Some(EditOp::MoveUp), false),
        Key::Down => (Some(EditOp::MoveDown), false),
        Key::Home => (Some(EditOp::LineStart), false),
        Key::End => (Some(EditOp::LineEnd), false),
        Key::Char(c) => if mods == Mods::Plain || mods == Mods::Shift {
            (Some(EditOp::InsertChar(c)), false)
        } else {
            (None, false)
        },
        _ => (None, false),
    }
}

/// File work the editor asks for: write the text to a path (and quit once
/// that succeeds), or open a path.
#[derive(Debug, Clone, PartialEq, Eq)]
pub enum FileRequest {
    Write { path: String, contents: String, then_quit: bool },
    Open { path: String },
}

pub enum RequestView {
    Write { path: Seq<char>, contents: Seq<char>, then_quit: bool },
    Open { path: Seq<char> },
}

pub open spec fn request_view(r: Option<FileRequest>) -> Option<RequestView> {
    match r {
        Some(FileRequest::Write { path, contents, then_quit }) => Some(
            RequestView::Write { path: path@, contents: contents@, then_quit },
        ),
        Some(FileRequest::Open { path }) => Some(RequestView::Open { path: path@ }),
        None => None,
    }
}

pub open spec fn opt_view(s: Option<String>) -> Option<Seq<char>> {
    match s {
        Some(t) => Some(t@),
        None => None,
    }
}

/// An editing session: the buffer, the mode, the command line being typed
/// and the message shown.
#[derive(Debug)]
pub struct Editor {
    pub mode: Mode,
    pub buffer: Buffer,
    pub status: Option<String>,
    pub cmdline: String,
    pub should_quit: bool,
    pub pending_g: bool,
}

/// The session as plain values.
pub struct EditorView {
    pub mode: Mode,
    pub doc: EditState,
    pub dirty: bool,
    pub path: Option<Seq<char>>,
    pub status: Option<Seq<char>>,
    pub cmdline: Seq<char>,
    pub quit: bool,
    pub pending_g: bool,
}

pub open spec fn editor_view(e: Editor) -> EditorView {
    EditorView {
        mode: e.mode,
        doc: e.buffer@,
        dirty: e.buffer.dirty,
        path: opt_view(e.buffer.file_path),
        status: opt_view(e.status),
        cmdline: e.cmdline@,
        quit: e.should_quit,
        pending_g: e.pending_g,
    }
}

/// `v` after the edit `op`, if any.
pub open spec fn with_edit(v: EditorView, op: Option<EditOp>) -> EditorView {
    match op {
        Some(o) => EditorView { doc: edited(v.doc, o), dirty: edited_dirty(v.doc, o, v.dirty), ..v },
        None => v,
    }
}

/// What a parsed command does: `q` quits unless there are unsaved changes
/// (`q!` quits anyway); `w [path]` asks to write to the path given or the
/// buffer's own; `wq` asks to write to the buffer's path and quit; `e[!] path`
/// asks to open a path unless there are unsaved changes.
pub open spec fn command_effect(v: EditorView, cmd: CommandView) -> (EditorView, Option<RequestView>) {
    match cmd {
        CommandView::Quit { force } => if v.dirty && !force {
            (EditorView { status: Some("E: No write since last change (add ! to override)"@), ..v }, None)
        } else {
            (EditorView { quit: true, ..v }, None)
        },
        CommandView::Write { target } => {
            let dest = match target {
                Some(p) => Some(p),
                None => v.path,
            };
            match dest {
                Some(p) => (v, Some(RequestView::Write { path: p, contents: v.doc.text, then_quit: false })),
                None => (EditorView { status: Some("E: No file name"@), ..v }, None),
            }
        },
        CommandView::WriteQuit => match v.path {
            Some(p) => (v, Some(RequestView::Write { path: p, contents: v.doc.text, then_quit: true })),
            None => (EditorView { status: Some("E: No file name"@), ..v }, None),
        },
        CommandView::Edit { path, force } => if v.dirty && !force {
            (EditorView { status: Some("E: Unsaved changes (use :e! to discard)"@), ..v }, None)
        } else {
            (v, Some(RequestView::Open { path }))
        },
    }
}

/// What running the command line `line` does.
pub open spec fn line_effect(v: EditorView, line: Seq<char>) -> (EditorView, Option<RequestView>) {
    match command_of(line) {
        Ok(cmd) => command_effect(v, cmd),
        Err(CommandParseError::Empty) => (v, None),
        Err(CommandParseError::MissingPath) => (EditorView { status: Some("E: missing path"@), ..v }, None),
        Err(CommandParseError::Unknown) => (EditorView { status: Some("E: unknown command"@), ..v }, None),
    }
}

/// What a key does in each mode.
pub open spec fn key_effect(v: EditorView, key: Key, mods: Mods) -> (EditorView, Option<RequestView>) {
    match v.mode {
        Mode::Normal => {
            let st = normal_step(v.pending_g, key, mods);
            let w = with_edit(EditorView { status: None, ..v }, st.op);
            (
                EditorView {
                    mode: st.mode,
                    pending_g: st.pending_g,
                    quit: w.quit || st.quit,
                    cmdline: if st.mode == Mode::Command { Seq::empty() } else { w.cmdline },
                    ..w
                },
                None,
            )
        },
        Mode::Insert => {
            let (op, leave) = insert_step(key, mods);
            let w = with_edit(EditorView { pending_g: false, ..v }, op);
            (EditorView { mode: if leave { Mode::Normal } else { Mode::Insert }, ..w }, None)
        },
        Mode::Command => {
            let w = EditorView { pending_g: false, ..v };
            match key {
                Key::Esc => (EditorView { mode: Mode::Normal, cmdline: Seq::empty(), ..w }, None),
                Key::Enter => line_effect(
                    EditorView { mode: Mode::Normal, cmdline: Seq::empty(), ..w },
                    v.cmdline,
                ),
                Key::Backspace => (
                    EditorView {
                        cmdline: if v.cmdline.len() > 0 { v.cmdline.drop_last() } else { v.cmdline },
                        ..w
                    },
                    None,
                ),
                Key::Char(c) => if mods == Mods::Plain || mods == Mods::Shift {
                    (EditorView { cmdline: v.cmdline.push(c), ..w }, None)
                } else {
                    (w, None)
                },
                _ => (w, None),
            }
        },
    }
}

impl Editor {
    /// A session in normal mode on `buffer`, showing `status`.
    pub fn new(buffer: Buffer, status: Option<String>) -> (e: Self)
        ensures
            e.mode == Mode::Normal,
            e.buffer == buffer,
            e.status == status,
            e.cmdline@ == Seq::<char>::empty(),
            !e.should_quit,
            !e.pending_g,
    {
        Editor {
            mode: Mode::Normal,
            buffer,
            status,
            cmdline: String::new(),
            should_quit: false,
            pending_g: false,
        }
    }

    fn edit(&mut self, op: Option<EditOp>)
        requires
            old(self).buffer@.text.len() < usize::MAX,
        ensures
            editor_view(*final(self)) == with_edit(editor_view(*old(self)), op),
    {
        match op {
            Some(o) => apply_edit(&mut self.buffer, o),
            None => {},
        }
    }

    /// Handles one key. A command that needs the file system comes back as a
    /// request; its outcome is then handed to `finish_write` or `finish_open`.
    pub fn handle_key(&mut self, key: Key, mods: Mods) -> (r: Option<FileRequest>)
        requires
            old(self).buffer@.text.len() < usize::MAX,
        ensures
            (editor_view(*final(self)), request_view(r)) == key_effect(editor_view(*old(self)), key, mods),
    {
        match self.mode {
            Mode::Normal => {
                self.status = None;
                let step = normal_key(self.pending_g, key, mods);
                self.edit(step.op);
                self.mode = step.mode;
                self.pending_g = step.pending_g;
                self.should_quit = self.should_quit || step.quit;
                if step.mode == Mode::Command {
                    self.cmdline = String::new();
                }
                None
            },
            Mode::Insert => {
                self.pending_g = false;
                let (op, leave) = insert_key(key, mods);
                self.edit(op);
                if leave {
                    self.mode = Mode::Normal;
                }
                None
            },
            Mode::Command => {
                self.pending_g = false;
                match key {
                    Key::Esc => {
                        self.mode = Mode::Normal;
                        self.cmdline = String::new();
                        None
                    },
                    Key::Enter => {
                        let mut line = String::new();
                        core::mem::swap(&mut line, &mut self.cmdline);
                        self.mode = Mode::Normal;
                        self.exec_command(line.as_str())
                    },
                    Key::Backspace => {
                        let v = chars_of(self.cmdline.as_str());
                        if v.len() > 0 {
                            self.cmdline = string_of(&v, 0, v.len() - 1);
                            assert(self.cmdline@ =~= v@.drop_last());
                        }
                        None
                    },
                    Key::Char(c) => {
                        if mods == Mods::Plain || mods == Mods::Shift {
                            push_char(&mut self.cmdline, c);
                        }
                        None
                    },
                    _ => None,
                }
            },
        }
    }

    fn exec_command(&mut self, line: &str) -> (r: Option<FileRequest>)
        ensures
            (editor_view(*final(self)), request_view(r)) == line_effect(editor_view(*old(self)), line@),
    {
        match parse_command(line) {
            Ok(cmd) => self.apply_command(cmd),
            Err(CommandParseError::Empty) => None,
            Err(CommandParseError::MissingPath) => {
                self.status = Some("E: missing path".to_owned());
                None
            },
            Err(CommandParseError::Unknown) => {
                self.status = Some("E: unknown command".to_owned());
                None
            },
        }
    }

    fn apply_command(&mut self, cmd: Command) -> (r: Option<FileRequest>)
        ensures
            (editor_view(*final(self)), request_view(r)) == command_effect(editor_view(*old(self)), cmd@),
    {
        match cmd {
            Command::Quit { force } => {
                if self.buffer.dirty && !force {
                    self.status = Some("E: No write since last change (add ! to override)".to_owned());
                } else {
                    self.should_quit = true;
                }
                None
            },
            Command::Write { path } => {
                let dest = match path {
                    Some(p) => Some(p),
                    None => match &self.buffer.file_path {
                        Some(p) => Some(p.clone()),
                        None => None,
                    },
                };
                match dest {
                    Some(p) => Some(FileRequest::Write { path: p, contents: self.buffer.contents(), then_quit: false }),
                    None => {
                        self.status = Some("E: No file name".to_owned());
                        None
                    },
                }
            },
            Command::WriteQuit => match &self.buffer.file_path {
                Some(p) => Some(FileRequest::Write { path: p.clone(), contents: self.buffer.contents(), then_quit: true }),
                None => {
                    self.status = Some("E: No file name".to_owned());
                    None
                },
            },
            Command::Edit { path, force } => {
                if self.buffer.dirty && !force {
                    self.status = Some("E: Unsaved changes (use :e! to discard)".to_owned());
                    None
                } else {
                    Some(FileRequest::Open { path })
                }
            },
        }
    }

    /// Takes the outcome of a write to `path`: on success the buffer is saved
    /// under that path and the session quits if asked to; on failure the
    /// message is shown.
    pub fn finish_write(&mut self, path: String, then_quit: bool, outcome: Result<(), String>)
        ensures
            match outcome {
                Ok(()) => {
                    &&& final(self).buffer@ == old(self).buffer@
                    &&& !final(self).buffer.dirty
                    &&& (then_quit ==> final(self).should_quit && final(self).status == old(self).status
                        && final(self).buffer.file_path == old(self).buffer.file_path)
                    &&& (!then_quit ==> final(self).buffer.file_path == Some(path)
                        && opt_view(final(self).status) == Some("written"@)
                        && final(self).should_quit == old(self).should_quit)
                },
                Err(msg) => {
                    &&& final(self).buffer == old(self).buffer
                    &&& opt_view(final(self).status) == Some("E: "@ + msg@)
                    &&& final(self).should_quit == old(self).should_quit
                },
            },
            final(self).mode == old(self).mode,
            final(self).cmdline == old(self).cmdline,
    {
        match outcome {
            Ok(()) => {
                if then_quit {
                    self.buffer.mark_saved();
                    self.should_quit = true;
                } else {
                    self.buffer.file_path = Some(path);
                    self.buffer.mark_saved();
                    self.status = Some("written".to_owned());
                }
            },
            Err(msg) => {
                let mut s = "E: ".to_owned();
                crate::strings::push_str(&mut s, msg.as_str());
                self.status = Some(s);
            },
        }
    }

    /// Takes the outcome of opening `path`: its text (`Ok(Some(..))`), no such
    /// file (`Ok(None)`, giving an empty buffer), or a failure to show.
    pub fn finish_open(&mut self, path: String, outcome: Result<Option<String>, String>)
        ensures
            match outcome {
                Ok(Some(text)) => {
                    &&& final(self).buffer@.text == crate::fs_io::normalized(text@)
                    &&& final(self).buffer@.line == 0 && final(self).buffer@.col == 0
                    &&& !final(self).buffer.dirty
                    &&& final(self).buffer.file_path == Some(path)
                    &&& opt_view(final(self).status) == Some("opened"@)
                },
                Ok(None) => {
                    &&& final(self).buffer@.text == Seq::<char>::empty()
                    &&& final(self).buffer@.line == 0 && final(self).buffer@.col == 0
                    &&& !final(self).buffer.dirty
                    &&& final(self).buffer.file_path == Some(path)
                    &&& opt_view(final(self).status) == Some("New file"@)
                },
                Err(msg) => {
                    &&& final(self).buffer == old(self).buffer
                    &&& opt_view(final(self).status) == Some("E: "@ + msg@)
                },
            },
            final(self).mode == old(self).mode,
            final(self).should_quit == old(self).should_quit,
    {
        match outcome {
            Ok(Some(text)) => {
                self.buffer.set_contents(text);
                self.buffer.file_path = Some(path);
                self.status = Some("opened".to_owned());
            },
            Ok(None) => {
                self.buffer.set_contents(String::new());
                self.buffer.file_path = Some(path);
                self.status = Some("New file".to_owned());
                proof {
                    crate::fs_io::lemma_normalized_empty();
                }
            },
            Err(msg) => {
                let mut s = "E: ".to_owned();
                crate::strings::push_str(&mut s, msg.as_str());
                self.status = Some(s);
            },
        }
    }
}

} // verus!
