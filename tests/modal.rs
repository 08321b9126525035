use termedit::buffer::{Buffer, Cursor};
use termedit::modal::{apply_edit, insert_key, normal_key, EditOp, Editor, FileRequest, Key, Mode, Mods};

fn typed(e: &mut Editor, text: &str) -> Option<FileRequest> {
    let mut last = None;
    for c in text.chars() {
        let key = if c == '\n' { Key::Enter } else { Key::Char(c) };
        last = e.handle_key(key, Mods::Plain);
    }
    last
}

#[test]
fn normal_mode_keys() {
    let step = normal_key(false, Key::Char('g'), Mods::Plain);
    assert!(step.pending_g && step.op.is_none());
    let step = normal_key(true, Key::Char('g'), Mods::Plain);
    assert_eq!(step.op, Some(EditOp::Top));
    assert!(!step.pending_g);
    assert_eq!(normal_key(false, Key::Char('G'), Mods::Shift).op, Some(EditOp::Bottom));
    assert_eq!(normal_key(false, Key::Left, Mods::Control).op, Some(EditOp::MoveLeft));
    assert!(normal_key(true, Key::Char('c'), Mods::Control).quit);
    assert_eq!(normal_key(false, Key::Char('i'), Mods::Plain).mode, Mode::Insert);
    assert_eq!(normal_key(false, Key::Char(':'), Mods::Plain).mode, Mode::Command);
    assert_eq!(normal_key(false, Key::Char('x'), Mods::Plain).op, None);
}

#[test]
fn insert_mode_keys() {
    assert_eq!(insert_key(Key::Esc, Mods::Plain), (None, true));
    assert_eq!(insert_key(Key::Char('A'), Mods::Shift), (Some(EditOp::InsertChar('A')), false));
    assert_eq!(insert_key(Key::Char('a'), Mods::Control), (None, false));
    assert_eq!(insert_key(Key::Home, Mods::Plain), (Some(EditOp::LineStart), false));
}

#[test]
fn apply_edit_moves_and_edits() {
    let mut b = Buffer::from_text(None, "ab\ncd".to_string());
    apply_edit(&mut b, EditOp::Bottom);
    assert_eq!(b.cursor, Cursor { line: 1, col: 2 });
    apply_edit(&mut b, EditOp::InsertChar('!'));
    assert_eq!(b.contents(), "ab\ncd!");
    assert!(b.dirty);
}

#[test]
fn typing_and_commands() {
    let mut e = Editor::new(Buffer::new_empty(None), None);
    assert!(e.handle_key(Key::Char('i'), Mods::Plain).is_none());
    assert_eq!(e.mode, Mode::Insert);
    typed(&mut e, "hi\nyo");
    assert_eq!(e.buffer.contents(), "hi\nyo");
    e.handle_key(Key::Esc, Mods::Plain);
    assert_eq!(e.mode, Mode::Normal);
    e.handle_key(Key::Char(':'), Mods::Plain);
    assert_eq!(e.mode, Mode::Command);
    typed(&mut e, "qx");
    e.handle_key(Key::Backspace, Mods::Plain);
    assert_eq!(e.cmdline, "q");
    assert!(e.handle_key(Key::Enter, Mods::Plain).is_none());
    assert_eq!(e.status.as_deref(), Some("E: No write since last change (add ! to override)"));
    assert!(!e.should_quit);
    e.handle_key(Key::Char(':'), Mods::Plain);
    typed(&mut e, "w");
    assert!(e.handle_key(Key::Enter, Mods::Plain).is_none());
    assert_eq!(e.status.as_deref(), Some("E: No file name"));
    e.handle_key(Key::Char(':'), Mods::Plain);
    let req = typed(&mut e, "w out.txt\n");
    assert_eq!(
        req,
        Some(FileRequest::Write {
            path: "out.txt".to_string(),
            contents: "hi\nyo".to_string(),
            then_quit: false
        })
    );
    e.finish_write("out.txt".to_string(), false, Ok(()));
    assert_eq!(e.buffer.file_path.as_deref(), Some("out.txt"));
    assert!(!e.buffer.dirty);
    assert_eq!(e.status.as_deref(), Some("written"));
    e.handle_key(Key::Char(':'), Mods::Plain);
    typed(&mut e, "zz\n");
    assert_eq!(e.status.as_deref(), Some("E: unknown command"));
    e.handle_key(Key::Char(':'), Mods::Plain);
    typed(&mut e, "q\n");
    assert!(e.should_quit);
}

#[test]
fn edit_and_write_quit_requests() {
    let mut e = Editor::new(Buffer::new_empty(Some("a.txt".to_string())), None);
    e.handle_key(Key::Char(':'), Mods::Plain);
    let req = typed(&mut e, "e b.txt\n");
    assert_eq!(req, Some(FileRequest::Open { path: "b.txt".to_string() }));
    e.finish_open("b.txt".to_string(), Ok(Some("x\r\ny".to_string())));
    assert_eq!(e.buffer.contents(), "x\ny");
    assert_eq!(e.status.as_deref(), Some("opened"));
    e.finish_open("c.txt".to_string(), Ok(None));
    assert_eq!(e.buffer.contents(), "");
    assert_eq!(e.status.as_deref(), Some("New file"));
    e.finish_open("d.txt".to_string(), Err("boom".to_string()));
    assert_eq!(e.status.as_deref(), Some("E: boom"));
    assert_eq!(e.buffer.file_path.as_deref(), Some("c.txt"));
    e.handle_key(Key::Char(':'), Mods::Plain);
    let req = typed(&mut e, "wq\n");
    assert_eq!(
        req,
        Some(FileRequest::Write { path: "c.txt".to_string(), contents: String::new(), then_quit: true })
    );
    e.finish_write("c.txt".to_string(), true, Ok(()));
    assert!(e.should_quit);
    e.handle_key(Key::Char(':'), Mods::Plain);
    typed(&mut e, "e\n");
    assert_eq!(e.status.as_deref(), Some("E: missing path"));
}
