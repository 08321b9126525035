use vstd::prelude::*;
use crate::strings::{same_text, trim, trimmed};

verus! {

/// A console line: a request for help or anything else, trimmed.
#[derive(Debug, Clone)]
pub enum Command {
    Help,
    Input(String),
}

/// The command a console line stands for: none for a blank line, help for
/// `help` or `?`, else the trimmed line.
pub open spec fn console_command(line: Seq<char>) -> Option<Option<Seq<char>>> {
    let t = trimmed(line);
    if t.len() == 0 {
        None
    } else if t == seq!['h', 'e', 'l', 'p'] || t == seq!['?'] {
        Some(None)
    } else {
        Some(Some(t))
    }
}

pub open spec fn command_view(c: Option<Command>) -> Option<Option<Seq<char>>> {
    match c {
        None => None,
        Some(Command::Help) => Some(None),
        Some(Command::Input(s)) => Some(Some(s@)),
    }
}

pub fn parse_line(line: &str) -> (r: Option<Command>)
    ensures
        command_view(r) == console_command(line@),
{
    proof {
        reveal_strlit("help");
        reveal_strlit("?");
        assert("help"@ =~= seq!['h', 'e', 'l', 'p']);
        assert("?"@ =~= seq!['?']);
    }
    let t = trim(line);
    if t.as_str().is_empty() {
        return None;
    }
    if same_text(&t, "help") || same_text(&t, "?") {
        return Some(Command::Help);
    }
    Some(Command::Input(t))
}

/// The console's help text.
pub fn help_text() -> (s: &'static str)
    ensures
        s@ == help_chars(),
{
    "commands:\n  help | ?\n  markup:<markup>\n  asm:<program>\n  tab:new <title>\n  tab:list\n  tab:focus <id>\n  layout:split h|v\n  layout:focus <id>\n  tile:bind <tile> <tab>\n  tile:unbind <tile>\n  tile:map"
}

pub open spec fn help_chars() -> Seq<char> {
    "commands:\n  help | ?\n  markup:<markup>\n  asm:<program>\n  tab:new <title>\n  tab:list\n  tab:focus <id>\n  layout:split h|v\n  layout:focus <id>\n  tile:bind <tile> <tab>\n  tile:unbind <tile>\n  tile:map"@
}

} // verus!
