use vstd::prelude::*;
use crate::strings::{same_text, split_words, words};

verus! {

/// An editor command line.
#[derive(Debug, Clone, PartialEq, Eq)]
pub enum Command {
    Edit { path: String, force: bool },
    Write { path: Option<String> },
    Quit { force: bool },
    WriteQuit,
}

/// Why a command line was not understood.
#[derive(Debug, Clone, Copy, PartialEq, Eq)]
pub enum CommandParseError {
    Empty,
    MissingPath,
    Unknown,
}

/// A command with its path as characters.
pub enum CommandView {
    Edit { path: Seq<char>, force: bool },
    Write { target: Option<Seq<char>> },
    Quit { force: bool },
    WriteQuit,
}

impl View for Command {
    type V = CommandView;

    open spec fn view(&self) -> CommandView {
        match self {
            Command::Edit { path, force } => CommandView::Edit { path: path@, force: *force },
            Command::Write { path } => CommandView::Write {
                target: match path {
                    Some(p) => Some(p@),
                    None => None,
                },
            },
            Command::Quit { force } => CommandView::Quit { force: *force },
            Command::WriteQuit => CommandView::WriteQuit,
        }
    }
}

/// The command a line stands for: its first word names it, the second is a path.
pub open spec fn command_of(line: Seq<char>) -> Result<CommandView, CommandParseError> {
    let ws = words(line);
    if ws.len() == 0 {
        Err(CommandParseError::Empty)
    } else {
        let head = ws[0];
        if head == seq!['w', 'q'] {
            Ok(CommandView::WriteQuit)
        } else if head == seq!['q'] {
            Ok(CommandView::Quit { force: false })
        } else if head == seq!['q', '!'] {
            Ok(CommandView::Quit { force: true })
        } else if head == seq!['w'] {
            Ok(CommandView::Write { target: if ws.len() > 1 { Some(ws[1]) } else { None } })
        } else if head == seq!['e'] || head == seq!['e', '!'] {
            if ws.len() > 1 {
                Ok(CommandView::Edit { path: ws[1], force: head == seq!['e', '!'] })
            } else {
                Err(CommandParseError::MissingPath)
            }
        } else {
            Err(CommandParseError::Unknown)
        }
    }
}

/// Parses a command line such as `w`, `w a.txt`, `e! a.txt`, `q!` or `wq`.
pub fn parse_command(input: &str) -> (r: Result<Command, CommandParseError>)
    ensures
        match r {
            Ok(c) => command_of(input@) == Ok::<CommandView, CommandParseError>(c@),
            Err(e) => command_of(input@) == Err::<CommandView, CommandParseError>(e),
        },
{
    proof {
        reveal_strlit("wq");
        reveal_strlit("q");
        reveal_strlit("q!");
        reveal_strlit("w");
        reveal_strlit("e");
        reveal_strlit("e!");
        assert("wq"@ =~= seq!['w', 'q']);
        assert("q"@ =~= seq!['q']);
        assert("q!"@ =~= seq!['q', '!']);
        assert("w"@ =~= seq!['w']);
        assert("e"@ =~= seq!['e']);
        assert("e!"@ =~= seq!['e', '!']);
    }
    let mut parts = split_words(input);
    if parts.len() == 0 {
        return Err(CommandParseError::Empty);
    }
    let second = if parts.len() > 1 {
        Some(parts.remove(1))
    } else {
        None
    };
    let head = parts.remove(0);
    let ghost ws = words(input@);
    assert(head@ == ws[0]);
    assert(match second {
        Some(p) => ws.len() > 1 && p@ == ws[1],
        None => ws.len() <= 1,
    });
    if same_text(&head, "wq") {
        Ok(Command::WriteQuit)
    } else if same_text(&head, "q") {
        Ok(Command::Quit { force: false })
    } else if same_text(&head, "q!") {
        Ok(Command::Quit { force: true })
    } else if same_text(&head, "w") {
        Ok(Command::Write { path: second })
    } else if same_text(&head, "e") || same_text(&head, "e!") {
        let force = same_text(&head, "e!");
        match second {
            Some(path) => Ok(Command::Edit { path, force }),
            None => Err(CommandParseError::MissingPath),
        }
    } else {
        Err(CommandParseError::Unknown)
    }
}

} // verus!
