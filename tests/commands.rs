use termedit::commands::{parse_command, Command, CommandParseError};

#[test]
fn parse_basic() {
    assert_eq!(parse_command("w").unwrap(), Command::Write { path: None });
    assert_eq!(
        parse_command("w a.txt").unwrap(),
        Command::Write {
            path: Some("a.txt".to_string())
        }
    );
    assert_eq!(
        parse_command("e! a.txt").unwrap(),
        Command::Edit {
            path: "a.txt".to_string(),
            force: true
        }
    );
    assert_eq!(parse_command("q!").unwrap(), Command::Quit { force: true });
    assert_eq!(parse_command("wq").unwrap(), Command::WriteQuit);
}

#[test]
fn parse_errors() {
    assert_eq!(parse_command("   "), Err(CommandParseError::Empty));
    assert_eq!(parse_command("e"), Err(CommandParseError::MissingPath));
    assert_eq!(parse_command("x foo"), Err(CommandParseError::Unknown));
}

#[test]
fn parse_with_surrounding_space() {
    assert_eq!(parse_command("  q  ").unwrap(), Command::Quit { force: false });
    assert_eq!(
        parse_command(" e   b.txt  extra").unwrap(),
        Command::Edit {
            path: "b.txt".to_string(),
            force: false
        }
    );
}
