use go_text_protocol::{parse, Command, CommandSet, ErrorKind, MyCommand, RawCommand};

fn board_commands() -> CommandSet {
    CommandSet::new(vec!["ShowBoard".to_string(), "Quit".to_string()])
}

#[test]
fn names_match_in_any_case() {
    let set = board_commands();
    assert_eq!(set.parse("SHOWBOARD").unwrap(), Command::Named(0));
    assert_eq!(set.parse("showboard").unwrap(), Command::Named(0));
    assert_eq!(set.parse("ShowBoard").unwrap(), Command::Named(0));
    assert_eq!(set.parse("sHoWbOaRd").unwrap(), Command::Named(0));
    assert_eq!(set.parse("quit").unwrap(), Command::Named(1));
    assert_eq!(set.parse("QUIT").unwrap(), Command::Named(1));
}

#[test]
fn unknown_command_keeps_its_fields() {
    let set = board_commands();
    assert_eq!(
        set.parse("3 foo bar").unwrap(),
        Command::UnrecognisedCommand(Some(3), "foo".to_string(), vec!["bar".to_string()])
    );
}

#[test]
fn unknown_command_keeps_its_case() {
    let set = board_commands();
    assert_eq!(
        set.parse("ShowBoards A b").unwrap(),
        Command::UnrecognisedCommand(
            None,
            "ShowBoards".to_string(),
            vec!["A".to_string(), "b".to_string()]
        )
    );
}

#[test]
fn count_and_arguments_of_a_known_command_are_dropped() {
    let set = board_commands();
    assert_eq!(set.parse("12 quit now").unwrap(), Command::Named(1));
}

#[test]
fn first_declared_name_wins() {
    let set = CommandSet::new(vec!["play".to_string(), "PLAY".to_string(), "Play".to_string()]);
    assert_eq!(set.parse("Play").unwrap(), Command::Named(0));
}

#[test]
fn empty_set_knows_nothing() {
    let set = CommandSet::new(Vec::new());
    assert_eq!(
        set.parse("quit").unwrap(),
        Command::UnrecognisedCommand(None, "quit".to_string(), Vec::new())
    );
}

#[test]
fn set_passes_parse_errors_on() {
    let set = board_commands();
    assert!(matches!(set.parse(""), Err(ErrorKind::NoCommand)));
    assert!(matches!(set.parse("42"), Err(ErrorKind::NoWhitespace)));
    assert!(matches!(set.parse("4294967296 quit"), Err(ErrorKind::BadCount)));
}

#[test]
fn convert_compares_lower_case_forms() {
    let set = CommandSet::new(vec!["STRASSE".to_string(), "\u{394}elta".to_string()]);
    let delta = RawCommand { count: None, name: "\u{3b4}ELTA".to_string(), args: Vec::new() };
    assert_eq!(set.convert(delta), Command::Named(1));
    let sharp = RawCommand { count: None, name: "stra\u{df}e".to_string(), args: Vec::new() };
    assert_eq!(
        set.convert(sharp),
        Command::UnrecognisedCommand(None, "stra\u{df}e".to_string(), Vec::new())
    );
}

#[test]
fn my_command_from_a_line() {
    let got: MyCommand = parse("FOO").unwrap();
    assert_eq!(got, MyCommand::Foo);
    let got: MyCommand = parse("1 foo x").unwrap();
    assert_eq!(got, MyCommand::Foo);
    let got: MyCommand = parse("1 bar x").unwrap();
    assert_eq!(
        got,
        MyCommand::UnrecognisedCommand(Some(1), "bar".to_string(), vec!["x".to_string()])
    );
}

#[test]
fn my_command_from_a_raw_command() {
    let raw = RawCommand { count: Some(9), name: "fOo".to_string(), args: vec!["a".to_string()] };
    assert_eq!(MyCommand::from(raw), MyCommand::Foo);
}
