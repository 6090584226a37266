use go_text_protocol::{parse, ErrorKind, Parser, RawCommand};

fn raw(count: Option<u32>, name: &str, args: &[&str]) -> RawCommand {
    RawCommand {
        count,
        name: name.to_string(),
        args: args.iter().map(|a| a.to_string()).collect(),
    }
}

#[test]
fn play_with_count_and_two_arguments() {
    let got: RawCommand = parse("3 play black D5").unwrap();
    assert_eq!(got.count, Some(3));
    assert_eq!(got.name, "play");
    assert_eq!(got.args, vec!["black", "D5"]);
}

#[test]
fn bare_command_has_no_count_and_no_arguments() {
    let got: RawCommand = parse("quit").unwrap();
    assert_eq!(got, raw(None, "quit", &[]));
}

#[test]
fn empty_line_is_no_command() {
    let got: Result<RawCommand, ErrorKind> = parse("");
    assert!(matches!(got, Err(ErrorKind::NoCommand)));
}

#[test]
fn count_alone_lacks_whitespace() {
    let got: Result<RawCommand, ErrorKind> = parse("42");
    assert!(matches!(got, Err(ErrorKind::NoWhitespace)));
}

#[test]
fn count_directly_followed_by_letters_lacks_whitespace() {
    let got: Result<RawCommand, ErrorKind> = parse("42abc");
    assert!(matches!(got, Err(ErrorKind::NoWhitespace)));
}

#[test]
fn count_and_whitespace_without_a_name_is_no_command() {
    let got: Result<RawCommand, ErrorKind> = parse("42   ");
    assert!(matches!(got, Err(ErrorKind::NoCommand)));
}

#[test]
fn only_whitespace_is_no_command() {
    let got: Result<RawCommand, ErrorKind> = parse("   ");
    assert!(matches!(got, Err(ErrorKind::NoCommand)));
}

#[test]
fn only_punctuation_is_no_command() {
    let got: Result<RawCommand, ErrorKind> = parse("?!");
    assert!(matches!(got, Err(ErrorKind::NoCommand)));
}

#[test]
fn count_with_three_arguments() {
    let got: RawCommand = parse("123 hello arg1 arg2 arg3").unwrap();
    assert_eq!(got, raw(Some(123), "hello", &["arg1", "arg2", "arg3"]));
}

#[test]
fn largest_count_is_read() {
    let got: RawCommand = parse("4294967295 genmove").unwrap();
    assert_eq!(got, raw(Some(4294967295), "genmove", &[]));
}

#[test]
fn count_beyond_32_bits_is_an_error() {
    let got: Result<RawCommand, ErrorKind> = parse("4294967296 genmove");
    assert!(matches!(got, Err(ErrorKind::BadCount)));
    let got: Result<RawCommand, ErrorKind> = parse("99999999999999999999999 genmove");
    assert!(matches!(got, Err(ErrorKind::BadCount)));
}

#[test]
fn count_in_other_digits_is_an_error() {
    // Arabic-Indic digits are digits to the lexer, but no decimal count.
    let got: Result<RawCommand, ErrorKind> = parse("\u{663}\u{664} play");
    assert!(matches!(got, Err(ErrorKind::BadCount)));
}

#[test]
fn leading_zeros_do_not_change_the_count() {
    let got: RawCommand = parse("007 name").unwrap();
    assert_eq!(got, raw(Some(7), "name", &[]));
    let got: RawCommand = parse("0 name").unwrap();
    assert_eq!(got, raw(Some(0), "name", &[]));
}

#[test]
fn runs_of_mixed_whitespace_separate() {
    let got: RawCommand = parse("12 \t boardsize \r\n 19\u{a0}\u{3000}x").unwrap();
    assert_eq!(got, raw(Some(12), "boardsize", &["19", "x"]));
}

#[test]
fn trailing_whitespace_is_skipped() {
    let got: RawCommand = parse("quit   ").unwrap();
    assert_eq!(got, raw(None, "quit", &[]));
}

#[test]
fn leading_whitespace_hides_the_command() {
    let got: Result<RawCommand, ErrorKind> = parse(" quit");
    assert!(matches!(got, Err(ErrorKind::NoCommand)));
}

#[test]
fn punctuation_ends_the_line() {
    let got: RawCommand = parse("play black, D5").unwrap();
    assert_eq!(got, raw(None, "play", &["black"]));
    let got: RawCommand = parse("play-now").unwrap();
    assert_eq!(got, raw(None, "play", &[]));
}

#[test]
fn underscores_and_digits_belong_to_identifiers() {
    let got: RawCommand = parse("final_status_list dead_1 2x").unwrap();
    assert_eq!(got, raw(None, "final_status_list", &["dead_1", "2x"]));
}

#[test]
fn identifiers_may_hold_letters_beyond_ascii() {
    let got: RawCommand = parse("7 zug wei\u{df} \u{3b1}\u{3b2}").unwrap();
    assert_eq!(got, raw(Some(7), "zug", &["wei\u{df}", "\u{3b1}\u{3b2}"]));
}

#[test]
fn name_after_a_count_may_start_with_a_digit() {
    let got: RawCommand = parse("3 4play").unwrap();
    assert_eq!(got, raw(Some(3), "4play", &[]));
}

#[test]
fn read_number_leaves_other_text_alone() {
    let mut lexer = Parser::new("abc 12");
    assert_eq!(lexer.read_number().unwrap(), None);
    assert_eq!(lexer.pointer(), 0);
}

#[test]
fn read_number_stops_at_the_first_other_character() {
    let mut lexer = Parser::new("12ab");
    assert_eq!(lexer.read_number().unwrap(), Some(12));
    assert_eq!(lexer.pointer(), 2);
}

#[test]
fn bad_count_moves_nothing() {
    let mut lexer = Parser::new("4294967296");
    assert!(matches!(lexer.read_number(), Err(ErrorKind::BadCount)));
    assert_eq!(lexer.pointer(), 0);
}

#[test]
fn mandatory_whitespace_is_demanded() {
    let mut lexer = Parser::new("abc");
    assert!(matches!(lexer.skip_whitespace(true), Err(ErrorKind::NoWhitespace)));
    assert_eq!(lexer.pointer(), 0);
}

#[test]
fn optional_whitespace_may_be_missing() {
    let mut lexer = Parser::new("abc");
    assert!(lexer.skip_whitespace(false).is_ok());
    assert_eq!(lexer.pointer(), 0);
    let mut lexer = Parser::new("  abc");
    assert!(lexer.skip_whitespace(false).is_ok());
    assert_eq!(lexer.pointer(), 2);
}

#[test]
fn lex_identifier_needs_a_word_character() {
    let mut lexer = Parser::new(" abc");
    assert_eq!(lexer.lex_identifier().unwrap(), None);
    assert_eq!(lexer.pointer(), 0);
    let mut lexer = Parser::new("");
    assert_eq!(lexer.lex_identifier().unwrap(), None);
    assert_eq!(lexer.pointer(), 0);
}

#[test]
fn the_cursor_counts_bytes() {
    let mut lexer = Parser::new("\u{3b1}\u{3b2}\u{3000}x");
    assert_eq!(lexer.lex_identifier().unwrap(), Some("\u{3b1}\u{3b2}".to_string()));
    assert_eq!(lexer.pointer(), 4);
    lexer.skip_whitespace(true).unwrap();
    assert_eq!(lexer.pointer(), 7);
    assert_eq!(lexer.lex_identifier().unwrap(), Some("x".to_string()));
    assert_eq!(lexer.pointer(), 8);
}

#[test]
fn the_primitives_in_turn_read_a_line() {
    let mut lexer = Parser::new("5 komi 6");
    assert_eq!(lexer.read_number().unwrap(), Some(5));
    lexer.skip_whitespace(true).unwrap();
    assert_eq!(lexer.lex_identifier().unwrap(), Some("komi".to_string()));
    lexer.skip_whitespace(false).unwrap();
    assert_eq!(lexer.pointer(), 7);
    // What is left starts with a digit, so it is read as a count that lacks
    // its whitespace.
    assert!(matches!(lexer.parse(), Err(ErrorKind::NoWhitespace)));
}

#[test]
fn parse_goes_on_from_the_cursor() {
    let mut lexer = Parser::new("5 komi six");
    assert_eq!(lexer.read_number().unwrap(), Some(5));
    lexer.skip_whitespace(true).unwrap();
    assert_eq!(lexer.parse().unwrap(), raw(None, "komi", &["six"]));
}

#[test]
fn lex_stops_behind_the_last_identifier() {
    let mut lexer = Parser::new("1 a b  ;c");
    let (count, words) = lexer.lex().unwrap();
    assert_eq!(count, Some(1));
    assert_eq!(words, vec!["a".to_string(), "b".to_string()]);
    assert_eq!(lexer.pointer(), 7);
}

#[test]
fn lex_of_an_empty_line_finds_nothing() {
    let mut lexer = Parser::new("");
    let (count, words) = lexer.lex().unwrap();
    assert_eq!(count, None);
    assert!(words.is_empty());
}

#[test]
fn engine_errors_are_carried_whole() {
    let cause = regex::Regex::new("(").unwrap_err();
    let shown = format!("{:?}", cause);
    let kind = ErrorKind::Regex(cause);
    assert!(matches!(kind, ErrorKind::Regex(_)));
    assert_eq!(format!("{:?}", kind), format!("Regex({})", shown));
}
