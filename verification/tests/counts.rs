use go_text_protocol::decimal::parse_count;
use go_text_protocol::CharClass;

#[test]
fn parse_count_reads_decimal_digits() {
    assert_eq!(parse_count("0"), Some(0));
    assert_eq!(parse_count("7"), Some(7));
    assert_eq!(parse_count("123"), Some(123));
    assert_eq!(parse_count("000123"), Some(123));
    assert_eq!(parse_count("1000000000"), Some(1_000_000_000));
}

#[test]
fn parse_count_stops_at_32_bits() {
    assert_eq!(parse_count("4294967295"), Some(u32::MAX));
    assert_eq!(parse_count("4294967296"), None);
    assert_eq!(parse_count("4294967300"), None);
    assert_eq!(parse_count("42949672950"), None);
    assert_eq!(parse_count("00000000004294967295"), Some(u32::MAX));
}

#[test]
fn parse_count_takes_nothing_but_digits() {
    assert_eq!(parse_count(""), None);
    assert_eq!(parse_count("+1"), None);
    assert_eq!(parse_count("-1"), None);
    assert_eq!(parse_count("1 "), None);
    assert_eq!(parse_count("12a"), None);
    assert_eq!(parse_count("a12"), None);
    assert_eq!(parse_count("1/"), None);
    assert_eq!(parse_count("1:"), None);
    assert_eq!(parse_count("\u{663}"), None);
    assert_eq!(parse_count("1\u{e9}"), None);
}

#[test]
fn patterns_anchor_a_repeated_class() {
    assert_eq!(CharClass::Digit.pattern(), r"^\d+");
    assert_eq!(CharClass::Space.pattern(), r"^\s+");
    assert_eq!(CharClass::Word.pattern(), r"^[\w\d]+");
}
