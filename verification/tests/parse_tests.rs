use kpt_back::parse::{format_id, parse_board_id};

#[test]
fn parse_plain_number() {
    assert_eq!(parse_board_id("7"), Some(7));
    assert_eq!(parse_board_id("0"), Some(0));
    assert_eq!(parse_board_id("1234567890"), Some(1234567890));
}

#[test]
fn parse_leading_plus() {
    assert_eq!(parse_board_id("+42"), Some(42));
    assert_eq!(parse_board_id("+"), None);
}

#[test]
fn parse_rejects_non_numeric() {
    assert_eq!(parse_board_id(""), None);
    assert_eq!(parse_board_id("abc"), None);
    assert_eq!(parse_board_id("12a"), None);
    assert_eq!(parse_board_id("-5"), None);
    assert_eq!(parse_board_id("1 2"), None);
}

#[test]
fn parse_range_limits() {
    assert_eq!(parse_board_id("9223372036854775807"), Some(i64::MAX));
    assert_eq!(parse_board_id("9223372036854775808"), None);
    assert_eq!(parse_board_id("99999999999999999999999"), None);
}

#[test]
fn format_renders_decimal() {
    assert_eq!(format_id(0).as_str(), "0");
    assert_eq!(format_id(7).as_str(), "7");
    assert_eq!(format_id(1234).as_str(), "1234");
    assert_eq!(format_id(i64::MAX).as_str(), "9223372036854775807");
}

#[test]
fn format_then_parse_round_trips() {
    for v in [0i64, 1, 9, 10, 99, 100, 4096, i64::MAX] {
        assert_eq!(parse_board_id(format_id(v).as_str()), Some(v));
    }
}
