use cmpr::config::parse_skip;

#[test]
fn scenario_invalid_skip_value() {
    assert_eq!(parse_skip(b"purple"), None);
}

#[test]
fn parse_skip_accepts_decimal_counts() {
    assert_eq!(parse_skip(b"0"), Some(0));
    assert_eq!(parse_skip(b"17"), Some(17));
    assert_eq!(parse_skip(b"+5"), Some(5));
    assert_eq!(parse_skip(b"007"), Some(7));
    assert_eq!(parse_skip(b"4294967295"), Some(4294967295));
}

#[test]
fn parse_skip_rejects_malformed_input() {
    assert_eq!(parse_skip(b""), None);
    assert_eq!(parse_skip(b"+"), None);
    assert_eq!(parse_skip(b"1x"), None);
    assert_eq!(parse_skip(b"-1"), None);
    assert_eq!(parse_skip(b" 1"), None);
    assert_eq!(parse_skip(b"1 "), None);
    assert_eq!(parse_skip(b"++1"), None);
}

#[test]
fn parse_skip_rejects_values_past_the_size_type() {
    assert_eq!(parse_skip(b"99999999999999999999"), None);
}
