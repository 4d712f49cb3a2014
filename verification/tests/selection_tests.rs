use textutils::IndexRange;
use textutils::parse_delim;
use textutils::parse_index;
use textutils::parse_pos;

#[test]
fn single_index_parses_to_one_range() {
    assert_eq!(parse_pos("1").unwrap(), vec![IndexRange { start: 0, end: 1 }]);
    assert_eq!(parse_pos("7").unwrap(), vec![IndexRange { start: 6, end: 7 }]);
    assert_eq!(
        parse_pos("42").unwrap(),
        vec![IndexRange { start: 41, end: 42 }]
    );
}

#[test]
fn pair_parses_to_half_open_range() {
    assert_eq!(parse_pos("2-5").unwrap(), vec![IndexRange { start: 1, end: 5 }]);
    assert_eq!(parse_pos("1-3").unwrap(), vec![IndexRange { start: 0, end: 3 }]);
}

#[test]
fn token_lists_keep_order_and_duplicates() {
    assert_eq!(
        parse_pos("1,3-5,1").unwrap(),
        vec![
            IndexRange { start: 0, end: 1 },
            IndexRange { start: 2, end: 5 },
            IndexRange { start: 0, end: 1 },
        ]
    );
}

#[test]
fn inverted_pair_reports_one_based_values() {
    assert_eq!(
        parse_pos("3-2").unwrap_err(),
        "first number in range (3) must be lower than second number (2)"
    );
    assert_eq!(
        parse_pos("2-2").unwrap_err(),
        "first number in range (2) must be lower than second number (2)"
    );
}

#[test]
fn malformed_tokens_fail() {
    assert_eq!(parse_pos("0").unwrap_err(), "illegal list value: \"0\"");
    assert_eq!(parse_pos("+3").unwrap_err(), "illegal list value: \"+3\"");
    assert_eq!(parse_pos("x").unwrap_err(), "illegal list value: \"x\"");
    assert_eq!(parse_pos("").unwrap_err(), "illegal list value: \"\"");
    assert_eq!(parse_pos("1,a").unwrap_err(), "illegal list value: \"a\"");
    assert_eq!(parse_pos("0-5").unwrap_err(), "illegal list value: \"0\"");
    assert_eq!(parse_pos("+1-5").unwrap_err(), "illegal list value: \"+1-5\"");
    assert_eq!(parse_pos("1-2-3").unwrap_err(), "illegal list value: \"1-2-3\"");
}

#[test]
fn first_failing_token_wins() {
    assert_eq!(parse_pos("1,0,x").unwrap_err(), "illegal list value: \"0\"");
}

#[test]
fn index_tokens_become_zero_based() {
    assert_eq!(parse_index("1"), Ok(0));
    assert_eq!(parse_index("20"), Ok(19));
    assert_eq!(parse_index("0").unwrap_err(), "illegal list value: \"0\"");
    assert_eq!(parse_index("+1").unwrap_err(), "illegal list value: \"+1\"");
    assert_eq!(
        parse_index("99999999999999999999999999").unwrap_err(),
        "illegal list value: \"99999999999999999999999999\""
    );
}

#[test]
fn delimiter_must_be_one_byte() {
    assert_eq!(parse_delim(","), Ok(b','));
    assert_eq!(parse_delim("\t"), Ok(b'\t'));
    assert_eq!(
        parse_delim("ab").unwrap_err(),
        "--delim \"ab\" must be single byte"
    );
    assert_eq!(
        parse_delim("").unwrap_err(),
        "--delim \"\" must be single byte"
    );
}
