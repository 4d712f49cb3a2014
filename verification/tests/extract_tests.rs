use textutils::Extract;
use textutils::IndexRange;
use textutils::choose_extract;
use textutils::extract_bytes;
use textutils::extract_chars;
use textutils::extract_fields;
use textutils::parse_pos;

#[test]
fn extraction_preserves_range_order() {
    let pos = vec![
        IndexRange { start: 4, end: 6 },
        IndexRange { start: 0, end: 1 },
    ];
    assert_eq!(extract_chars("abcdef", &pos), "efa");
    assert_eq!(extract_bytes("abcdef", &pos), "efa");
    let record = csv::StringRecord::from(vec!["a", "b", "c", "d", "e", "f"]);
    assert_eq!(extract_fields(&record, &pos), vec!["e", "f", "a"]);
}

#[test]
fn overlap_duplicates_positions() {
    let pos = parse_pos("1,1").unwrap();
    assert_eq!(extract_chars("AB", &pos), "AA");
}

#[test]
fn out_of_range_is_silently_empty() {
    let pos = parse_pos("10").unwrap();
    assert_eq!(extract_chars("abc", &pos), "");
    assert_eq!(extract_bytes("abc", &pos), "");
    let record = csv::StringRecord::from(vec!["a", "b", "c"]);
    assert_eq!(extract_fields(&record, &pos), Vec::<&str>::new());
}

#[test]
fn range_clipped_at_line_end() {
    let pos = parse_pos("2-9").unwrap();
    assert_eq!(extract_chars("abcd", &pos), "bcd");
}

#[test]
fn bytes_split_a_code_point_and_chars_keep_it() {
    let pos = vec![IndexRange { start: 0, end: 1 }];
    assert_eq!(extract_bytes("\u{e9}x", &pos), "\u{fffd}");
    assert_eq!(extract_chars("\u{e9}x", &pos), "\u{e9}");
    let both = vec![IndexRange { start: 0, end: 2 }];
    assert_eq!(extract_bytes("\u{e9}x", &both), "\u{e9}");
}

#[test]
fn chars_end_to_end() {
    let pos = parse_pos("1-3,7").unwrap();
    assert_eq!(extract_chars("abcdefgh", &pos), "abcg");
    let pos = parse_pos("1-3,8").unwrap();
    assert_eq!(extract_chars("abcdefgh", &pos), "abch");
}

#[test]
fn fields_end_to_end() {
    let pos = parse_pos("2").unwrap();
    let record = csv::StringRecord::from(vec!["x", "y", "z"]);
    assert_eq!(extract_fields(&record, &pos), vec!["y"]);
}

#[test]
fn mode_choice_prefers_fields_then_bytes_then_chars() {
    let p = vec![IndexRange { start: 0, end: 1 }];
    assert!(matches!(
        choose_extract(Some(p.clone()), None, None),
        Some(Extract::Fields(_))
    ));
    assert!(matches!(
        choose_extract(None, Some(p.clone()), None),
        Some(Extract::Bytes(_))
    ));
    assert!(matches!(
        choose_extract(None, None, Some(p.clone())),
        Some(Extract::Chars(_))
    ));
    assert!(matches!(
        choose_extract(Some(p.clone()), Some(p.clone()), Some(p)),
        Some(Extract::Fields(_))
    ));
    assert!(choose_extract(None, None, None).is_none());
}
