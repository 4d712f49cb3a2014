use textutils::FileInfo;
use textutils::count;
use textutils::file_header;
use textutils::format_field;
use textutils::parse_bytes;
use textutils::parse_lines;
use textutils::parse_positive_int;
use textutils::report_line;

#[test]
fn test_parse_positive_int() {
    let res = parse_positive_int("3");
    assert!(res.is_ok());
    assert_eq!(res.unwrap(), 3);

    let res = parse_positive_int("foo");
    assert!(res.is_err());
    assert_eq!(res.unwrap_err().to_string(), "foo");

    let res = parse_positive_int("0");
    assert!(res.is_err());
    assert_eq!(res.unwrap_err().to_string(), "0");
}

#[test]
fn test_format_field() {
    assert_eq!(format_field(1, false), "");
    assert_eq!(format_field(3, true), "       3");
    assert_eq!(format_field(10, true), "      10");
}

#[test]
fn test_count() {
    assert_eq!(
        count("I don't want the world. I just want your half.\r\n"),
        FileInfo {
            lines: 1,
            words: 10,
            bytes: 48,
            chars: 48,
        }
    );
}

#[test]
fn count_edges() {
    assert_eq!(
        count(""),
        FileInfo { lines: 0, words: 0, bytes: 0, chars: 0 }
    );
    assert_eq!(
        count("a\nb"),
        FileInfo { lines: 2, words: 2, bytes: 3, chars: 3 }
    );
    assert_eq!(
        count("one two\n"),
        FileInfo { lines: 1, words: 2, bytes: 8, chars: 8 }
    );
    assert_eq!(
        count("\u{e9}\n"),
        FileInfo { lines: 1, words: 1, bytes: 3, chars: 2 }
    );
}

#[test]
fn positive_int_accepts_leading_plus() {
    assert_eq!(parse_positive_int("+3"), Ok(3));
    assert!(parse_positive_int("+").is_err());
    assert!(parse_positive_int("+0").is_err());
}

#[test]
fn count_flag_errors_carry_prefix() {
    assert_eq!(parse_lines("5"), Ok(5));
    assert_eq!(parse_lines("foo").unwrap_err(), "illegal line count -- foo");
    assert_eq!(parse_bytes("8"), Ok(8));
    assert_eq!(parse_bytes("0").unwrap_err(), "illegal byte count -- 0");
}

#[test]
fn report_line_shows_selected_columns_and_name() {
    let info = FileInfo { lines: 1, words: 10, bytes: 48, chars: 48 };
    assert_eq!(
        report_line(&info, true, true, true, false, "in.txt"),
        "       1      10      48 in.txt"
    );
    assert_eq!(report_line(&info, true, false, false, false, "-"), "       1");
}

#[test]
fn header_separates_files_after_the_first() {
    assert_eq!(file_header("a.txt", true), "==> a.txt <==");
    assert_eq!(file_header("b.txt", false), "\n==> b.txt <==");
}
