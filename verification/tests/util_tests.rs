use textutils::CommColumn;
use textutils::CommStep;
use textutils::Config;
use textutils::EntryType;
use textutils::FileKind;
use textutils::LineOrder;
use textutils::PathAction;
use textutils::StatKind;
use textutils::classify_path;
use textutils::cmp_str;
use textutils::comm_row;
use textutils::comm_step;
use textutils::dir_error_msg;
use textutils::echo_line;
use textutils::fold_case;
use textutils::keep_line;
use textutils::lines_differ;
use textutils::matches_any_name;
use textutils::matches_types;
use textutils::parse_entry_type;
use textutils::trim_end_line;
use textutils::uniq_render;
use textutils::usize_to_string;

#[test]
fn decimal_rendering() {
    assert_eq!(usize_to_string(0), "0");
    assert_eq!(usize_to_string(7), "7");
    assert_eq!(usize_to_string(12345), "12345");
}

#[test]
fn numbered_lines() {
    let cfg = Config { files: vec![], number_lines: true, number_nonblank_lines: false };
    let (text, nb) = cfg.render_line("hello", 0, 0);
    assert_eq!(text, "     1\thello");
    assert_eq!(nb, 0);
}

#[test]
fn nonblank_numbering_skips_blank_lines() {
    let cfg = Config { files: vec![], number_lines: false, number_nonblank_lines: true };
    let (text, nb) = cfg.render_line("", 4, 2);
    assert_eq!(text, "");
    assert_eq!(nb, 2);
    let (text, nb) = cfg.render_line("x", 5, nb);
    assert_eq!(text, "     3\tx");
    assert_eq!(nb, 3);
}

#[test]
fn plain_lines_pass_through() {
    let cfg = Config { files: vec![], number_lines: false, number_nonblank_lines: false };
    let (text, nb) = cfg.render_line("as is", 9, 1);
    assert_eq!(text, "as is");
    assert_eq!(nb, 1);
}

#[test]
fn case_folding() {
    assert_eq!(fold_case("AbC".to_string(), true), "abc");
    assert_eq!(fold_case("AbC".to_string(), false), "AbC");
}

#[test]
fn line_ordering() {
    assert!(matches!(cmp_str("apple", "banana"), LineOrder::Lt));
    assert!(matches!(cmp_str("pear", "pear"), LineOrder::Eq));
    assert!(matches!(cmp_str("b", "ab"), LineOrder::Gt));
    assert!(matches!(cmp_str("ab", "abc"), LineOrder::Lt));
}

#[test]
fn merge_steps() {
    assert_eq!(comm_step(true, true, LineOrder::Eq), CommStep::TakeBoth);
    assert_eq!(comm_step(true, true, LineOrder::Lt), CommStep::TakeFirst);
    assert_eq!(comm_step(true, true, LineOrder::Gt), CommStep::TakeSecond);
    assert_eq!(comm_step(true, false, LineOrder::Eq), CommStep::TakeFirst);
    assert_eq!(comm_step(false, true, LineOrder::Eq), CommStep::TakeSecond);
    assert_eq!(comm_step(false, false, LineOrder::Eq), CommStep::Done);
}

#[test]
fn merge_rows_indent_by_unsuppressed_columns() {
    assert_eq!(
        comm_row(CommColumn::Both, "x", false, false, false, "\t"),
        Some("\t\tx".to_string())
    );
    assert_eq!(
        comm_row(CommColumn::Second, "y", true, false, false, "\t"),
        Some("y".to_string())
    );
    assert_eq!(
        comm_row(CommColumn::Second, "y", false, false, false, "|"),
        Some("|y".to_string())
    );
    assert_eq!(comm_row(CommColumn::First, "z", true, false, false, "\t"), None);
    assert_eq!(
        comm_row(CommColumn::First, "z", false, true, true, "\t"),
        Some("z".to_string())
    );
    assert_eq!(comm_row(CommColumn::Both, "w", false, false, true, "\t"), None);
}

#[test]
fn trailing_whitespace_is_ignored_when_grouping() {
    assert_eq!(trim_end_line("a \t\n"), "a");
    assert_eq!(trim_end_line("  a"), "  a");
    assert_eq!(trim_end_line(""), "");
    assert!(!lines_differ("same\n", "same"));
    assert!(lines_differ("one", "two"));
}

#[test]
fn group_rendering() {
    assert_eq!(uniq_render(0, "ignored", true), None);
    assert_eq!(uniq_render(3, "x\n", true), Some("   3 x\n".to_string()));
    assert_eq!(uniq_render(3, "x\n", false), Some("x\n".to_string()));
}

#[test]
fn entry_type_flag() {
    assert_eq!(parse_entry_type("d"), Ok(EntryType::Dir));
    assert_eq!(parse_entry_type("f"), Ok(EntryType::File));
    assert_eq!(parse_entry_type("l"), Ok(EntryType::Link));
    assert_eq!(parse_entry_type("x").unwrap_err(), "invalid type: x");
    assert_eq!(parse_entry_type("df").unwrap_err(), "invalid type: df");
}

#[test]
fn type_filter() {
    assert!(matches_types(&vec![], FileKind::Other));
    assert!(matches_types(&vec![EntryType::Dir, EntryType::File], FileKind::File));
    assert!(!matches_types(&vec![EntryType::Link], FileKind::File));
}

#[test]
fn name_filter() {
    let names = vec![regex::Regex::new("ab").unwrap()];
    assert!(matches_any_name(&vec![], "anything"));
    assert!(matches_any_name(&names, "xaby"));
    assert!(!matches_any_name(&names, "xy"));
}

#[test]
fn kept_lines_follow_the_invert_flag() {
    assert!(keep_line(true, false));
    assert!(!keep_line(false, false));
    assert!(!keep_line(true, true));
    assert!(keep_line(false, true));
}

#[test]
fn path_decisions() {
    assert_eq!(classify_path(true, None, false), PathAction::Keep);
    assert_eq!(classify_path(false, None, true), PathAction::StatError);
    assert_eq!(classify_path(false, Some(StatKind::Dir), true), PathAction::Walk);
    assert_eq!(classify_path(false, Some(StatKind::Dir), false), PathAction::DirError);
    assert_eq!(classify_path(false, Some(StatKind::File), false), PathAction::Keep);
    assert_eq!(classify_path(false, Some(StatKind::Other), true), PathAction::Skip);
    assert_eq!(dir_error_msg("src"), "src is a directory");
}

#[test]
fn echoed_lines_join_with_spaces() {
    assert_eq!(
        echo_line(&vec!["Hello".to_string(), "there".to_string()], false),
        "Hello there\n"
    );
    assert_eq!(
        echo_line(&vec!["Hello there".to_string()], true),
        "Hello there"
    );
    assert_eq!(echo_line(&vec![], false), "\n");
}
