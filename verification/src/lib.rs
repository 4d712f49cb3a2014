//! Verified building blocks for a small family of text-processing tools:
//! a positional selection engine (parse a selection spec such as `1,3-5`
//! and extract the selected bytes, characters, or fields), together with
//! line/word/byte counting and the pure decision logic of the surrounding
//! utilities.

pub mod cat;
pub mod comm;
pub mod echo;
pub mod extract;
pub mod find;
pub mod grep;
pub mod head;
pub mod num;
pub mod selection;
pub mod uniq;
pub mod wc;

pub use cat::Config;
pub use comm::CommColumn;
pub use comm::CommStep;
pub use comm::LineOrder;
pub use comm::cmp_str;
pub use comm::comm_row;
pub use comm::comm_step;
pub use comm::fold_case;
pub use echo::echo_line;
pub use echo::join_strings;
pub use find::EntryType;
pub use find::FileKind;
pub use find::matches_any_name;
pub use find::matches_types;
pub use find::parse_entry_type;
pub use grep::PathAction;
pub use grep::StatKind;
pub use grep::classify_path;
pub use grep::dir_error_msg;
pub use grep::keep_line;
pub use uniq::lines_differ;
pub use uniq::trim_end_line;
pub use uniq::uniq_render;
pub use extract::extract_bytes;
pub use extract::extract_chars;
pub use extract::extract_fields;
pub use head::file_header;
pub use head::parse_bytes;
pub use head::parse_lines;
pub use head::parse_positive_int;
pub use num::usize_to_string;
pub use wc::FileInfo;
pub use wc::count;
pub use wc::format_field;
pub use wc::report_line;
pub use selection::Extract;
pub use selection::IndexRange;
pub use selection::choose_extract;
pub use selection::parse_delim;
pub use selection::parse_index;
pub use selection::parse_pos;
