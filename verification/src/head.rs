//! Parsing of the head-style count flags: positive integers with an
//! optional leading plus sign, and the per-file header line.

use vstd::prelude::*;
use vstd::string::StrSliceExecFns;
use vstd::string::StringExecFns;

use crate::num::all_digits;
use crate::num::digits_val;
use crate::num::parse_usize_digits;

verus! {

/// The digits of a flag value after an optional leading plus sign.
pub open spec fn positive_body(v: Seq<char>) -> Seq<char> {
    if v.len() > 0 && v[0] == '+' {
        v.drop_first()
    } else {
        v
    }
}

/// The value is a positive integer: after an optional leading plus sign, a
/// non-empty digit run whose value is at least one and fits in `usize`.
pub open spec fn positive_ok(v: Seq<char>) -> bool {
    let b = positive_body(v);
    b.len() > 0 && all_digits(b) && 1 <= digits_val(b) <= usize::MAX as nat
}

/// Parses a positive integer, handing the value back unchanged as the
/// error for anything else, zero included.
pub fn parse_positive_int(val: &str) -> (r: Result<usize, String>)
    ensures
        match r {
            Ok(n) => positive_ok(val@) && n as nat == digits_val(positive_body(val@)),
            Err(e) => !positive_ok(val@) && e@ == val@,
        },
{
    let n = val.unicode_len();
    let from: usize = if n > 0 && val.get_char(0) == '+' {
        1
    } else {
        0
    };
    proof {
        assert(val@.subrange(from as int, n as int) =~= positive_body(val@));
    }
    match parse_usize_digits(val, from, n) {
        Some(v) if v >= 1 => Ok(v),
        _ => Err(val.to_owned()),
    }
}

/// Parses the line-count flag, prefixing its error.
pub fn parse_lines(val: &str) -> (r: Result<usize, String>)
    ensures
        match r {
            Ok(n) => positive_ok(val@) && n as nat == digits_val(positive_body(val@)),
            Err(e) => !positive_ok(val@) && e@ == "illegal line count -- "@ + val@,
        },
{
    match parse_positive_int(val) {
        Ok(n) => Ok(n),
        Err(e) => Err(String::from_str("illegal line count -- ").concat(e.as_str())),
    }
}

/// Parses the byte-count flag, prefixing its error.
pub fn parse_bytes(val: &str) -> (r: Result<usize, String>)
    ensures
        match r {
            Ok(n) => positive_ok(val@) && n as nat == digits_val(positive_body(val@)),
            Err(e) => !positive_ok(val@) && e@ == "illegal byte count -- "@ + val@,
        },
{
    match parse_positive_int(val) {
        Ok(n) => Ok(n),
        Err(e) => Err(String::from_str("illegal byte count -- ").concat(e.as_str())),
    }
}

/// Renders the header printed above each file when several are shown,
/// with a blank separator line before every file but the first.
pub fn file_header(filename: &str, first: bool) -> (r: String)
    ensures
        r@ == (if first {
            Seq::<char>::empty()
        } else {
            "\n"@
        }) + "==> "@ + filename@ + " <=="@,
{
    let lead: &'static str = if first {
        ""
    } else {
        "\n"
    };
    let r = String::from_str(lead).concat("==> ").concat(filename).concat(" <==");
    proof {
        reveal_strlit("");
        assert(""@ =~= Seq::<char>::empty());
        assert(r@ =~= (if first {
            Seq::<char>::empty()
        } else {
            "\n"@
        }) + "==> "@ + filename@ + " <=="@);
    }
    r
}

} // verus!
