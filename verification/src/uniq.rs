//! The pure decisions of a uniq-style grouping pass: whether a line starts
//! a new group (lines compare with trailing whitespace removed) and how a
//! finished group is rendered.

use vstd::prelude::*;
use vstd::string::StrSliceExecFns;
use vstd::string::StringExecFns;

use crate::num::aligned_decimal_u64;
use crate::num::right_aligned;
use crate::wc::is_space;
use crate::wc::is_space_char;

verus! {

/// `s` without its trailing whitespace.
pub open spec fn trim_end_spec(s: Seq<char>) -> Seq<char>
    decreases s.len(),
{
    if s.len() > 0 && is_space(s.last()) {
        trim_end_spec(s.drop_last())
    } else {
        s
    }
}

/// Removes trailing whitespace, as `str::trim_end` does.
pub fn trim_end_line(s: &str) -> (r: &str)
    ensures
        r@ == trim_end_spec(s@),
{
    let n = s.unicode_len();
    let mut k: usize = n;
    proof {
        assert(s@.subrange(0, n as int) =~= s@);
    }
    while k > 0 && is_space_char(s.get_char(k - 1))
        invariant
            k <= n,
            n == s@.len(),
            trim_end_spec(s@) == trim_end_spec(s@.subrange(0, k as int)),
        decreases k,
    {
        proof {
            let cur = s@.subrange(0, k as int);
            assert(cur.drop_last() =~= s@.subrange(0, k - 1));
            assert(is_space(cur.last()));
        }
        k = k - 1;
    }
    proof {
        let cur = s@.subrange(0, k as int);
        if k > 0 {
            assert(!is_space(cur.last()));
        }
        assert(trim_end_spec(cur) == cur);
    }
    s.substring_char(0, k)
}

/// Whether two strings have the same characters.
fn eq_str(a: &str, b: &str) -> (r: bool)
    ensures
        r == (a@ == b@),
{
    a.to_owned() == b.to_owned()
}

/// Whether `line` starts a new group: it differs from the previous line
/// once trailing whitespace is ignored on both.
pub fn lines_differ(line: &str, previous: &str) -> (r: bool)
    ensures
        r == (trim_end_spec(line@) != trim_end_spec(previous@)),
{
    !eq_str(trim_end_line(line), trim_end_line(previous))
}

/// Renders one finished group: nothing for an empty group, the text alone
/// without counts, or the group's size right-aligned to four characters,
/// a space, and the text.
pub fn uniq_render(count: u64, text: &str, show_count: bool) -> (r: Option<String>)
    ensures
        count == 0 ==> r is None,
        count > 0 && show_count ==> (r matches Some(s) && s@ == right_aligned(count as nat, 4)
            + " "@ + text@),
        count > 0 && !show_count ==> (r matches Some(s) && s@ == text@),
{
    if count == 0 {
        None
    } else if show_count {
        let s = aligned_decimal_u64(count, 4).concat(" ").concat(text);
        proof {
            assert(s@ =~= right_aligned(count as nat, 4) + " "@ + text@);
        }
        Some(s)
    } else {
        Some(text.to_owned())
    }
}

} // verus!
