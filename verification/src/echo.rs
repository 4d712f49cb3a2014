//! Joining the arguments of an echo-style printer, with an optional final
//! newline.

use vstd::prelude::*;
use vstd::string::StringExecFns;

verus! {

/// The items joined with `sep` between neighbours.
pub open spec fn joined(items: Seq<Seq<char>>, sep: Seq<char>) -> Seq<char>
    decreases items.len(),
{
    if items.len() == 0 {
        Seq::empty()
    } else if items.len() == 1 {
        items[0]
    } else {
        joined(items.drop_last(), sep) + sep + items.last()
    }
}

/// Joins the items with `sep` between neighbours.
pub fn join_strings(items: &Vec<String>, sep: &str) -> (r: String)
    ensures
        r@ == joined(items.deep_view(), sep@),
{
    let ghost dv = items.deep_view();
    let mut out = String::new();
    let mut i: usize = 0;
    while i < items.len()
        invariant
            i <= items@.len(),
            dv == items.deep_view(),
            dv.len() == items@.len(),
            out@ =~= joined(dv.subrange(0, i as int), sep@),
        decreases items@.len() - i,
    {
        if i > 0 {
            out.append(sep);
        }
        out.append(items[i].as_str());
        proof {
            let cur = dv.subrange(0, i + 1);
            assert(cur.drop_last() =~= dv.subrange(0, i as int));
            assert(cur.last() == dv[i as int]);
            assert(dv[i as int] == items@[i as int]@);
            if i == 0 {
                assert(joined(cur, sep@) == items@[0int]@);
            }
        }
        i = i + 1;
    }
    proof {
        assert(dv.subrange(0, dv.len() as int) =~= dv);
    }
    out
}

/// Renders the whole echoed line: the arguments joined by single spaces,
/// with a final newline unless it is omitted.
pub fn echo_line(text: &Vec<String>, omit_newline: bool) -> (r: String)
    ensures
        r@ == joined(text.deep_view(), " "@) + if omit_newline {
            Seq::<char>::empty()
        } else {
            "\n"@
        },
{
    let mut s = join_strings(text, " ");
    if !omit_newline {
        s.append("\n");
    }
    proof {
        assert(s@ =~= joined(text.deep_view(), " "@) + if omit_newline {
            Seq::<char>::empty()
        } else {
            "\n"@
        });
    }
    s
}

} // verus!
