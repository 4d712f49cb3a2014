//! The pure decisions of a comm-style merge of two sorted line streams:
//! optional case folding, lexicographic comparison, which stream advances,
//! and how one output row is laid out and joined.

use vstd::prelude::*;
use vstd::string::StrSliceExecFns;
use vstd::string::StringExecFns;
use vstd::string::StringSliceAdditionalSpecFns;

verus! {

/// What `str::to_lowercase` returns for the given characters.
pub uninterp spec fn lower_of(s: Seq<char>) -> Seq<char>;

/// Relies on `str::to_lowercase`: the result depends on the characters
/// alone.
#[verifier::external_body]
fn lowercase(s: &str) -> (r: String)
    ensures
        r@ == lower_of(s@),
{
    s.to_lowercase()
}

/// Folds a line to lower case when the comparison is case-insensitive and
/// keeps it as read otherwise.
pub fn fold_case(line: String, insensitive: bool) -> (r: String)
    ensures
        insensitive ==> r@ == lower_of(line@),
        !insensitive ==> r@ == line@,
{
    if insensitive {
        lowercase(line.as_str())
    } else {
        line
    }
}

/// Strict lexicographic order on byte strings.
pub open spec fn lex_lt(a: Seq<u8>, b: Seq<u8>) -> bool
    decreases a.len(),
{
    if b.len() == 0 {
        false
    } else if a.len() == 0 {
        true
    } else if a[0] < b[0] {
        true
    } else if a[0] > b[0] {
        false
    } else {
        lex_lt(a.drop_first(), b.drop_first())
    }
}

/// Equal prefixes do not decide the order: it is settled by the rests.
pub proof fn lemma_lex_lt_skip(a: Seq<u8>, b: Seq<u8>, i: int)
    requires
        0 <= i <= a.len(),
        i <= b.len(),
        a.subrange(0, i) == b.subrange(0, i),
    ensures
        lex_lt(a, b) == lex_lt(a.skip(i), b.skip(i)),
    decreases i,
{
    if i > 0 {
        assert(a.subrange(0, i)[0] == a[0]);
        assert(b.subrange(0, i)[0] == b[0]);
        assert(a[0] == b[0]);
        assert(a.drop_first().subrange(0, i - 1) =~= a.subrange(0, i).subrange(1, i));
        assert(b.drop_first().subrange(0, i - 1) =~= b.subrange(0, i).subrange(1, i));
        assert(a.drop_first().subrange(0, i - 1) == b.drop_first().subrange(0, i - 1));
        lemma_lex_lt_skip(a.drop_first(), b.drop_first(), i - 1);
        assert(a.drop_first().skip(i - 1) =~= a.skip(i));
        assert(b.drop_first().skip(i - 1) =~= b.skip(i));
    } else {
        assert(a.skip(0) =~= a);
        assert(b.skip(0) =~= b);
    }
}

/// How two lines compare.
#[derive(Debug, Clone, Copy, PartialEq, Eq, Structural)]
pub enum LineOrder {
    Lt,
    Eq,
    Gt,
}

/// Compares two lines byte-wise, the order their derived string ordering
/// uses.
pub fn cmp_str(a: &str, b: &str) -> (r: LineOrder)
    ensures
        r is Lt <==> lex_lt(a.spec_bytes(), b.spec_bytes()),
        r is Gt <==> lex_lt(b.spec_bytes(), a.spec_bytes()),
        r is Eq <==> a.spec_bytes() == b.spec_bytes(),
{
    let ab = a.as_bytes();
    let bb = b.as_bytes();
    let n = if ab.len() <= bb.len() {
        ab.len()
    } else {
        bb.len()
    };
    let mut i: usize = 0;
    while i < n
        invariant
            0 <= i <= n,
            n <= ab@.len(),
            n <= bb@.len(),
            ab@ == a.spec_bytes(),
            bb@ == b.spec_bytes(),
            forall|k: int| 0 <= k < i ==> ab@[k] == bb@[k],
        decreases n - i,
    {
        let x = ab[i];
        let y = bb[i];
        proof {
            assert(ab@.subrange(0, i as int) =~= bb@.subrange(0, i as int));
            lemma_lex_lt_skip(ab@, bb@, i as int);
            lemma_lex_lt_skip(bb@, ab@, i as int);
        }
        if x < y {
            proof {
                assert(lex_lt(ab@.skip(i as int), bb@.skip(i as int)));
                assert(!lex_lt(bb@.skip(i as int), ab@.skip(i as int)));
            }
            return LineOrder::Lt;
        }
        if x > y {
            proof {
                assert(lex_lt(bb@.skip(i as int), ab@.skip(i as int)));
                assert(!lex_lt(ab@.skip(i as int), bb@.skip(i as int)));
            }
            return LineOrder::Gt;
        }
        i = i + 1;
    }
    proof {
        assert(ab@.subrange(0, n as int) =~= bb@.subrange(0, n as int));
        lemma_lex_lt_skip(ab@, bb@, n as int);
        lemma_lex_lt_skip(bb@, ab@, n as int);
    }
    if ab.len() == bb.len() {
        proof {
            assert(ab@ =~= bb@);
            assert(ab@.skip(n as int).len() == 0);
        }
        LineOrder::Eq
    } else if ab.len() < bb.len() {
        proof {
            assert(ab@.skip(n as int).len() == 0);
            assert(bb@.skip(n as int).len() > 0);
        }
        LineOrder::Lt
    } else {
        proof {
            assert(bb@.skip(n as int).len() == 0);
            assert(ab@.skip(n as int).len() > 0);
        }
        LineOrder::Gt
    }
}

/// What the merge does next.
#[derive(Debug, Clone, Copy, PartialEq, Eq, Structural)]
pub enum CommStep {
    /// The lines are equal: emit the shared column and advance both.
    TakeBoth,
    /// Emit the first stream's column and advance it.
    TakeFirst,
    /// Emit the second stream's column and advance it.
    TakeSecond,
    /// Both streams are exhausted.
    Done,
}

/// Decides one step of the merge from which streams still have a line and
/// how the current lines compare.
pub fn comm_step(has1: bool, has2: bool, ord: LineOrder) -> (r: CommStep)
    ensures
        has1 && has2 && ord is Eq ==> r == CommStep::TakeBoth,
        has1 && has2 && ord is Lt ==> r == CommStep::TakeFirst,
        has1 && has2 && ord is Gt ==> r == CommStep::TakeSecond,
        has1 && !has2 ==> r == CommStep::TakeFirst,
        !has1 && has2 ==> r == CommStep::TakeSecond,
        !has1 && !has2 ==> r == CommStep::Done,
{
    if has1 && has2 {
        match ord {
            LineOrder::Eq => CommStep::TakeBoth,
            LineOrder::Lt => CommStep::TakeFirst,
            LineOrder::Gt => CommStep::TakeSecond,
        }
    } else if has1 {
        CommStep::TakeFirst
    } else if has2 {
        CommStep::TakeSecond
    } else {
        CommStep::Done
    }
}

/// Which of the three output columns a line falls in.
#[derive(Debug, Clone, Copy, PartialEq, Eq, Structural)]
pub enum CommColumn {
    First,
    Second,
    Both,
}

/// Renders one output row: the line in its column, indented by one
/// delimiter per unsuppressed column to its left, or nothing when its own
/// column is suppressed.
pub fn comm_row(
    col: CommColumn,
    val: &str,
    suppress1: bool,
    suppress2: bool,
    suppress3: bool,
    delimiter: &str,
) -> (r: Option<String>)
    ensures
        col is First && suppress1 ==> r is None,
        col is First && !suppress1 ==> (r matches Some(s) && s@ == val@),
        col is Second && suppress2 ==> r is None,
        col is Second && !suppress2 ==> (r matches Some(s) && s@ == (if suppress1 {
            Seq::<char>::empty()
        } else {
            delimiter@
        }) + val@),
        col is Both && suppress3 ==> r is None,
        col is Both && !suppress3 ==> (r matches Some(s) && s@ == (if suppress1 {
            Seq::<char>::empty()
        } else {
            delimiter@
        }) + (if suppress2 {
            Seq::<char>::empty()
        } else {
            delimiter@
        }) + val@),
{
    match col {
        CommColumn::First => {
            if suppress1 {
                None
            } else {
                Some(val.to_owned())
            }
        },
        CommColumn::Second => {
            if suppress2 {
                None
            } else {
                let lead: String = if suppress1 {
                    String::new()
                } else {
                    delimiter.to_owned()
                };
                let s = lead.concat(val);
                proof {
                    assert(s@ =~= (if suppress1 {
                        Seq::<char>::empty()
                    } else {
                        delimiter@
                    }) + val@);
                }
                Some(s)
            }
        },
        CommColumn::Both => {
            if suppress3 {
                None
            } else {
                let mut lead: String = if suppress1 {
                    String::new()
                } else {
                    delimiter.to_owned()
                };
                if !suppress2 {
                    lead.append(delimiter);
                }
                let s = lead.concat(val);
                proof {
                    assert(s@ =~= (if suppress1 {
                        Seq::<char>::empty()
                    } else {
                        delimiter@
                    }) + (if suppress2 {
                        Seq::<char>::empty()
                    } else {
                        delimiter@
                    }) + val@);
                }
                Some(s)
            }
        },
    }
}

} // verus!
