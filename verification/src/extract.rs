//! The extractor: applies an ordered list of index ranges to one line or
//! record, in byte, character, or field addressing.
//!
//! Shared semantics: ranges are processed strictly in list order, indices
//! in order within each range; an out-of-range index selects nothing and
//! is never an error; overlapping ranges duplicate their positions, once
//! per covering range.

use vstd::prelude::*;
use vstd::string::StrSliceExecFns;
use vstd::string::StringExecFns;
use vstd::string::StringSliceAdditionalSpecFns;
use vstd::utf8::decode_utf8;
use vstd::utf8::valid_utf8;

use crate::selection::IndexRange;

verus! {

/// The elements of `s` selected by `r`: those at positions in
/// `[r.start, r.end)` that exist, in position order.
pub open spec fn select_range<T>(s: Seq<T>, r: IndexRange) -> Seq<T> {
    let hi = if r.end <= s.len() {
        r.end as int
    } else {
        s.len() as int
    };
    if r.start < hi {
        s.subrange(r.start as int, hi)
    } else {
        Seq::empty()
    }
}

/// The elements of `s` selected by the ranges of `pos`, concatenated in
/// range order.
pub open spec fn select_all<T>(s: Seq<T>, pos: Seq<IndexRange>) -> Seq<T>
    decreases pos.len(),
{
    if pos.len() == 0 {
        Seq::empty()
    } else {
        select_range(s, pos[0]) + select_all(s, pos.drop_first())
    }
}

/// Extraction is order-preserving: the selection of a range list split in
/// two is the selection of the first part followed by the selection of the
/// second, whatever positions the parts cover.
pub proof fn lemma_select_all_concat<T>(s: Seq<T>, p1: Seq<IndexRange>, p2: Seq<IndexRange>)
    ensures
        select_all(s, p1 + p2) =~= select_all(s, p1) + select_all(s, p2),
    decreases p1.len(),
{
    if p1.len() == 0 {
        assert(p1 + p2 =~= p2);
    } else {
        lemma_select_all_concat(s, p1.drop_first(), p2);
        assert((p1 + p2).drop_first() =~= p1.drop_first() + p2);
        assert((p1 + p2)[0] == p1[0]);
    }
}

/// Selecting with one more range at the back appends that range's
/// selection.
pub proof fn lemma_select_all_snoc<T>(s: Seq<T>, pos: Seq<IndexRange>, k: int)
    requires
        0 <= k < pos.len(),
    ensures
        select_all(s, pos.subrange(0, k + 1)) =~= select_all(s, pos.subrange(0, k)) + select_range(
            s,
            pos[k],
        ),
{
    lemma_select_all_concat(s, pos.subrange(0, k), seq![pos[k]]);
    assert(pos.subrange(0, k + 1) =~= pos.subrange(0, k) + seq![pos[k]]);
    assert(seq![pos[k]].drop_first() =~= Seq::<IndexRange>::empty());
    assert(select_all(s, Seq::<IndexRange>::empty()) =~= Seq::<T>::empty());
    assert(select_all(s, seq![pos[k]]) =~= select_range(s, pos[k]));
}

/// What `String::from_utf8_lossy` returns for the given bytes.
pub uninterp spec fn lossy_decode(bytes: Seq<u8>) -> Seq<char>;

/// Relies on `String::from_utf8_lossy`: the result depends on the bytes
/// alone, and valid UTF-8 is decoded without any replacement.
#[verifier::external_body]
fn lossy_string(bytes: &[u8]) -> (r: String)
    ensures
        r@ == lossy_decode(bytes@),
        valid_utf8(bytes@) ==> r@ == decode_utf8(bytes@),
{
    String::from_utf8_lossy(bytes).into_owned()
}

/// Selects the characters of `line` named by `pos`, in range order,
/// keeping each code point whole.
pub fn extract_chars(line: &str, pos: &[IndexRange]) -> (r: String)
    ensures
        r@ == select_all(line@, pos@),
{
    let n = line.unicode_len();
    let mut out = String::new();
    let mut ri: usize = 0;
    while ri < pos.len()
        invariant
            ri <= pos@.len(),
            n == line@.len(),
            out@ =~= select_all(line@, pos@.subrange(0, ri as int)),
        decreases pos@.len() - ri,
    {
        let rg = pos[ri];
        let hi = if rg.end <= n {
            rg.end
        } else {
            n
        };
        if rg.start < hi {
            let mut i = rg.start;
            while i < hi
                invariant
                    rg.start <= i <= hi <= n,
                    n == line@.len(),
                    out@ =~= select_all(line@, pos@.subrange(0, ri as int)) + line@.subrange(
                        rg.start as int,
                        i as int,
                    ),
                decreases hi - i,
            {
                out.append(line.substring_char(i, i + 1));
                proof {
                    assert(line@.subrange(rg.start as int, i + 1) =~= line@.subrange(
                        rg.start as int,
                        i as int,
                    ) + line@.subrange(i as int, i + 1));
                }
                i = i + 1;
            }
        }
        proof {
            lemma_select_all_snoc(line@, pos@, ri as int);
        }
        ri = ri + 1;
    }
    proof {
        assert(pos@.subrange(0, pos@.len() as int) =~= pos@);
    }
    out
}

/// Selects the bytes of `line` named by `pos`, in range order, and decodes
/// the result as UTF-8 with lossy replacement; a range boundary may split
/// a multi-byte code point.
pub fn extract_bytes(line: &str, pos: &[IndexRange]) -> (r: String)
    ensures
        r@ == lossy_decode(select_all(line.spec_bytes(), pos@)),
{
    let bytes = line.as_bytes();
    let n = bytes.len();
    let mut out: Vec<u8> = Vec::new();
    let mut ri: usize = 0;
    while ri < pos.len()
        invariant
            ri <= pos@.len(),
            bytes@ == line.spec_bytes(),
            n == bytes@.len(),
            out@ =~= select_all(bytes@, pos@.subrange(0, ri as int)),
        decreases pos@.len() - ri,
    {
        let rg = pos[ri];
        let hi = if rg.end <= n {
            rg.end
        } else {
            n
        };
        if rg.start < hi {
            let mut i = rg.start;
            while i < hi
                invariant
                    rg.start <= i <= hi <= n,
                    n == bytes@.len(),
                    out@ =~= select_all(bytes@, pos@.subrange(0, ri as int)) + bytes@.subrange(
                        rg.start as int,
                        i as int,
                    ),
                decreases hi - i,
            {
                out.push(bytes[i]);
                proof {
                    assert(bytes@.subrange(rg.start as int, i + 1) =~= bytes@.subrange(
                        rg.start as int,
                        i as int,
                    ) + seq![bytes@[i as int]]);
                }
                i = i + 1;
            }
        }
        proof {
            lemma_select_all_snoc(bytes@, pos@, ri as int);
        }
        ri = ri + 1;
    }
    proof {
        assert(pos@.subrange(0, pos@.len() as int) =~= pos@);
    }
    lossy_string(out.as_slice())
}

/// The field strings a `csv::StringRecord` holds, in record order.
pub uninterp spec fn record_fields(record: csv::StringRecord) -> Seq<Seq<char>>;

#[verifier::external_type_specification]
#[verifier::external_body]
pub struct ExStringRecord(csv::StringRecord);

/// Relies on `csv::StringRecord::get`: the field at `i`, present exactly
/// for indices below the record's field count.
pub assume_specification<'r>[ csv::StringRecord::get ](
    record: &'r csv::StringRecord,
    i: usize,
) -> (r: Option<&'r str>)
    ensures
        r is Some <==> i < record_fields(*record).len(),
        r matches Some(f) ==> f@ == record_fields(*record)[i as int],
;

/// Relies on `csv::StringRecord::len`: the number of fields the record
/// holds.
pub assume_specification[ csv::StringRecord::len ](record: &csv::StringRecord) -> (r: usize)
    ensures
        r as nat == record_fields(*record).len(),
;

/// Selects the fields of `record` named by `pos`, in range order, as
/// borrowed field strings for the caller to re-join.
pub fn extract_fields<'r>(record: &'r csv::StringRecord, pos: &[IndexRange]) -> (r: Vec<&'r str>)
    ensures
        r.deep_view() == select_all(record_fields(*record), pos@),
{
    let ghost fields = record_fields(*record);
    let n = record.len();
    let mut out: Vec<&'r str> = Vec::new();
    let mut ri: usize = 0;
    while ri < pos.len()
        invariant
            ri <= pos@.len(),
            fields == record_fields(*record),
            n as nat == fields.len(),
            out.deep_view() =~= select_all(fields, pos@.subrange(0, ri as int)),
        decreases pos@.len() - ri,
    {
        let rg = pos[ri];
        let hi = if rg.end <= n {
            rg.end
        } else {
            n
        };
        if rg.start < hi {
            let mut i = rg.start;
            while i < hi
                invariant
                    rg.start <= i <= hi <= n,
                    fields == record_fields(*record),
                    n as nat == fields.len(),
                    out.deep_view() =~= select_all(fields, pos@.subrange(0, ri as int))
                        + fields.subrange(rg.start as int, i as int),
                decreases hi - i,
            {
                let ghost before = out.deep_view();
                match record.get(i) {
                    Some(f) => { out.push(f) },
                    None => {
                        proof {
                            assert(false);
                        }
                    },
                }
                proof {
                    assert(out.deep_view() =~= before + seq![fields[i as int]]);
                    assert(fields.subrange(rg.start as int, i + 1) =~= fields.subrange(
                        rg.start as int,
                        i as int,
                    ) + seq![fields[i as int]]);
                }
                i = i + 1;
            }
        }
        proof {
            lemma_select_all_snoc(fields, pos@, ri as int);
        }
        ri = ri + 1;
    }
    proof {
        assert(pos@.subrange(0, pos@.len() as int) =~= pos@);
    }
    out
}

} // verus!
