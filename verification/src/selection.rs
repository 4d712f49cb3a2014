//! The selection parser: turns a raw selection specification such as
//! `1,3-5,8` into an ordered list of half-open, 0-based index ranges.
//!
//! The user-facing syntax is 1-based: a token is either one decimal index
//! `n >= 1`, mapped to `[n-1, n)`, or an inclusive pair `a-b` with
//! `a < b`, mapped to `[a-1, b)`. Any malformed token fails the whole
//! parse with a descriptive message; ranges are kept in written order and
//! are neither merged nor deduplicated.

use vstd::prelude::*;
use vstd::string::StrSliceExecFns;
use vstd::string::StringExecFns;
use vstd::string::StringSliceAdditionalSpecFns;

use crate::num::all_digits;
use crate::num::decimal_chars;
use crate::num::digits_val;
use crate::num::is_digit;
use crate::num::lemma_decimal_chars;
use crate::num::parse_usize_digits;
use crate::num::usize_to_string;

verus! {

/// One selected span of positions, half-open `[start, end)` and 0-based.
#[derive(Debug, Clone, Copy, PartialEq, Eq, Structural)]
pub struct IndexRange {
    pub start: usize,
    pub end: usize,
}

impl IndexRange {
    /// A well-formed range selects at least one position.
    pub open spec fn wf(self) -> bool {
        self.start < self.end
    }
}

/// The token is one decimal index in `1..=usize::MAX`.
pub open spec fn single_form(t: Seq<char>) -> bool {
    t.len() > 0 && all_digits(t) && 1 <= digits_val(t) <= usize::MAX as nat
}

/// Position `i` splits the token into two non-empty digit runs around a
/// hyphen.
pub open spec fn is_range_split(t: Seq<char>, i: int) -> bool {
    &&& 0 <= i < t.len()
    &&& t[i] == '-'
    &&& t.subrange(0, i).len() > 0
    &&& all_digits(t.subrange(0, i))
    &&& t.subrange(i + 1, t.len() as int).len() > 0
    &&& all_digits(t.subrange(i + 1, t.len() as int))
}

/// The token is two non-empty digit runs separated by one hyphen.
pub open spec fn range_form(t: Seq<char>) -> bool {
    exists|i: int| is_range_split(t, i)
}

/// The position of the hyphen of a range-form token.
pub open spec fn split_idx(t: Seq<char>) -> int {
    choose|i: int| is_range_split(t, i)
}

/// The digit run before the hyphen of a range-form token.
pub open spec fn range_first(t: Seq<char>) -> Seq<char> {
    t.subrange(0, split_idx(t))
}

/// The digit run after the hyphen of a range-form token.
pub open spec fn range_second(t: Seq<char>) -> Seq<char> {
    t.subrange(split_idx(t) + 1, t.len() as int)
}

/// A range-form token splits at exactly one position: everything on either
/// side of the hyphen is a digit, and a hyphen is not a digit.
pub proof fn lemma_split_unique(t: Seq<char>, i: int, j: int)
    requires
        is_range_split(t, i),
        is_range_split(t, j),
    ensures
        i == j,
{
    if i < j {
        assert(t.subrange(0, j)[i] == t[i]);
        assert(is_digit(t[i]));
    }
    if j < i {
        assert(t.subrange(0, i)[j] == t[j]);
        assert(is_digit(t[j]));
    }
}

/// The token parses: one valid index, or a valid strictly increasing pair.
pub open spec fn token_ok(t: Seq<char>) -> bool {
    ||| single_form(t)
    ||| {
        &&& range_form(t)
        &&& single_form(range_first(t))
        &&& single_form(range_second(t))
        &&& digits_val(range_first(t)) < digits_val(range_second(t))
    }
}

/// The 0-based half-open range a valid token stands for.
pub open spec fn token_range(t: Seq<char>) -> IndexRange {
    if single_form(t) {
        IndexRange { start: (digits_val(t) - 1) as usize, end: digits_val(t) as usize }
    } else {
        IndexRange {
            start: (digits_val(range_first(t)) - 1) as usize,
            end: digits_val(range_second(t)) as usize,
        }
    }
}

/// The message for a token that is not a valid index or pair of indices.
pub open spec fn illegal_msg(t: Seq<char>) -> Seq<char> {
    "illegal list value: \""@ + t + "\""@
}

/// The message for a pair whose first index is not strictly below its
/// second, echoing both 1-based values.
pub open spec fn inverted_msg(a: nat, b: nat) -> Seq<char> {
    "first number in range ("@ + decimal_chars(a) + ") must be lower than second number ("@
        + decimal_chars(b) + ")"@
}

/// The message a failing token produces.
pub open spec fn token_err(t: Seq<char>) -> Seq<char> {
    if range_form(t) {
        if !single_form(range_first(t)) {
            illegal_msg(range_first(t))
        } else if !single_form(range_second(t)) {
            illegal_msg(range_second(t))
        } else {
            inverted_msg(digits_val(range_first(t)), digits_val(range_second(t)))
        }
    } else {
        illegal_msg(t)
    }
}

/// The comma-separated tokens of a raw selection string; an empty string
/// is one empty token, as `str::split` yields it.
pub open spec fn split_commas(s: Seq<char>) -> Seq<Seq<char>>
    decreases s.len(),
{
    if s.len() == 0 {
        seq![Seq::<char>::empty()]
    } else {
        let rest = split_commas(s.drop_first());
        if s[0] == ',' {
            seq![Seq::<char>::empty()] + rest
        } else {
            seq![seq![s[0]] + rest[0]] + rest.drop_first()
        }
    }
}

/// Splitting yields at least one token.
pub proof fn lemma_split_commas_len(s: Seq<char>)
    ensures
        split_commas(s).len() >= 1,
    decreases s.len(),
{
    if s.len() > 0 {
        lemma_split_commas_len(s.drop_first());
    }
}

/// If the first comma of `s` sits at `j` (or `j` is the length and `s` has
/// none), the split starts with `s`'s prefix up to `j`, followed by the
/// split of the rest.
pub proof fn lemma_split_commas_at(s: Seq<char>, j: int)
    requires
        0 <= j <= s.len(),
        forall|k: int| 0 <= k < j ==> s[k] != ',',
        j < s.len() ==> s[j] == ',',
    ensures
        j == s.len() ==> split_commas(s) =~~= seq![s],
        j < s.len() ==> split_commas(s) =~~= seq![s.subrange(0, j)] + split_commas(
            s.subrange(j + 1, s.len() as int),
        ),
    decreases s.len(),
{
    lemma_split_commas_len(s);
    if s.len() == 0 {
    } else if j == 0 {
        if j < s.len() {
            assert(s.subrange(0, 0) =~= Seq::<char>::empty());
            assert(s.subrange(1, s.len() as int) =~= s.drop_first());
        }
    } else {
        let d = s.drop_first();
        lemma_split_commas_len(d);
        lemma_split_commas_at(d, j - 1);
        assert(s[0] != ',');
        if j == s.len() {
            assert(split_commas(d) =~~= seq![d]);
            assert(seq![s[0]] + d =~= s);
        } else {
            assert(d.subrange(0, j - 1) =~= s.subrange(1, j));
            assert(seq![s[0]] + s.subrange(1, j) =~= s.subrange(0, j));
            assert(d.subrange(j, d.len() as int) =~= s.subrange(j + 1, s.len() as int));
        }
    }
}

/// Every token of the list parses.
pub open spec fn tokens_ok(toks: Seq<Seq<char>>) -> bool {
    forall|i: int| 0 <= i < toks.len() ==> token_ok(#[trigger] toks[i])
}

/// The ranges the tokens stand for, in token order.
pub open spec fn ranges_of(toks: Seq<Seq<char>>) -> Seq<IndexRange> {
    Seq::new(toks.len(), |i: int| token_range(toks[i]))
}

/// The message of the first failing token.
pub open spec fn list_err(toks: Seq<Seq<char>>) -> Seq<char>
    decreases toks.len(),
{
    if toks.len() == 0 {
        Seq::empty()
    } else if !token_ok(toks[0]) {
        token_err(toks[0])
    } else {
        list_err(toks.drop_first())
    }
}

/// Builds the message for a token that parses as neither form.
fn illegal_message(t: &str) -> (r: String)
    ensures
        r@ == illegal_msg(t@),
{
    let r = String::from_str("illegal list value: \"").concat(t).concat("\"");
    proof {
        assert(r@ =~= illegal_msg(t@));
    }
    r
}

/// Builds the message for an inverted pair, echoing the 1-based values.
fn inverted_message(a: usize, b: usize) -> (r: String)
    ensures
        r@ == inverted_msg(a as nat, b as nat),
{
    let r = String::from_str("first number in range (")
        .concat(usize_to_string(a).as_str())
        .concat(") must be lower than second number (")
        .concat(usize_to_string(b).as_str())
        .concat(")");
    proof {
        assert(r@ =~= inverted_msg(a as nat, b as nat));
    }
    r
}

/// Relies on `regex::Regex::new` and `regex::Regex::captures` with the
/// anchored pattern `^([0-9]+)-([0-9]+)$`: the token matches exactly when
/// it is two non-empty runs of decimal digits separated by one hyphen, and
/// the two capture groups are those runs.
#[verifier::external_body]
fn match_range_token(t: &str) -> (r: Option<(String, String)>)
    ensures
        r is Some <==> range_form(t@),
        r matches Some(p) ==> {
            &&& t@ == p.0@ + seq!['-'] + p.1@
            &&& p.0@.len() > 0
            &&& all_digits(p.0@)
            &&& p.1@.len() > 0
            &&& all_digits(p.1@)
        },
{
    let re = regex::Regex::new("^([0-9]+)-([0-9]+)$").unwrap();
    re.captures(t).map(|c| (c[1].to_string(), c[2].to_string()))
}

/// Parses one whole string as a 1-based index, yielding its 0-based value.
pub fn parse_index(input: &str) -> (r: Result<usize, String>)
    ensures
        match r {
            Ok(n) => single_form(input@) && n as nat == digits_val(input@) - 1,
            Err(e) => !single_form(input@) && e@ == illegal_msg(input@),
        },
{
    let n = input.unicode_len();
    proof {
        assert(input@.subrange(0, input@.len() as int) =~= input@);
    }
    match parse_usize_digits(input, 0, n) {
        Some(v) if v >= 1 => Ok(v - 1),
        _ => Err(illegal_message(input)),
    }
}

/// Parses the token `s@.subrange(from as int, to as int)`.
fn parse_token(s: &str, from: usize, to: usize) -> (r: Result<IndexRange, String>)
    requires
        from <= to <= s@.len(),
    ensures
        ({
            let t = s@.subrange(from as int, to as int);
            match r {
                Ok(rg) => token_ok(t) && rg == token_range(t),
                Err(e) => !token_ok(t) && e@ == token_err(t),
            }
        }),
{
    let ghost t = s@.subrange(from as int, to as int);
    match parse_usize_digits(s, from, to) {
        Some(v) if v >= 1 => Ok(IndexRange { start: v - 1, end: v }),
        _ => {
            let tok = s.substring_char(from, to);
            let first_err = illegal_message(tok);
            match match_range_token(tok) {
                None => Err(first_err),
                Some((a, b)) => {
                    proof {
                        let i = a@.len() as int;
                        assert(t.subrange(0, i) =~= a@);
                        assert(t.subrange(i + 1, t.len() as int) =~= b@);
                        assert(is_range_split(t, i));
                        lemma_split_unique(t, i, split_idx(t));
                        assert(range_first(t) == a@);
                        assert(range_second(t) == b@);
                        assert(!single_form(t)) by {
                            assert(t[i] == '-');
                            assert(!is_digit('-'));
                        }
                    }
                    match parse_index(a.as_str()) {
                        Err(e) => Err(e),
                        Ok(n1) => match parse_index(b.as_str()) {
                            Err(e) => Err(e),
                            Ok(n2) => {
                                if n1 < n2 {
                                    Ok(IndexRange { start: n1, end: n2 + 1 })
                                } else {
                                    Err(inverted_message(n1 + 1, n2 + 1))
                                }
                            },
                        },
                    }
                },
            }
        },
    }
}

/// The position of the first comma at or after `from`, or the length if
/// there is none.
fn next_comma(s: &str, from: usize) -> (j: usize)
    requires
        from <= s@.len(),
    ensures
        from <= j <= s@.len(),
        forall|k: int| from <= k < j ==> s@[k] != ',',
        j < s@.len() ==> s@[j as int] == ',',
{
    let n = s.unicode_len();
    let mut j: usize = from;
    while j < n
        invariant
            from <= j <= n,
            n == s@.len(),
            forall|k: int| from <= k < j ==> s@[k] != ',',
        decreases n - j,
    {
        if s.get_char(j) == ',' {
            return j;
        }
        j = j + 1;
    }
    j
}

/// Parses the comma-separated tokens of `s` from position `from` on.
fn parse_pos_from(s: &str, from: usize) -> (r: Result<Vec<IndexRange>, String>)
    requires
        from <= s@.len(),
    ensures
        ({
            let toks = split_commas(s@.subrange(from as int, s@.len() as int));
            match r {
                Ok(v) => tokens_ok(toks) && v@ =~= ranges_of(toks),
                Err(e) => !tokens_ok(toks) && e@ == list_err(toks),
            }
        }),
    decreases s@.len() - from,
{
    let ghost tail = s@.subrange(from as int, s@.len() as int);
    let n = s.unicode_len();
    let j = next_comma(s, from);
    proof {
        assert(forall|k: int|
            0 <= k < j - from ==> tail[k] == s@[k + from] && #[trigger] tail[k] != ',');
        if j < n {
            assert(tail[j - from] == ',');
        }
        lemma_split_commas_at(tail, j - from);
        assert(tail.subrange(0, j - from) =~= s@.subrange(from as int, j as int));
    }
    let ghost toks = split_commas(tail);
    let head = parse_token(s, from, j);
    if j == n {
        proof {
            assert(toks =~~= seq![s@.subrange(from as int, j as int)]);
        }
        match head {
            Ok(rg) => {
                let v = vec![rg];
                proof {
                    assert(v@ =~= ranges_of(toks));
                }
                Ok(v)
            },
            Err(e) => {
                proof {
                    assert(!token_ok(toks[0]));
                    assert(list_err(toks) == token_err(toks[0]));
                }
                Err(e)
            },
        }
    } else {
        let ghost rest_toks = split_commas(s@.subrange(j + 1, s@.len() as int));
        proof {
            assert(tail.subrange(j - from + 1, tail.len() as int) =~= s@.subrange(
                j + 1,
                s@.len() as int,
            ));
            assert(toks =~~= seq![s@.subrange(from as int, j as int)] + rest_toks);
            lemma_split_commas_len(s@.subrange(j + 1, s@.len() as int));
            assert(toks.drop_first() =~~= rest_toks);
        }
        match head {
            Err(e) => {
                proof {
                    assert(!token_ok(toks[0]));
                }
                Err(e)
            },
            Ok(rg) => {
                match parse_pos_from(s, j + 1) {
                    Err(e) => {
                        proof {
                            assert(!tokens_ok(rest_toks));
                            let bad = choose|i: int|
                                0 <= i < rest_toks.len() && !token_ok(#[trigger] rest_toks[i]);
                            assert(toks[bad + 1] == rest_toks[bad]);
                            assert(!tokens_ok(toks));
                            assert(list_err(toks) == list_err(rest_toks));
                        }
                        Err(e)
                    },
                    Ok(mut rest) => {
                        let mut v = vec![rg];
                        v.append(&mut rest);
                        proof {
                            assert(tokens_ok(toks)) by {
                                assert(forall|i: int|
                                    0 < i < toks.len() ==> #[trigger] toks[i] == rest_toks[i - 1]);
                            }
                            assert(v@ =~= ranges_of(toks)) by {
                                assert(forall|i: int|
                                    0 < i < toks.len() ==> #[trigger] toks[i] == rest_toks[i - 1]);
                            }
                        }
                        Ok(v)
                    },
                }
            },
        }
    }
}

/// Parses a raw selection specification into its ordered range list.
///
/// Every comma-separated token must be a valid 1-based index or a strictly
/// increasing 1-based pair; the first failing token aborts the parse with
/// its message. On success the list is non-empty, holds one well-formed
/// range per token in written order, and overlapping or duplicate ranges
/// are kept as written.
pub fn parse_pos(range: &str) -> (r: Result<Vec<IndexRange>, String>)
    ensures
        r is Ok <==> tokens_ok(split_commas(range@)),
        r matches Ok(v) ==> {
            &&& v@ == ranges_of(split_commas(range@))
            &&& v@.len() >= 1
            &&& forall|i: int| 0 <= i < v@.len() ==> (#[trigger] v@[i]).wf()
        },
        r matches Err(e) ==> e@ == list_err(split_commas(range@)),
{
    proof {
        assert(range@.subrange(0, range@.len() as int) =~= range@);
        lemma_split_commas_len(range@);
    }
    let r = parse_pos_from(range, 0);
    proof {
        if r is Ok {
            let toks = split_commas(range@);
            assert(forall|i: int|
                0 <= i < toks.len() ==> (#[trigger] ranges_of(toks)[i]) == token_range(toks[i]));
            assert(forall|i: int|
                0 <= i < toks.len() ==> token_ok(#[trigger] toks[i]) ==> token_range(
                    toks[i],
                ).wf());
        }
    }
    r
}

/// The message for a field delimiter that is not a single byte.
pub open spec fn delim_msg(s: Seq<char>) -> Seq<char> {
    "--delim \""@ + s + "\" must be single byte"@
}

/// Parses the field delimiter flag value: exactly one byte.
pub fn parse_delim(input: &str) -> (r: Result<u8, String>)
    ensures
        match r {
            Ok(b) => input.spec_bytes().len() == 1 && b == input.spec_bytes()[0],
            Err(e) => input.spec_bytes().len() != 1 && e@ == delim_msg(input@),
        },
{
    let bytes = input.as_bytes();
    if bytes.len() == 1 {
        Ok(bytes[0])
    } else {
        let r = String::from_str("--delim \"").concat(input).concat("\" must be single byte");
        proof {
            assert(r@ =~= delim_msg(input@));
        }
        Err(r)
    }
}

/// Which addressing unit a selection applies to, with its range list.
#[derive(Debug)]
pub enum Extract {
    Fields(Vec<IndexRange>),
    Bytes(Vec<IndexRange>),
    Chars(Vec<IndexRange>),
}

/// Picks the extraction mode from the three optional flag values, fields
/// first, then bytes, then chars; `None` when no flag was given.
pub fn choose_extract(
    fields: Option<Vec<IndexRange>>,
    bytes: Option<Vec<IndexRange>>,
    chars: Option<Vec<IndexRange>>,
) -> (r: Option<Extract>)
    ensures
        fields matches Some(p) ==> r == Some(Extract::Fields(p)),
        fields is None ==> (bytes matches Some(p) ==> r == Some(Extract::Bytes(p))),
        fields is None && bytes is None ==> (chars matches Some(p) ==> r == Some(
            Extract::Chars(p),
        )),
        fields is None && bytes is None && chars is None ==> r is None,
{
    if let Some(p) = fields {
        Some(Extract::Fields(p))
    } else if let Some(p) = bytes {
        Some(Extract::Bytes(p))
    } else if let Some(p) = chars {
        Some(Extract::Chars(p))
    } else {
        None
    }
}

/// For every valid 1-based single index, the selection spec holding just
/// its decimal form parses to exactly one range, `[n-1, n)`.
pub proof fn lemma_parse_single(n: usize)
    requires
        1 <= n,
    ensures
        ({
            let s = decimal_chars(n as nat);
            &&& split_commas(s) =~= seq![s]
            &&& tokens_ok(split_commas(s))
            &&& ranges_of(split_commas(s)) =~= seq![
                IndexRange { start: (n - 1) as usize, end: n },
            ]
        }),
{
    let s = decimal_chars(n as nat);
    lemma_decimal_chars(n as nat);
    assert(forall|k: int| 0 <= k < s.len() ==> s[k] != ',') by {
        assert(forall|k: int| 0 <= k < s.len() ==> is_digit(#[trigger] s[k]));
    }
    lemma_split_commas_at(s, s.len() as int);
    assert(single_form(s));
    assert(token_range(s) == IndexRange { start: (n - 1) as usize, end: n });
    assert(ranges_of(seq![s]) =~= seq![token_range(s)]);
}

/// For every 1-based pair `a`, `b`, the selection spec `a-b` is one token;
/// it parses to the single range `[a-1, b)` when `a < b`, and fails with
/// the message naming `a` and `b` in 1-based form when `a >= b`.
pub proof fn lemma_parse_pair(a: usize, b: usize)
    requires
        1 <= a,
        1 <= b,
    ensures
        ({
            let s = decimal_chars(a as nat) + seq!['-'] + decimal_chars(b as nat);
            &&& split_commas(s) =~= seq![s]
            &&& (a < b ==> tokens_ok(split_commas(s)) && ranges_of(split_commas(s)) =~= seq![
                IndexRange { start: (a - 1) as usize, end: b },
            ])
            &&& (a >= b ==> !tokens_ok(split_commas(s)) && list_err(split_commas(s))
                == inverted_msg(a as nat, b as nat))
        }),
{
    let da = decimal_chars(a as nat);
    let db = decimal_chars(b as nat);
    let s = da + seq!['-'] + db;
    lemma_decimal_chars(a as nat);
    lemma_decimal_chars(b as nat);
    let i = da.len() as int;
    assert(s.subrange(0, i) =~= da);
    assert(s.subrange(i + 1, s.len() as int) =~= db);
    assert(is_range_split(s, i));
    lemma_split_unique(s, i, split_idx(s));
    assert(range_first(s) == da && range_second(s) == db);
    assert(!single_form(s)) by {
        assert(s[i] == '-');
        assert(!is_digit('-'));
    }
    assert(forall|k: int| 0 <= k < s.len() ==> s[k] != ',') by {
        assert(forall|k: int| 0 <= k < da.len() ==> is_digit(#[trigger] da[k]));
        assert(forall|k: int| 0 <= k < db.len() ==> is_digit(#[trigger] db[k]));
        assert(forall|k: int| 0 <= k < s.len() && k != i ==> is_digit(#[trigger] s[k]));
    }
    lemma_split_commas_at(s, s.len() as int);
    assert(single_form(da) && single_form(db));
    if a < b {
        assert(token_ok(s));
        assert(token_range(s) == IndexRange { start: (a - 1) as usize, end: b });
        assert(ranges_of(seq![s]) =~= seq![token_range(s)]);
    } else {
        assert(!token_ok(s));
        assert(token_err(s) == inverted_msg(a as nat, b as nat));
        assert(seq![s][0] == s);
        assert(!token_ok(seq![s][0]));
        assert(!tokens_ok(seq![s]));
        assert(list_err(seq![s]) == token_err(s));
    }
}

} // verus!
