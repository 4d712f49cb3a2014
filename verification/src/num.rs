//! Decimal digits: parsing digit runs into numbers and rendering numbers
//! as decimal strings, with optional left padding.

use vstd::prelude::*;
use vstd::string::StrSliceExecFns;
use vstd::string::StringExecFns;

verus! {

/// A decimal digit `'0'..='9'`.
pub open spec fn is_digit(c: char) -> bool {
    48 <= (c as u32) && (c as u32) <= 57
}

/// Numeric value of one decimal digit.
pub open spec fn digit_val(c: char) -> nat {
    ((c as u32) - 48) as nat
}

/// Every character of `s` is a decimal digit.
pub open spec fn all_digits(s: Seq<char>) -> bool {
    forall|i: int| 0 <= i < s.len() ==> is_digit(#[trigger] s[i])
}

/// Value of a run of decimal digits, most significant first.
pub open spec fn digits_val(s: Seq<char>) -> nat
    decreases s.len(),
{
    if s.len() == 0 {
        0
    } else {
        digits_val(s.drop_last()) * 10 + digit_val(s.last())
    }
}

/// The digit character for a value below ten.
pub open spec fn digit_char(d: nat) -> char {
    if d == 0 {
        '0'
    } else if d == 1 {
        '1'
    } else if d == 2 {
        '2'
    } else if d == 3 {
        '3'
    } else if d == 4 {
        '4'
    } else if d == 5 {
        '5'
    } else if d == 6 {
        '6'
    } else if d == 7 {
        '7'
    } else if d == 8 {
        '8'
    } else {
        '9'
    }
}

/// Decimal representation of `n`, without sign or leading zeros.
pub open spec fn decimal_chars(n: nat) -> Seq<char>
    decreases n,
{
    if n < 10 {
        seq![digit_char(n)]
    } else {
        decimal_chars(n / 10).push(digit_char(n % 10))
    }
}

/// `k` space characters.
pub open spec fn spaces(k: nat) -> Seq<char>
    decreases k,
{
    if k == 0 {
        Seq::empty()
    } else {
        spaces((k - 1) as nat).push(' ')
    }
}

/// `n` rendered in decimal and padded on the left with spaces to `width`
/// characters; longer representations are kept whole.
pub open spec fn right_aligned(n: nat, width: nat) -> Seq<char> {
    let d = decimal_chars(n);
    if d.len() < width {
        spaces((width - d.len()) as nat) + d
    } else {
        d
    }
}

/// The decimal representation of a value is a non-empty digit run whose
/// value is the number itself.
pub proof fn lemma_decimal_chars(n: nat)
    ensures
        decimal_chars(n).len() >= 1,
        all_digits(decimal_chars(n)),
        digits_val(decimal_chars(n)) == n,
    decreases n,
{
    if n < 10 {
        let s = seq![digit_char(n)];
        assert(s.drop_last() =~= Seq::<char>::empty());
        assert(digits_val(Seq::<char>::empty()) == 0);
        assert(digits_val(s) == digit_val(digit_char(n)));
    } else {
        lemma_decimal_chars(n / 10);
        let p = decimal_chars(n / 10);
        let s = p.push(digit_char(n % 10));
        assert(s.drop_last() =~= p);
        assert(s.last() == digit_char(n % 10));
        assert(digits_val(s) == digits_val(p) * 10 + digit_val(digit_char(n % 10)));
        assert(digits_val(s) == (n / 10) * 10 + n % 10);
        assert((n / 10) * 10 + n % 10 == n) by (nonlinear_arith);
        assert(forall|i: int|
            0 <= i < s.len() ==> is_digit(#[trigger] s[i])) by {
            assert(forall|i: int| 0 <= i < p.len() ==> is_digit(#[trigger] p[i]));
        }
    }
}

/// The value of a digit run grows with its length.
pub proof fn lemma_digits_val_prefix(s: Seq<char>, i: int, j: int)
    requires
        0 <= i <= j <= s.len(),
    ensures
        digits_val(s.subrange(0, i)) <= digits_val(s.subrange(0, j)),
    decreases j - i,
{
    if i < j {
        lemma_digits_val_prefix(s, i + 1, j);
        let a = s.subrange(0, i);
        let b = s.subrange(0, i + 1);
        assert(b.drop_last() =~= a);
        assert(digits_val(b) == digits_val(a) * 10 + digit_val(b.last()));
        assert(digits_val(a) <= digits_val(a) * 10) by (nonlinear_arith);
    }
}

/// Parses the digit run `s@.subrange(from as int, to as int)` as a decimal
/// number, rejecting empty runs, runs with a non-digit character, and
/// values that do not fit in `usize`.
pub fn parse_usize_digits(s: &str, from: usize, to: usize) -> (r: Option<usize>)
    requires
        from <= to <= s@.len(),
    ensures
        ({
            let part = s@.subrange(from as int, to as int);
            match r {
                Some(v) => part.len() > 0 && all_digits(part) && digits_val(part) == v as nat,
                None => !(part.len() > 0 && all_digits(part) && digits_val(part)
                    <= usize::MAX as nat),
            }
        }),
{
    let ghost part = s@.subrange(from as int, to as int);
    if from == to {
        return None;
    }
    let mut acc: usize = 0;
    let mut i: usize = from;
    while i < to
        invariant
            from <= i <= to <= s@.len(),
            part == s@.subrange(from as int, to as int),
            all_digits(part.subrange(0, i - from)),
            acc as nat == digits_val(part.subrange(0, i - from)),
        decreases to - i,
    {
        let c = s.get_char(i);
        let v = c as u32;
        if v < 48 || v > 57 {
            assert(!is_digit(part[i - from]));
            return None;
        }
        let d = (v - 48) as usize;
        let ghost pre = part.subrange(0, i - from);
        let ghost cur = part.subrange(0, i + 1 - from);
        assert(cur.drop_last() =~= pre);
        assert(cur.last() == part[i - from]);
        assert(digits_val(cur) == digits_val(pre) * 10 + digit_val(part[i - from]));
        if acc > (usize::MAX - d) / 10 {
            proof {
                let m = usize::MAX as int;
                assert(acc * 10 + d > m) by (nonlinear_arith)
                    requires
                        acc > (m - d) / 10,
                        0 <= d <= 9,
                        m > 100,
                ;
                lemma_digits_val_prefix(part, i + 1 - from, part.len() as int);
                assert(part.subrange(0, part.len() as int) =~= part);
            }
            return None;
        }
        acc = acc * 10 + d;
        i = i + 1;
        assert(all_digits(cur)) by {
            assert(forall|k: int| 0 <= k < pre.len() ==> is_digit(#[trigger] pre[k]));
        }
    }
    assert(part.subrange(0, part.len() as int) =~= part);
    Some(acc)
}

/// One decimal digit as a string slice.
fn digit_str(d: usize) -> (r: &'static str)
    requires
        d < 10,
    ensures
        r@ == seq![digit_char(d as nat)],
{
    proof {
        reveal_strlit("0");
        reveal_strlit("1");
        reveal_strlit("2");
        reveal_strlit("3");
        reveal_strlit("4");
        reveal_strlit("5");
        reveal_strlit("6");
        reveal_strlit("7");
        reveal_strlit("8");
        reveal_strlit("9");
    }
    let r: &'static str = if d == 0 {
        "0"
    } else if d == 1 {
        "1"
    } else if d == 2 {
        "2"
    } else if d == 3 {
        "3"
    } else if d == 4 {
        "4"
    } else if d == 5 {
        "5"
    } else if d == 6 {
        "6"
    } else if d == 7 {
        "7"
    } else if d == 8 {
        "8"
    } else {
        "9"
    };
    assert(r@ =~= seq![digit_char(d as nat)]);
    r
}

/// Renders `n` in decimal.
pub fn u64_to_string(n: u64) -> (r: String)
    ensures
        r@ == decimal_chars(n as nat),
    decreases n,
{
    if n < 10 {
        String::from_str(digit_str(n as usize))
    } else {
        let mut s = u64_to_string(n / 10);
        s.append(digit_str((n % 10) as usize));
        proof {
            assert(decimal_chars((n / 10) as nat).push(digit_char((n % 10) as nat))
                =~= decimal_chars((n / 10) as nat) + seq![digit_char((n % 10) as nat)]);
        }
        s
    }
}

/// Renders `n` in decimal.
pub fn usize_to_string(n: usize) -> (r: String)
    ensures
        r@ == decimal_chars(n as nat),
{
    u64_to_string(n as u64)
}

/// Prepends spaces to `s` until it is `width` characters long; a string
/// already that long is returned unchanged.
pub fn pad_left(s: String, width: usize) -> (r: String)
    ensures
        r@ == if s@.len() < width {
            spaces((width - s@.len()) as nat) + s@
        } else {
            s@
        },
{
    let len = s.as_str().unicode_len();
    if len >= width {
        return s;
    }
    let target: usize = width - len;
    let mut pad = String::new();
    let mut k: usize = 0;
    while k < target
        invariant
            k <= target,
            pad@ =~= spaces(k as nat),
        decreases target - k,
    {
        pad.append(" ");
        proof {
            reveal_strlit(" ");
            assert(" "@ =~= seq![' ']);
            assert(spaces((k + 1) as nat) =~= spaces(k as nat) + seq![' ']);
        }
        k = k + 1;
    }
    pad.concat(s.as_str())
}

/// `n` in decimal, left-padded with spaces to `width` characters.
pub fn aligned_decimal(n: usize, width: usize) -> (r: String)
    ensures
        r@ == right_aligned(n as nat, width as nat),
{
    proof {
        lemma_decimal_chars(n as nat);
    }
    pad_left(usize_to_string(n), width)
}

/// `n` in decimal, left-padded with spaces to `width` characters.
pub fn aligned_decimal_u64(n: u64, width: usize) -> (r: String)
    ensures
        r@ == right_aligned(n as nat, width as nat),
{
    proof {
        lemma_decimal_chars(n as nat);
    }
    pad_left(u64_to_string(n), width)
}

} // verus!
