//! Line, word, byte and character counting over one whole input, and the
//! fixed-width column formatting of the counts.

use vstd::prelude::*;
use vstd::string::StrSliceExecFns;
use vstd::string::StringExecFns;
use vstd::string::StringSliceAdditionalSpecFns;

use crate::num::aligned_decimal;
use crate::num::right_aligned;

verus! {

/// A character with the Unicode `White_Space` property, the set
/// `char::is_whitespace` accepts.
pub open spec fn is_space(c: char) -> bool {
    let v = c as u32;
    ||| (9 <= v && v <= 13)
    ||| v == 32
    ||| v == 0x85
    ||| v == 0xA0
    ||| v == 0x1680
    ||| (0x2000 <= v && v <= 0x200A)
    ||| v == 0x2028
    ||| v == 0x2029
    ||| v == 0x202F
    ||| v == 0x205F
    ||| v == 0x3000
}

/// Whether `c` has the Unicode `White_Space` property.
pub(crate) fn is_space_char(c: char) -> (r: bool)
    ensures
        r == is_space(c),
{
    let v = c as u32;
    (9 <= v && v <= 13) || v == 32 || v == 0x85 || v == 0xA0 || v == 0x1680 || (0x2000 <= v && v
        <= 0x200A) || v == 0x2028 || v == 0x2029 || v == 0x202F || v == 0x205F || v == 0x3000
}

/// How many newline characters `s` holds.
pub open spec fn newline_count(s: Seq<char>) -> nat
    decreases s.len(),
{
    if s.len() == 0 {
        0
    } else {
        newline_count(s.drop_last()) + if s.last() == '\n' {
            1nat
        } else {
            0nat
        }
    }
}

/// How many lines a reader that stops at each newline and keeps a final
/// unterminated line sees in `s`.
pub open spec fn line_count(s: Seq<char>) -> nat {
    newline_count(s) + if s.len() > 0 && s.last() != '\n' {
        1nat
    } else {
        0nat
    }
}

/// How many maximal runs of non-whitespace characters `s` holds.
pub open spec fn word_count(s: Seq<char>) -> nat
    decreases s.len(),
{
    if s.len() == 0 {
        0
    } else {
        word_count(s.drop_last()) + if !is_space(s.last()) && (s.len() == 1 || is_space(
            s[s.len() - 2],
        )) {
            1nat
        } else {
            0nat
        }
    }
}

/// There are at most as many newlines as characters.
pub proof fn lemma_newline_count_le(s: Seq<char>)
    ensures
        newline_count(s) <= s.len(),
        s.len() > 0 && s.last() != '\n' ==> newline_count(s) < s.len(),
    decreases s.len(),
{
    if s.len() > 0 {
        lemma_newline_count_le(s.drop_last());
    }
}

/// There are at most as many words as characters.
pub proof fn lemma_word_count_le(s: Seq<char>)
    ensures
        word_count(s) <= s.len(),
    decreases s.len(),
{
    if s.len() > 0 {
        lemma_word_count_le(s.drop_last());
    }
}

/// The four counts of one input.
#[derive(Debug, Clone, Copy, PartialEq, Eq, Structural)]
pub struct FileInfo {
    pub lines: usize,
    pub words: usize,
    pub bytes: usize,
    pub chars: usize,
}

/// Counts the lines, words, bytes and characters of one whole input.
///
/// Lines are what a line-by-line reader yields: newline-terminated pieces,
/// plus a final piece without a newline if one remains. Words are maximal
/// whitespace-separated runs; bytes are UTF-8 bytes; characters are
/// Unicode code points.
pub fn count(text: &str) -> (r: FileInfo)
    ensures
        r.lines as nat == line_count(text@),
        r.words as nat == word_count(text@),
        r.bytes == text.spec_bytes().len() as usize,
        r.chars as nat == text@.len(),
{
    let n = text.unicode_len();
    let mut newlines: usize = 0;
    let mut words: usize = 0;
    let mut prev_space: bool = true;
    let mut i: usize = 0;
    while i < n
        invariant
            i <= n,
            n == text@.len(),
            newlines as nat == newline_count(text@.subrange(0, i as int)),
            words as nat == word_count(text@.subrange(0, i as int)),
            newlines <= i,
            words <= i,
            prev_space == (i == 0 || is_space(text@[i - 1])),
        decreases n - i,
    {
        let c = text.get_char(i);
        let ghost pre = text@.subrange(0, i as int);
        let ghost cur = text@.subrange(0, i + 1);
        proof {
            assert(cur.drop_last() =~= pre);
            assert(cur.last() == text@[i as int]);
            lemma_newline_count_le(pre);
            lemma_word_count_le(pre);
        }
        if c == '\n' {
            newlines = newlines + 1;
        }
        if !is_space_char(c) && prev_space {
            proof {
                assert(cur.len() == 1 || is_space(cur[cur.len() - 2]));
            }
            words = words + 1;
        }
        prev_space = is_space_char(c);
        i = i + 1;
    }
    proof {
        assert(text@.subrange(0, n as int) =~= text@);
        lemma_newline_count_le(text@);
    }
    let lines = if n > 0 && text.get_char(n - 1) != '\n' {
        newlines + 1
    } else {
        newlines
    };
    FileInfo { lines, words, bytes: text.len(), chars: n }
}

/// Renders one count as an eight-character right-aligned column when it is
/// shown, and as nothing when it is not.
pub fn format_field(value: usize, show: bool) -> (r: String)
    ensures
        show ==> r@ == right_aligned(value as nat, 8),
        !show ==> r@ == Seq::<char>::empty(),
{
    if show {
        aligned_decimal(value, 8)
    } else {
        String::new()
    }
}

/// One shown count as a column, or nothing.
pub open spec fn field_text(value: nat, show: bool) -> Seq<char> {
    if show {
        right_aligned(value, 8)
    } else {
        Seq::empty()
    }
}

/// The name shown after the counts: nothing for standard input, otherwise
/// a space and the name.
pub open spec fn name_suffix(name: Seq<char>) -> Seq<char> {
    if name =~= seq!['-'] {
        Seq::empty()
    } else {
        " "@ + name
    }
}

/// Renders one report line: the shown counts as columns, then the input's
/// name unless it is standard input.
pub fn report_line(
    info: &FileInfo,
    show_lines: bool,
    show_words: bool,
    show_bytes: bool,
    show_chars: bool,
    name: &str,
) -> (r: String)
    ensures
        r@ == field_text(info.lines as nat, show_lines) + field_text(info.words as nat, show_words)
            + field_text(info.bytes as nat, show_bytes) + field_text(info.chars as nat, show_chars)
            + name_suffix(name@),
{
    let mut out = format_field(info.lines, show_lines);
    out = out.concat(format_field(info.words, show_words).as_str());
    out = out.concat(format_field(info.bytes, show_bytes).as_str());
    out = out.concat(format_field(info.chars, show_chars).as_str());
    let dash = name.unicode_len() == 1 && name.get_char(0) == '-';
    let r = if dash {
        out
    } else {
        out.concat(" ").concat(name)
    };
    proof {
        if dash {
            assert(name@ =~= seq!['-']);
        } else {
            assert(!(name@ =~= seq!['-']));
        }
        assert(r@ =~= field_text(info.lines as nat, show_lines) + field_text(
            info.words as nat,
            show_words,
        ) + field_text(info.bytes as nat, show_bytes) + field_text(info.chars as nat, show_chars)
            + name_suffix(name@));
    }
    r
}

} // verus!
