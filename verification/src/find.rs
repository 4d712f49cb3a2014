//! The pure decisions of a find-style walk: parsing the entry-type flag
//! and filtering entries by type and by name patterns.

use vstd::prelude::*;
use vstd::string::StrSliceExecFns;
use vstd::string::StringExecFns;

verus! {

/// An entry type the user can ask for.
#[derive(Debug, Clone, Copy, PartialEq, Eq, Structural)]
pub enum EntryType {
    File,
    Dir,
    Link,
}

/// What an entry's file type reports.
#[derive(Debug, Clone, Copy, PartialEq, Eq, Structural)]
pub enum FileKind {
    File,
    Dir,
    Link,
    Other,
}

/// The entry type a flag value names, if any.
pub open spec fn entry_type_of(s: Seq<char>) -> Option<EntryType> {
    if s == seq!['d'] {
        Some(EntryType::Dir)
    } else if s == seq!['f'] {
        Some(EntryType::File)
    } else if s == seq!['l'] {
        Some(EntryType::Link)
    } else {
        None
    }
}

/// Parses the entry-type flag value: `d`, `f` or `l`.
pub fn parse_entry_type(s: &str) -> (r: Result<EntryType, String>)
    ensures
        match r {
            Ok(t) => entry_type_of(s@) == Some(t),
            Err(e) => entry_type_of(s@) is None && e@ == "invalid type: "@ + s@,
        },
{
    if s.unicode_len() == 1 {
        let c = s.get_char(0);
        proof {
            if c == 'd' {
                assert(s@ =~= seq!['d']);
            } else if c == 'f' {
                assert(s@ =~= seq!['f']);
            } else if c == 'l' {
                assert(s@ =~= seq!['l']);
            } else {
                assert(s@ !~= seq!['d'] && s@ !~= seq!['f'] && s@ !~= seq!['l']);
            }
        }
        match c {
            'd' => return Ok(EntryType::Dir),
            'f' => return Ok(EntryType::File),
            'l' => return Ok(EntryType::Link),
            _ => (),
        }
    }
    proof {
        assert(s@ !~= seq!['d'] && s@ !~= seq!['f'] && s@ !~= seq!['l']);
    }
    let e = String::from_str("invalid type: ").concat(s);
    proof {
        assert(e@ =~= "invalid type: "@ + s@);
    }
    Err(e)
}

/// Whether an entry of kind `k` is of the asked-for type `t`.
pub open spec fn kind_matches(t: EntryType, k: FileKind) -> bool {
    match t {
        EntryType::File => k is File,
        EntryType::Dir => k is Dir,
        EntryType::Link => k is Link,
    }
}

/// Whether an entry of kind `kind` passes the type filter: no type was
/// asked for, or some asked-for type matches.
pub fn matches_types(types: &Vec<EntryType>, kind: FileKind) -> (r: bool)
    ensures
        r == (types@.len() == 0 || exists|i: int|
            0 <= i < types@.len() && kind_matches(#[trigger] types@[i], kind)),
{
    if types.len() == 0 {
        return true;
    }
    let mut i: usize = 0;
    while i < types.len()
        invariant
            i <= types@.len(),
            forall|k: int| 0 <= k < i ==> !kind_matches(#[trigger] types@[k], kind),
        decreases types@.len() - i,
    {
        let t = types[i];
        let hit = match t {
            EntryType::File => matches!(kind, FileKind::File),
            EntryType::Dir => matches!(kind, FileKind::Dir),
            EntryType::Link => matches!(kind, FileKind::Link),
        };
        if hit {
            assert(kind_matches(types@[i as int], kind));
            return true;
        }
        i = i + 1;
    }
    false
}

#[verifier::external_type_specification]
#[verifier::external_body]
pub struct ExRegex(regex::Regex);

/// Relies on `regex::Regex::is_match`: whether the pattern matches
/// somewhere in the haystack; nothing is assumed of the answer.
pub assume_specification[ regex::Regex::is_match ](re: &regex::Regex, haystack: &str) -> bool;

/// Whether an entry name passes the name filter: no pattern was given, or
/// some pattern matches the name. What each pattern matches is the regex
/// engine's answer, so with patterns present nothing more is promised of
/// the result.
pub fn matches_any_name(names: &Vec<regex::Regex>, name: &str) -> (r: bool)
    ensures
        names@.len() == 0 ==> r,
{
    if names.len() == 0 {
        return true;
    }
    let mut i: usize = 0;
    while i < names.len()
        invariant
            i <= names@.len(),
        decreases names@.len() - i,
    {
        if names[i].is_match(name) {
            return true;
        }
        i = i + 1;
    }
    false
}

} // verus!
