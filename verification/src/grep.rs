//! The pure decisions of a grep-style search: whether a line is kept given
//! the match result and the invert flag, and what to do with each named
//! path.

use vstd::prelude::*;
use vstd::string::StringExecFns;

verus! {

/// Whether a line is kept: it matched, or the sense is inverted and it did
/// not.
pub fn keep_line(matched: bool, invert_match: bool) -> (r: bool)
    ensures
        r == (matched != invert_match),
{
    matched ^ invert_match
}

/// What a stat of a named path reports.
#[derive(Debug, Clone, Copy, PartialEq, Eq, Structural)]
pub enum StatKind {
    Dir,
    File,
    Other,
}

/// What to do with one named input path.
#[derive(Debug, Clone, Copy, PartialEq, Eq, Structural)]
pub enum PathAction {
    /// Search the path itself (a file, or standard input).
    Keep,
    /// Walk the directory and search the files below it.
    Walk,
    /// Report that the path is a directory.
    DirError,
    /// Report the stat failure.
    StatError,
    /// Neither a file nor a directory: nothing to search.
    Skip,
}

/// Decides what to do with one named path: standard input and plain files
/// are searched, directories are walked when the search is recursive and
/// reported otherwise, unreadable paths are reported.
pub fn classify_path(is_stdin: bool, kind: Option<StatKind>, recursive: bool) -> (r: PathAction)
    ensures
        is_stdin ==> r == PathAction::Keep,
        !is_stdin && kind is None ==> r == PathAction::StatError,
        !is_stdin && kind == Some(StatKind::Dir) && recursive ==> r == PathAction::Walk,
        !is_stdin && kind == Some(StatKind::Dir) && !recursive ==> r == PathAction::DirError,
        !is_stdin && kind == Some(StatKind::File) ==> r == PathAction::Keep,
        !is_stdin && kind == Some(StatKind::Other) ==> r == PathAction::Skip,
{
    if is_stdin {
        PathAction::Keep
    } else {
        match kind {
            None => PathAction::StatError,
            Some(StatKind::Dir) => {
                if recursive {
                    PathAction::Walk
                } else {
                    PathAction::DirError
                }
            },
            Some(StatKind::File) => PathAction::Keep,
            Some(StatKind::Other) => PathAction::Skip,
        }
    }
}

/// The message for a directory named in a non-recursive search.
pub fn dir_error_msg(path: &str) -> (r: String)
    ensures
        r@ == path@ + " is a directory"@,
{
    String::from_str(path).concat(" is a directory")
}

} // verus!
