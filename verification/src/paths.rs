//! Relative paths recorded in session artefacts.
//!
//! A path is read as the platform reads it: Windows parts components at `\\` as
//! well as at `/`, and knows drives.

use vstd::prelude::*;

use crate::text;

verus! {

/// A character at which a platform parts the components of a path.
pub open spec fn separates(c: char, windows: bool) -> bool {
    c == '/' || (windows && c == '\\')
}

/// A path starts with a drive, such as `C:`.
pub open spec fn starts_at_drive(path: Seq<char>) -> bool {
    &&& path.len() >= 2
    &&& 'a' <= path[0] <= 'z' || 'A' <= path[0] <= 'Z'
    &&& path[1] == ':'
}

/// A path component `..` starts at an index.
pub open spec fn parent_at(path: Seq<char>, index: int, windows: bool) -> bool {
    &&& 0 <= index && index + 1 < path.len()
    &&& index == 0 || separates(path[index - 1], windows)
    &&& path[index] == '.'
    &&& path[index + 1] == '.'
    &&& index + 2 == path.len() || separates(path[index + 2], windows)
}

/// A path that names something below the directory it is joined to: it is not
/// empty, does not start at the root, at a drive or at `.`, and never steps to
/// a parent.
pub open spec fn contained(path: Seq<char>, windows: bool) -> bool {
    &&& path.len() > 0
    &&& !separates(path[0], windows)
    &&& !(windows && starts_at_drive(path))
    &&& !(path[0] == '.' && (path.len() == 1 || separates(path[1], windows)))
    &&& forall|index: int| 0 <= index < path.len() ==> !#[trigger] parent_at(path, index, windows)
}

fn is_separator(c: char, windows: bool) -> (result: bool)
    ensures
        result == separates(c, windows),
{
    c == '/' || (windows && c == '\\')
}

/// Whether a recorded path stays within the directory it is joined to.
pub fn is_contained(path: &str, windows: bool) -> (result: bool)
    ensures
        result == contained(path@, windows),
{
    let all = text::characters(path);
    if all.len() == 0 || is_separator(all[0], windows) {
        return false;
    }
    if windows && all.len() >= 2 && (('a' <= all[0] && all[0] <= 'z') || ('A' <= all[0] && all[0]
        <= 'Z')) && all[1] == ':' {
        return false;
    }
    if all[0] == '.' && (all.len() == 1 || is_separator(all[1], windows)) {
        return false;
    }
    let mut index: usize = 0;
    while index < all.len()
        invariant
            index <= all.len(),
            all@ == path@,
            forall|i: int| 0 <= i < index ==> !#[trigger] parent_at(path@, i, windows),
        decreases all.len() - index,
    {
        if index + 1 < all.len() && (index == 0 || is_separator(all[index - 1], windows))
            && all[index] == '.' && all[index + 1] == '.' && (index + 2 == all.len()
            || is_separator(all[index + 2], windows)) {
            assert(parent_at(path@, index as int, windows));
            return false;
        }
        assert(!parent_at(path@, index as int, windows));
        index = index + 1;
    }
    true
}

} // verus!
