//! The paths of files in a project.
use vstd::prelude::*;
use vstd::string::*;

use crate::pattern;

verus! {

/// The parts of `path` between its slashes. Empty parts do not count, nor does a `.` that does not
/// come first.
pub open spec fn path_names(path: Seq<char>, first: bool) -> Seq<Seq<char>>
    decreases path.len(),
{
    let cut = pattern::first_index(path, '/');
    if 0 <= cut < path.len() {
        name_at(path.take(cut), first) + path_names(path.skip(cut + 1), false)
    } else {
        name_at(path, first)
    }
}

/// `part` as a list, if it counts.
pub open spec fn name_at(part: Seq<char>, first: bool) -> Seq<Seq<char>> {
    if part.len() == 0 || (part == seq!['.'] && !first) {
        seq![]
    } else {
        seq![part]
    }
}

/// What a path names: the root, if the path starts there, and then its parts.
pub open spec fn path_components(path: Seq<char>) -> Seq<Seq<char>> {
    if path.len() > 0 && path[0] == '/' {
        seq![seq!['/']] + path_names(path, true)
    } else {
        path_names(path, true)
    }
}

/// Whether `path` is read alike on every platform: only slashes separate its parts, and it starts
/// with no drive, device or server.
pub open spec fn is_portable(path: Seq<char>) -> bool {
    &&& !path.contains('\\')
    &&& !(path.len() >= 2 && path[1] == ':')
    &&& !(path.len() >= 2 && path[0] == '/' && path[1] == '/')
}

/// Whether a platform may answer `same` when it is asked whether two paths are the same. A path is
/// the same as itself, and portable paths are compared by their components.
pub open spec fn may_compare(a: Seq<char>, b: Seq<char>, same: bool) -> bool {
    &&& a == b ==> same
    &&& is_portable(a) && is_portable(b) ==> same == (path_components(a) == path_components(b))
}

/// Whether two paths are the same: the `==` of `std::path::Path`.
///
/// Trusted: it compares the components of the paths, as `Path::components` documents them. What
/// separates components, and what a path may start with, differs from platform to platform, so of
/// paths that are not portable only this is claimed: each is the same as itself.
#[verifier::external_body]
pub(crate) fn same_path(a: &str, b: &str) -> (r: bool)
    ensures
        may_compare(a@, b@, r),
{
    std::path::Path::new(a) == std::path::Path::new(b)
}

/// A path as `std::path::Path` shows it for debugging: in quotes, with escapes.
pub uninterp spec fn debug_path(path: Seq<char>) -> Seq<char>;

/// Quotes a path: the `Debug` of `std::path::Path`.
///
/// Trusted: what comes out is a function of the path alone. Which characters are escaped is left
/// to the standard library.
#[verifier::external_body]
pub(crate) fn quote_path(path: &str) -> (r: String)
    ensures
        r@ == debug_path(path@),
{
    format!("{:?}", std::path::Path::new(path))
}

} // verus!
