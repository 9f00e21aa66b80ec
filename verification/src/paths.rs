//! The `std::path` operations that locate test and snapshot files, and the
//! one question asked of the disk: whether a path exists.
//!
//! Path syntax (components, separators, `.` and `..`) takes pages to state,
//! so the result of each pure path operation is given a name below, applied
//! to the characters of its arguments; `std::path::Path` computes it. The
//! stem and the extension are stated over the file name, by the documented
//! rule on its last `.`.

use vstd::prelude::*;

verus! {

/// What `Path::file_name` gives for the path `p`.
pub uninterp spec fn spec_file_name(p: Seq<char>) -> Option<Seq<char>>;

/// The position of the last `.` in `name`, if it has one.
pub open spec fn last_dot(name: Seq<char>) -> Option<int>
    decreases name.len(),
{
    if name.len() == 0 {
        None
    } else if name.last() == '.' {
        Some(name.len() - 1)
    } else {
        last_dot(name.drop_last())
    }
}

/// The stem of a file name, as `Path::file_stem` documents it: the whole name
/// when it has no `.`, or only a leading one; otherwise the part before the
/// last `.`.
pub open spec fn stem_of_name(name: Seq<char>) -> Seq<char> {
    match last_dot(name) {
        Some(k) => if k > 0 {
            name.subrange(0, k)
        } else {
            name
        },
        None => name,
    }
}

/// The extension of a file name, as `Path::extension` documents it: none
/// when the name has no `.`, or only a leading one; otherwise the part after
/// the last `.`.
pub open spec fn extension_of_name(name: Seq<char>) -> Option<Seq<char>> {
    match last_dot(name) {
        Some(k) => if k > 0 {
            Some(name.subrange(k + 1, name.len() as int))
        } else {
            None
        },
        None => None,
    }
}

/// What `Path::file_stem` gives for the path `p`: the stem of its file name.
pub open spec fn spec_file_stem(p: Seq<char>) -> Option<Seq<char>> {
    match spec_file_name(p) {
        Some(n) => Some(stem_of_name(n)),
        None => None,
    }
}

/// What `Path::extension` gives for the path `p`: the extension of its file name.
pub open spec fn spec_extension(p: Seq<char>) -> Option<Seq<char>> {
    match spec_file_name(p) {
        Some(n) => extension_of_name(n),
        None => None,
    }
}

/// What `Path::parent` gives for the path `p`.
pub uninterp spec fn spec_parent(p: Seq<char>) -> Option<Seq<char>>;

/// What `Path::join` gives for the path `base` and the path `rest`.
pub uninterp spec fn spec_join_path(base: Seq<char>, rest: Seq<char>) -> Seq<char>;

/// What `Path::strip_prefix` gives for the path `p` and the prefix `base`.
pub uninterp spec fn spec_strip_path_prefix(p: Seq<char>, base: Seq<char>) -> Option<Seq<char>>;

/// What `Path::ends_with` gives for the path `p` and the path `child`.
pub uninterp spec fn spec_path_ends_with(p: Seq<char>, child: Seq<char>) -> bool;

/// `Path::file_name`, as text.
#[verifier::external_body]
pub(crate) fn file_name(p: &str) -> (r: Option<String>)
    ensures
        r is None <==> spec_file_name(p@) is None,
        r is Some ==> spec_file_name(p@) == Some(r->0@),
{
    std::path::Path::new(p).file_name().and_then(|n| n.to_str()).map(|n| n.to_string())
}

/// `Path::file_stem`, as text: the stem of the file name (see [`stem_of_name`]).
#[verifier::external_body]
pub(crate) fn file_stem(p: &str) -> (r: Option<String>)
    ensures
        r is None <==> spec_file_stem(p@) is None,
        r is Some ==> spec_file_stem(p@) == Some(r->0@),
{
    std::path::Path::new(p).file_stem().and_then(|n| n.to_str()).map(|n| n.to_string())
}

/// `Path::extension`, as text: the extension of the file name (see [`extension_of_name`]).
#[verifier::external_body]
pub(crate) fn extension(p: &str) -> (r: Option<String>)
    ensures
        r is None <==> spec_extension(p@) is None,
        r is Some ==> spec_extension(p@) == Some(r->0@),
{
    std::path::Path::new(p).extension().and_then(|n| n.to_str()).map(|n| n.to_string())
}

/// `Path::parent`, as text.
#[verifier::external_body]
pub(crate) fn parent(p: &str) -> (r: Option<String>)
    ensures
        r is None <==> spec_parent(p@) is None,
        r is Some ==> spec_parent(p@) == Some(r->0@),
{
    std::path::Path::new(p).parent().and_then(|n| n.to_str()).map(|n| n.to_string())
}

/// `Path::join`, as text.
#[verifier::external_body]
pub(crate) fn join_path(base: &str, rest: &str) -> (r: String)
    ensures
        r@ == spec_join_path(base@, rest@),
{
    std::path::Path::new(base).join(rest).to_string_lossy().into_owned()
}

/// `Path::strip_prefix`, as text.
#[verifier::external_body]
pub(crate) fn strip_path_prefix(p: &str, base: &str) -> (r: Option<String>)
    ensures
        r is None <==> spec_strip_path_prefix(p@, base@) is None,
        r is Some ==> spec_strip_path_prefix(p@, base@) == Some(r->0@),
{
    std::path::Path::new(p).strip_prefix(base).ok().and_then(|n| n.to_str()).map(|n| n.to_string())
}

/// `Path::ends_with`: `child`'s components are the last components of `p`.
#[verifier::external_body]
pub(crate) fn path_ends_with(p: &str, child: &str) -> (r: bool)
    ensures
        r == spec_path_ends_with(p@, child@),
{
    std::path::Path::new(p).ends_with(child)
}

/// `Path::exists`: whether the file system has something at `p` now. Its
/// answer depends on the disk, so nothing is stated about it.
#[verifier::external_body]
pub(crate) fn path_exists(p: &str) -> bool {
    std::path::Path::new(p).exists()
}

} // verus!
