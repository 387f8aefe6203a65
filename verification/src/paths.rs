//! Unix paths as text, taken apart and put together as `std::path` does.

use vstd::prelude::*;

use crate::text::{ends_with, ends_with_char, starts_with, starts_with_char, text_opt};

verus! {

/// The path without its final component.
pub uninterp spec fn parent_of(p: Seq<char>) -> Option<Seq<char>>;

/// The final component of a path.
pub uninterp spec fn file_name_of(p: Seq<char>) -> Option<Seq<char>>;

/// The first component of a path.
pub uninterp spec fn first_component_of(p: Seq<char>) -> Option<Seq<char>>;

/// The part of a path below a base.
pub uninterp spec fn below(p: Seq<char>, base: Seq<char>) -> Option<Seq<char>>;

/// A path continued by another: one that starts at the root replaces it, and
/// else there is a slash between them.
pub open spec fn joined(base: Seq<char>, rest: Seq<char>) -> Seq<char> {
    if starts_with(rest, '/') {
        rest
    } else if base.len() == 0 || ends_with(base, '/') {
        base + rest
    } else {
        base + "/"@ + rest
    }
}

/// Whether two texts name the same path.
pub uninterp spec fn same_components(a: Seq<char>, b: Seq<char>) -> bool;

/// The extension of the final component.
pub uninterp spec fn extension_of(p: Seq<char>) -> Option<Seq<char>>;

/// `Path::parent`, on the text of a Unix path.
#[verifier::external_body]
pub(crate) fn parent(p: &str) -> (r: Option<String>)
    ensures
        text_opt(r) == parent_of(p@),
{
    std::path::Path::new(p).parent().map(|x| x.to_string_lossy().into_owned())
}

/// `Path::file_name`, on the text of a Unix path.
#[verifier::external_body]
pub(crate) fn file_name(p: &str) -> (r: Option<String>)
    ensures
        text_opt(r) == file_name_of(p@),
{
    std::path::Path::new(p).file_name().map(|x| x.to_string_lossy().into_owned())
}

/// The first item of `Path::components`, on the text of a Unix path.
#[verifier::external_body]
pub(crate) fn first_component(p: &str) -> (r: Option<String>)
    ensures
        text_opt(r) == first_component_of(p@),
{
    std::path::Path::new(p).components().next().map(|x| x.as_os_str().to_string_lossy().into_owned())
}

/// `Path::strip_prefix`, on the texts of two Unix paths; `None` where it fails.
#[verifier::external_body]
pub(crate) fn strip_prefix(p: &str, base: &str) -> (r: Option<String>)
    ensures
        text_opt(r) == below(p@, base@),
{
    std::path::Path::new(p).strip_prefix(base).ok().map(|x| x.to_string_lossy().into_owned())
}

/// A path continued by another.
pub(crate) fn join(base: &str, rest: &str) -> (r: String)
    ensures
        r@ == joined(base@, rest@),
{
    if starts_with_char(rest, '/') {
        return rest.to_owned();
    }
    let mut s = base.to_owned();
    if base.unicode_len() > 0 && !ends_with_char(base, '/') {
        s.append("/");
    }
    s.append(rest);
    s
}

/// The equality of `Path`, on the texts of two Unix paths. Equal texts are
/// equal paths.
#[verifier::external_body]
pub(crate) fn same_path(a: &str, b: &str) -> (r: bool)
    ensures
        r == same_components(a@, b@),
        a@ == b@ ==> r,
{
    std::path::Path::new(a) == std::path::Path::new(b)
}

/// `Path::extension`, on the text of a Unix path.
#[verifier::external_body]
pub(crate) fn extension(p: &str) -> (r: Option<String>)
    ensures
        text_opt(r) == extension_of(p@),
{
    std::path::Path::new(p).extension().map(|x| x.to_string_lossy().into_owned())
}

/// The name shown for a path: its final component, or all of it where it has
/// none.
pub open spec fn shown_name(p: Seq<char>) -> Seq<char> {
    match file_name_of(p) {
        Some(n) => n,
        None => p,
    }
}

/// The name shown for `p`.
pub fn name_of(p: &str) -> (r: String)
    ensures
        r@ == shown_name(p@),
{
    match file_name(p) {
        Some(n) => n,
        None => p.to_owned(),
    }
}

/// `p` relative to `root`, or `p` itself where it does not lie below.
pub open spec fn relative_text(p: Seq<char>, root: Seq<char>) -> Seq<char> {
    match below(p, root) {
        Some(r) => r,
        None => p,
    }
}

/// `p` relative to `root`.
pub fn relative_path(p: &str, root: &str) -> (r: String)
    ensures
        r@ == relative_text(p@, root@),
{
    match strip_prefix(p, root) {
        Some(r) => r,
        None => p.to_owned(),
    }
}

/// Whether both paths are there and are the same.
pub fn path_eq(a: Option<&str>, b: Option<&str>) -> (r: bool)
    ensures
        r == (a is Some && b is Some && same_components(a->0@, b->0@)),
{
    match (a, b) {
        (Some(x), Some(y)) => same_path(x, y),
        _ => false,
    }
}

} // verus!
