//! File-system paths, as `std::path::Path` takes them apart.
use vstd::prelude::*;

verus! {

/// The extension of the last component of the path `p`, as
/// `std::path::Path::extension` finds it.
pub uninterp spec fn path_extension(p: Seq<char>) -> Option<Seq<char>>;

/// The path `p` without its last component, as `std::path::Path::parent`
/// finds it (`None` for a root or an empty path).
pub uninterp spec fn path_parent(p: Seq<char>) -> Option<Seq<char>>;

/// Calls `std::path::Path::extension` on `p` and takes the result as text
/// (a path made from a `&str` is valid Unicode, so nothing is lost). The
/// contract names the result `path_extension(p@)` and claims nothing else.
#[verifier::external_body]
pub(crate) fn extension_of(p: &str) -> (r: Option<String>)
    ensures
        r.deep_view() == path_extension(p@),
{
    match std::path::Path::new(p).extension() {
        Some(e) => match e.to_str() {
            Some(s) => Some(s.to_string()),
            None => None,
        },
        None => None,
    }
}

/// Calls `std::path::Path::parent` on `p` and takes the result as text (a
/// path made from a `&str` is valid Unicode, so nothing is lost). The
/// contract names the result `path_parent(p@)` and claims nothing else.
#[verifier::external_body]
pub(crate) fn parent_of(p: &str) -> (r: Option<String>)
    ensures
        r.deep_view() == path_parent(p@),
{
    match std::path::Path::new(p).parent() {
        Some(d) => match d.to_str() {
            Some(s) => Some(s.to_string()),
            None => None,
        },
        None => None,
    }
}

} // verus!
