//! Paths, as `std::path` reads them.
//!
//! The library holds directories by name and leaves what a name means as
//! a path to `std::path`: the two functions at the end of this file ask
//! it. Their contracts are believed, not proved; each gives the answer a
//! name, and claims no more than that the answer depends on the texts
//! alone.

use vstd::prelude::*;

verus! {

/// What `std::path::Path::parent` gives for the path that a text names:
/// the path without its last component, as text, if there is one.
pub uninterp spec fn path_parent(path: Seq<char>) -> Option<Seq<char>>;

/// What `std::path::Path::join` gives for the paths that two texts name:
/// the second path adjoined to the first, as text.
pub uninterp spec fn path_join(base: Seq<char>, name: Seq<char>) -> Seq<char>;

/// Asks `std::path::Path::parent` for the path without its last
/// component.
#[verifier::external_body]
pub(crate) fn parent_of(path: &str) -> (r: Option<String>)
    ensures
        match r {
            Some(parent) => path_parent(path@) == Some(parent@),
            None => path_parent(path@).is_none(),
        },
{
    match std::path::Path::new(path).parent() {
        Some(parent) => Some(parent.to_string_lossy().into_owned()),
        None => None,
    }
}

/// Asks `std::path::Path::join` for the path of `name` adjoined to `base`.
#[verifier::external_body]
pub(crate) fn joined_path(base: &str, name: &str) -> (r: String)
    ensures
        r@ == path_join(base@, name@),
{
    std::path::Path::new(base).join(name).to_string_lossy().into_owned()
}

} // verus!
