//! Versions and version requirements, as the `semver` crate reads them.
//!
//! The library holds versions and requirements as text. What a text means
//! is decided by `semver` alone: the three functions at the end of this
//! file ask it, and their contracts are believed, not proved. Each gives
//! the answer of `semver` a name, by which the rest of the library speaks
//! of it.

use vstd::prelude::*;

verus! {

/// Whether `semver::Version::parse` accepts the text as a version.
pub uninterp spec fn is_version(text: Seq<char>) -> bool;

/// What `semver::VersionReq::matches` answers for the requirement and the
/// version that `semver` reads from the two texts; `None` where it rejects
/// one of the texts.
pub uninterp spec fn requirement_verdict(requirement: Seq<char>, version: Seq<char>) -> Option<
    bool,
>;

/// Whether the version that `semver` reads from `a` is greater, by the `>`
/// of `semver::Version`, than the one it reads from `b`; `None` where it
/// rejects one of the texts.
pub uninterp spec fn order_verdict(a: Seq<char>, b: Seq<char>) -> Option<bool>;

/// Whether the version satisfies the requirement. A text that `semver`
/// rejects satisfies nothing, and nothing satisfies it.
pub open spec fn requirement_admits(requirement: Seq<char>, version: Seq<char>) -> bool {
    requirement_verdict(requirement, version) == Some(true)
}

/// Whether `semver` reads both texts as versions and orders the version
/// `a` after the version `b`.
pub open spec fn ordered_after(a: Seq<char>, b: Seq<char>) -> bool {
    order_verdict(a, b) == Some(true)
}

/// Whether the version `a` is greater than the version `b`: the two texts
/// differ, and `semver` orders `a` after `b`. A text that `semver` rejects
/// is neither greater nor less than anything, and no version is greater
/// than itself.
pub open spec fn version_exceeds(a: Seq<char>, b: Seq<char>) -> bool {
    a != b && ordered_after(a, b)
}

/// Asks `semver::Version::parse` whether the text is a version.
#[verifier::external_body]
pub(crate) fn parses_as_version(text: &str) -> (r: bool)
    ensures
        r == is_version(text@),
{
    semver::Version::parse(text).is_ok()
}

/// Asks `semver::VersionReq::matches` whether the version satisfies the
/// requirement, both read from text by `semver::VersionReq::parse` and
/// `semver::Version::parse`. There is no answer where one of the texts is
/// rejected.
#[verifier::external_body]
pub(crate) fn satisfies(requirement: &str, version: &str) -> (r: Option<bool>)
    ensures
        r == requirement_verdict(requirement@, version@),
{
    match (semver::VersionReq::parse(requirement), semver::Version::parse(version)) {
        (Ok(requirement), Ok(version)) => Some(requirement.matches(&version)),
        _ => None,
    }
}

/// Asks `semver` whether the version `a` is greater than the version `b`,
/// by the `>` of `semver::Version`, both read from text by
/// `semver::Version::parse`. There is no answer where one of the texts is
/// rejected. The order of versions is total, as `semver` documents:
/// a version that is greater than `b` is greater than every version that
/// is not greater than `b`, and none of these is greater than it.
#[verifier::external_body]
pub(crate) fn exceeds(a: &str, b: &str) -> (r: Option<bool>)
    ensures
        r == order_verdict(a@, b@),
        r == Some(true) ==> !ordered_after(b@, a@),
        r == Some(true) ==> forall|c: Seq<char>|
            is_version(c) && !#[trigger] ordered_after(c, b@) ==> ordered_after(a@, c)
                && !ordered_after(c, a@),
{
    match (semver::Version::parse(a), semver::Version::parse(b)) {
        (Ok(a), Ok(b)) => Some(a > b),
        _ => None,
    }
}

} // verus!
