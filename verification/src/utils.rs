//! Package specs and the index of installed packages.

use crate::text::{
    after, before, find_char, first_index, has_prefix, is_first_index, joined, lemma_first_index,
    lemma_first_index_exists, same_text, slice_of, to_chars,
};
use crate::version::{
    exceeds, is_version, ordered_after, parses_as_version, requirement_admits, satisfies,
    version_exceeds,
};
use vstd::prelude::*;

verus! {

/// The name of the directory, inside a directory of installed packages,
/// that holds one directory per installed package version.
pub const INDEX_DIR: &'static str = "_Index";

/// A package spec: `scope/name`, with a version requirement after `@` if
/// there is one.
#[derive(Clone, Debug)]
pub struct PackageSpec {
    pub scope: String,
    pub name: String,
    pub version_requirement: Option<String>,
}

/// What a package spec says.
pub struct SpecText {
    pub scope: Seq<char>,
    pub name: Seq<char>,
    pub requirement: Option<Seq<char>>,
}

impl View for PackageSpec {
    type V = SpecText;

    open spec fn view(&self) -> SpecText {
        SpecText {
            scope: self.scope@,
            name: self.name@,
            requirement: match self.version_requirement {
                Some(r) => Some(r@),
                None => None,
            },
        }
    }
}

/// Why a text is no package spec.
#[derive(Copy, Clone, PartialEq, Eq, Debug)]
pub enum SpecError {
    /// The text has no `/`: it names no scope.
    NoScope,
    /// The text has more than one `/`.
    ExtraSlash,
}

/// What a text says as a package spec. A spec has exactly one `/`: the
/// scope stands before it. What follows is the name, up to the first `@` if
/// there is one; what follows that `@` is the version requirement.
pub open spec fn parse_spec(text: Seq<char>) -> Result<SpecText, SpecError> {
    match after(text, '/') {
        None => Err(SpecError::NoScope),
        Some(rest) => if rest.contains('/') {
            Err(SpecError::ExtraSlash)
        } else {
            Ok(
                SpecText {
                    scope: before(text, '/'),
                    name: before(rest, '@'),
                    requirement: after(rest, '@'),
                },
            )
        },
    }
}

impl PackageSpec {
    /// Reads a package spec. Every text either is a spec or fails for one
    /// reason: it has no `/`, or more than one.
    pub fn parse(text: &str) -> (r: Result<PackageSpec, SpecError>)
        ensures
            match r {
                Ok(spec) => parse_spec(text@) == Ok::<SpecText, SpecError>(spec@),
                Err(error) => parse_spec(text@) == Err::<SpecText, SpecError>(error),
            },
    {
        let chars = to_chars(text);
        let n: usize = chars.len();
        let slash = find_char(&chars, '/', 0);
        assert(chars@.skip(0) =~= text@);
        if slash == n {
            return Err(SpecError::NoScope);
        }
        let ghost rest = text@.skip(slash + 1);
        let second = find_char(&chars, '/', slash + 1);
        if second != n {
            assert(rest[second - (slash + 1)] == '/');
            return Err(SpecError::ExtraSlash);
        }
        assert(!rest.contains('/')) by {
            if rest.contains('/') {
                let k = choose|k: int| 0 <= k < rest.len() && rest[k] == '/';
                assert(chars@.skip(slash + 1)[k] == '/');
            }
        }
        let at = find_char(&chars, '@', slash + 1);
        let scope = slice_of(text, 0, slash);
        let name = slice_of(text, slash + 1, at);
        let version_requirement = if at < n {
            Some(slice_of(text, at + 1, n))
        } else {
            None
        };
        proof {
            assert(scope@ =~= before(text@, '/'));
            assert(name@ =~= before(rest, '@'));
            if at < n {
                assert(text@.subrange(at + 1, n as int) =~= rest.skip(at - (slash + 1) + 1));
            }
        }
        Ok(PackageSpec { scope, name, version_requirement })
    }
}

/// What was found where the index of a directory of installed packages
/// should be.
#[derive(Clone, Debug)]
pub enum IndexListing {
    /// There is no index.
    Absent,
    /// There is an index, and it cannot be read.
    Unreadable,
    /// The names of the entries of the index.
    Entries(Vec<String>),
}

impl View for IndexListing {
    type V = Seq<Seq<char>>;

    /// The names of the entries; none where the index is absent or cannot
    /// be read.
    open spec fn view(&self) -> Seq<Seq<char>> {
        match self {
            IndexListing::Entries(names) => names.deep_view(),
            _ => Seq::empty(),
        }
    }
}

/// How the name of an index entry of the package begins: scope, `_`, name.
pub open spec fn entry_prefix(spec: SpecText) -> Seq<char> {
    spec.scope.push('_') + spec.name
}

/// The version that an entry name gives: what follows its first `@`.
pub open spec fn entry_version(entry: Seq<char>) -> Seq<char> {
    entry.skip(first_index(entry, '@') + 1)
}

/// Whether a version meets a requirement. A requirement that is itself a
/// version is met by that version alone; any other requirement is met by
/// the versions that satisfy it as a range.
pub open spec fn meets(requirement: Seq<char>, version: Seq<char>) -> bool {
    if is_version(requirement) {
        version == requirement
    } else {
        requirement_admits(requirement, version)
    }
}

/// Whether an index entry is an entry of the package: its name begins as
/// the entries of the package do and holds an `@`.
pub open spec fn is_entry_of(spec: SpecText, entry: Seq<char>) -> bool {
    &&& entry_prefix(spec).is_prefix_of(entry)
    &&& first_index(entry, '@') < entry.len()
}

/// Whether an index entry is an installed version of the package that the
/// spec allows: it is an entry of the package, what follows its `@` is a
/// version, and that version meets the requirement of the spec, if it has
/// one.
pub open spec fn is_candidate(spec: SpecText, entry: Seq<char>) -> bool {
    &&& is_entry_of(spec, entry)
    &&& is_version(entry_version(entry))
    &&& match spec.requirement {
        Some(requirement) => meets(requirement, entry_version(entry)),
        None => true,
    }
}

/// Whether entry `i` is the one to take: it is a candidate, no other
/// candidate has a greater version, and its version is greater than that of
/// every candidate before it.
pub open spec fn is_best(spec: SpecText, entries: Seq<Seq<char>>, i: int) -> bool {
    &&& 0 <= i < entries.len()
    &&& is_candidate(spec, entries[i])
    &&& forall|j: int|
        0 <= j < entries.len() && j != i && is_candidate(spec, #[trigger] entries[j])
            ==> !version_exceeds(entry_version(entries[j]), entry_version(entries[i]))
    &&& forall|j: int|
        0 <= j < i && is_candidate(spec, #[trigger] entries[j]) ==> version_exceeds(
            entry_version(entries[i]),
            entry_version(entries[j]),
        )
}

/// At most one entry is the one to take.
pub proof fn lemma_best_is_unique(spec: SpecText, entries: Seq<Seq<char>>, i: int, k: int)
    requires
        is_best(spec, entries, i),
        is_best(spec, entries, k),
    ensures
        i == k,
{
}

/// The entry to take for a spec among the entries of an index, if any.
pub open spec fn best_entry(spec: SpecText, entries: Seq<Seq<char>>) -> Option<int> {
    if exists|i: int| is_best(spec, entries, i) {
        Some(choose|i: int| is_best(spec, entries, i))
    } else {
        None
    }
}

/// The name of the index entry that a package spec resolves to, if any.
pub open spec fn found(entries: Seq<Seq<char>>, text: Seq<char>) -> Option<Seq<char>> {
    match parse_spec(text) {
        Err(_) => None,
        Ok(spec) => match best_entry(spec, entries) {
            Some(i) => Some(entries[i]),
            None => None,
        },
    }
}

/// The entry to keep when entry `entry` comes up, `best` being the entry
/// kept so far: the new entry when it is allowed and either is the first
/// such or has a greater version than the one kept; else the one kept.
pub open spec fn kept(best: Option<usize>, entry: usize, allowed: bool, greater: bool) -> Option<
    usize,
> {
    if allowed && (best.is_none() || greater) {
        Some(entry)
    } else {
        best
    }
}

/// Decides which entry to keep when entry `entry` comes up: `allowed` says
/// whether it is a candidate, `greater` whether its version is greater than
/// that of `best`, the entry kept so far.
pub fn keep_best(best: Option<usize>, entry: usize, allowed: bool, greater: bool) -> (r: Option<
    usize,
>)
    ensures
        r == kept(best, entry, allowed, greater),
{
    if allowed && (best.is_none() || greater) {
        Some(entry)
    } else {
        best
    }
}

/// Whether the entry kept is entry `entry`.
fn is_entry(kept: Option<usize>, entry: usize) -> (r: bool)
    ensures
        r == (kept == Some(entry)),
{
    match kept {
        Some(k) => k == entry,
        None => false,
    }
}

/// Picks, among the entries of an index, the installed version of a
/// package to take: the candidate with the greatest version, the first of
/// them where several are equally great. `None` when there is no candidate.
pub fn locate(entries: &Vec<String>, spec: &PackageSpec) -> (r: Option<usize>)
    ensures
        match r {
            Some(i) => is_best(spec@, entries.deep_view(), i as int) && best_entry(
                spec@,
                entries.deep_view(),
            ) == Some(i as int),
            None => best_entry(spec@, entries.deep_view()).is_none() && forall|j: int|
                0 <= j < entries.len() ==> !is_candidate(spec@, #[trigger] entries.deep_view()[j]),
        },
{
    let prefix = joined(spec.scope.as_str(), '_', spec.name.as_str());
    let ghost names = entries.deep_view();
    let n: usize = entries.len();
    let mut best: Option<usize> = None;
    let mut greatest = String::new();
    let mut i: usize = 0;
    while i < n
        invariant
            n == entries.len(),
            names == entries.deep_view(),
            i <= n,
            prefix@ == entry_prefix(spec@),
            match best {
                None => forall|j: int| 0 <= j < i ==> !is_candidate(spec@, #[trigger] names[j]),
                Some(b) => {
                    &&& b < i
                    &&& is_candidate(spec@, names[b as int])
                    &&& greatest@ == entry_version(names[b as int])
                    &&& forall|j: int|
                        0 <= j < i && j != b && is_candidate(spec@, #[trigger] names[j])
                            ==> !version_exceeds(entry_version(names[j]), greatest@)
                    &&& forall|j: int|
                        0 <= j < b && is_candidate(spec@, #[trigger] names[j]) ==> version_exceeds(
                            greatest@,
                            entry_version(names[j]),
                        )
                },
            },
        decreases n - i,
    {
        let entry = entries[i].as_str();
        assert(entry@ == names[i as int]);
        let version = candidate_version(entry, &prefix, spec);
        let greater = match &version {
            Some(version) => best.is_some() && is_greater(version.as_str(), greatest.as_str()),
            None => false,
        };
        let keep = keep_best(best, i, version.is_some(), greater);
        if is_entry(keep, i) {
            match version {
                Some(version) => {
                    proof {
                        if let Some(b) = best {
                            assert forall|j: int|
                                0 <= j < i && is_candidate(spec@, #[trigger] names[j]) implies {
                                &&& !version_exceeds(entry_version(names[j]), version@)
                                &&& version_exceeds(version@, entry_version(names[j]))
                            } by {
                                if j != b {
                                    assert(!version_exceeds(entry_version(names[j]), greatest@));
                                }
                            }
                        }
                    }
                    greatest = version;
                },
                None => {},
            }
        }
        best = keep;
        i = i + 1;
    }
    proof {
        match best {
            None => {
                if exists|k: int| is_best(spec@, names, k) {
                    let k = choose|k: int| is_best(spec@, names, k);
                    assert(is_candidate(spec@, names[k]));
                }
            },
            Some(b) => {
                assert(is_best(spec@, names, b as int));
                let k = choose|k: int| is_best(spec@, names, k);
                lemma_best_is_unique(spec@, names, b as int, k);
            },
        }
    }
    best
}

/// The version of an index entry, if the entry is a candidate for the spec.
fn candidate_version(entry: &str, prefix: &Vec<char>, spec: &PackageSpec) -> (r: Option<String>)
    requires
        prefix@ == entry_prefix(spec@),
    ensures
        match r {
            Some(version) => is_candidate(spec@, entry@) && version@ == entry_version(entry@),
            None => !is_candidate(spec@, entry@),
        },
{
    let chars = to_chars(entry);
    if !has_prefix(&chars, prefix) {
        return None;
    }
    let at = find_char(&chars, '@', 0);
    assert(chars@.skip(0) =~= entry@);
    if at == chars.len() {
        return None;
    }
    let version = slice_of(entry, at + 1, chars.len());
    if !parses_as_version(version.as_str()) {
        return None;
    }
    let admitted = match &spec.version_requirement {
        Some(requirement) => version_meets(requirement.as_str(), version.as_str()),
        None => true,
    };
    if admitted {
        Some(version)
    } else {
        None
    }
}

/// Whether a version meets a requirement: a requirement that is itself a
/// version asks for exactly that version; any other is read as a range. A
/// requirement that is neither is met by nothing.
pub fn version_meets(requirement: &str, version: &str) -> (r: bool)
    ensures
        r == meets(requirement@, version@),
{
    if parses_as_version(requirement) {
        same_text(version, requirement)
    } else {
        match satisfies(requirement, version) {
            Some(verdict) => verdict,
            None => false,
        }
    }
}

/// Whether the version `a` is greater than the version `b`. A text that is
/// no version is not greater than anything, and nothing is greater than it.
fn is_greater(a: &str, b: &str) -> (r: bool)
    ensures
        r == version_exceeds(a@, b@),
        r ==> !version_exceeds(b@, a@),
        r ==> forall|c: Seq<char>|
            is_version(c) && !#[trigger] version_exceeds(c, b@) ==> version_exceeds(a@, c)
                && !version_exceeds(c, a@),
{
    if same_text(a, b) {
        return false;
    }
    let r = match exceeds(a, b) {
        Some(verdict) => verdict,
        None => false,
    };
    proof {
        if r {
            assert forall|c: Seq<char>|
                is_version(c) && !#[trigger] version_exceeds(c, b@) implies version_exceeds(a@, c)
                && !version_exceeds(c, a@) by {
                if c != b@ {
                    assert(!ordered_after(c, b@));
                }
            }
        }
    }
    r
}

/// Finds the installed version of a package to vendor: the index entry
/// with the greatest version among those that the spec allows. `None` when
/// the text is no package spec, when the index is absent or cannot be read,
/// and when no entry is allowed.
pub fn find_wally_package(index: &IndexListing, package_spec: &str) -> (r: Option<String>)
    ensures
        match r {
            Some(name) => found(index@, package_spec@) == Some(name@),
            None => found(index@, package_spec@).is_none(),
        },
        match r {
            Some(name) => parse_spec(package_spec@) matches Ok(spec) && exists|i: int|
                is_best(spec, index@, i) && index@[i] == name@,
            None => parse_spec(package_spec@) matches Ok(spec) ==> forall|j: int|
                0 <= j < index@.len() ==> !is_candidate(spec, #[trigger] index@[j]),
        },
{
    let spec = match PackageSpec::parse(package_spec) {
        Ok(spec) => spec,
        Err(_) => {
            return None;
        },
    };
    match index {
        IndexListing::Entries(entries) => match locate(entries, &spec) {
            Some(i) => Some(entries[i].clone()),
            None => None,
        },
        _ => {
            assert(best_entry(spec@, index@).is_none());
            None
        },
    }
}

/// Whether an index entry is the entry of the package at a version: it is
/// an entry of the package, and what follows its `@` is that version.
pub open spec fn is_entry_at(spec: SpecText, entry: Seq<char>, version: Seq<char>) -> bool {
    is_entry_of(spec, entry) && entry_version(entry) == version
}

/// A requirement that is itself a version takes the entry of exactly that
/// version, whatever else is installed: the first entry of the package at
/// that version is the one to take, also where later versions that a
/// range would admit are listed.
pub proof fn law_exact_version_is_taken(spec: SpecText, entries: Seq<Seq<char>>, i: int)
    requires
        spec.requirement.is_some(),
        is_version(spec.requirement.unwrap()),
        0 <= i < entries.len(),
        is_entry_at(spec, entries[i], spec.requirement.unwrap()),
        forall|j: int|
            0 <= j < i ==> !is_entry_at(spec, #[trigger] entries[j], spec.requirement.unwrap()),
    ensures
        is_best(spec, entries, i),
        best_entry(spec, entries) == Some(i),
{
    assert(is_best(spec, entries, i));
    lemma_best_is_unique(spec, entries, i, choose|k: int| is_best(spec, entries, k));
}

/// A package name with a version after `@` reads as the spec of that
/// package which requires that version: where `name` reads as a spec
/// without requirement and `version` holds no `/`, the text `name@version`
/// reads as the same scope and name, requiring `version`.
pub proof fn lemma_spec_with_version(name: Seq<char>, version: Seq<char>)
    requires
        parse_spec(name).is_ok(),
        !name.contains('@'),
        !version.contains('/'),
    ensures
        parse_spec(name.push('@') + version) == Ok::<SpecText, SpecError>(
            SpecText {
                scope: parse_spec(name).unwrap().scope,
                name: parse_spec(name).unwrap().name,
                requirement: Some(version),
            },
        ),
{
    let text = name.push('@') + version;
    lemma_first_index_exists(name, '/');
    let slash = first_index(name, '/');
    let tail = name.skip(slash + 1);
    assert(is_first_index(text, '/', slash));
    lemma_first_index(text, '/', slash);
    let rest = text.skip(slash + 1);
    assert(rest =~= tail.push('@') + version);
    assert(!rest.contains('/')) by {
        if rest.contains('/') {
            let k = choose|k: int| 0 <= k < rest.len() && rest[k] == '/';
            if k < tail.len() {
                assert(tail[k] == '/');
            } else if k > tail.len() {
                assert(version[k - tail.len() - 1] == '/');
            }
        }
    }
    assert(is_first_index(tail, '@', tail.len() as int)) by {
        assert forall|j: int| 0 <= j < tail.len() implies tail[j] != '@' by {
            assert(name[j + slash + 1] == tail[j]);
        }
    }
    lemma_first_index(tail, '@', tail.len() as int);
    assert(is_first_index(rest, '@', tail.len() as int));
    lemma_first_index(rest, '@', tail.len() as int);
    assert(before(text, '/') =~= before(name, '/'));
    assert(before(rest, '@') =~= before(tail, '@'));
    assert(rest.skip(tail.len() as int + 1) =~= version);
}

/// What a text says as a package spec is all that it says: scope, name and
/// requirement, put together again with `/` and `@`, give the text. The
/// scope holds no `/`, and the name neither `/` nor `@`.
pub proof fn law_spec_reads_back(text: Seq<char>)
    requires
        parse_spec(text).is_ok(),
    ensures
        ({
            let spec = parse_spec(text).unwrap();
            &&& !spec.scope.contains('/')
            &&& !spec.name.contains('/')
            &&& !spec.name.contains('@')
            &&& text == spec.scope.push('/') + spec.name + match spec.requirement {
                Some(requirement) => seq!['@'] + requirement,
                None => Seq::empty(),
            }
        }),
{
    let spec = parse_spec(text).unwrap();
    lemma_first_index_exists(text, '/');
    let slash = first_index(text, '/');
    let rest = text.skip(slash + 1);
    lemma_first_index_exists(rest, '@');
    let at = first_index(rest, '@');
    assert(!spec.scope.contains('/')) by {
        if spec.scope.contains('/') {
            let k = choose|k: int| 0 <= k < spec.scope.len() && spec.scope[k] == '/';
            assert(text[k] == '/');
        }
    }
    assert(!spec.name.contains('/')) by {
        if spec.name.contains('/') {
            let k = choose|k: int| 0 <= k < spec.name.len() && spec.name[k] == '/';
            assert(rest[k] == '/');
        }
    }
    assert(!spec.name.contains('@')) by {
        if spec.name.contains('@') {
            let k = choose|k: int| 0 <= k < spec.name.len() && spec.name[k] == '@';
            assert(rest[k] == '@');
        }
    }
    assert(text =~= spec.scope.push('/') + spec.name + match spec.requirement {
        Some(requirement) => seq!['@'] + requirement,
        None => Seq::empty(),
    });
}

} // verus!
