//! Redirector stubs and the copy of one installed package.
//!
//! Beside the index, a directory of installed packages holds one small
//! file per alias that leads to the package. Vendoring a package copies
//! the stub of each alias along with the package itself.

use crate::copier::{
    action_for, copy_action, target_after, writes, CopyAction, EntryKind, Target,
};
use crate::planner::CopyOperation;
use crate::utils::INDEX_DIR;
use vstd::prelude::*;
use vstd::string::StringExecFns;

verus! {

/// The file names under which the stub of an alias may stand, the
/// preferred one first: the alias with `.lua`, then with `.luau`.
pub open spec fn stub_names(alias: Seq<char>) -> Seq<Seq<char>> {
    seq![alias + ".lua"@, alias + ".luau"@]
}

/// The file names under which the stub of an alias may stand, the
/// preferred one first.
pub fn stub_candidates(alias: &str) -> (r: Vec<String>)
    ensures
        r.deep_view() == stub_names(alias@),
{
    let mut lua = alias.to_owned();
    lua.append(".lua");
    let mut luau = alias.to_owned();
    luau.append(".luau");
    let mut names: Vec<String> = Vec::new();
    names.push(lua);
    names.push(luau);
    names
}

/// Whether `i` is the first candidate that exists as a file.
pub open spec fn is_first_present(is_file: Seq<bool>, count: int, i: int) -> bool {
    &&& 0 <= i < count
    &&& i < is_file.len()
    &&& is_file[i]
    &&& forall|j: int| 0 <= j < i ==> !is_file[j]
}

/// Picks the stub to copy among the candidates, given for each whether it
/// exists as a file: the first that does. `None` when none does, which is
/// no error.
pub fn pick_stub(candidates: &Vec<String>, is_file: &Vec<bool>) -> (r: Option<usize>)
    ensures
        match r {
            Some(i) => is_first_present(is_file@, candidates.len() as int, i as int),
            None => forall|j: int|
                0 <= j < candidates.len() && j < is_file.len() ==> !is_file[j],
        },
{
    let n: usize = if candidates.len() < is_file.len() {
        candidates.len()
    } else {
        is_file.len()
    };
    let mut i: usize = 0;
    while i < n
        invariant
            n <= candidates.len(),
            n <= is_file.len(),
            n == candidates.len() || n == is_file.len(),
            i <= n,
            forall|j: int| 0 <= j < i ==> !is_file[j],
        decreases n - i,
    {
        if is_file[i] {
            return Some(i);
        }
        i = i + 1;
    }
    None
}

/// What is to be done for the stub that was picked, given what stands in
/// the destination under its name: it is copied when nothing is there and
/// when what is there does not stand for it, as any file is.
pub fn stub_action(target: Target) -> (r: CopyAction)
    ensures
        r == action_for(EntryKind::File, target),
{
    copy_action(EntryKind::File, target)
}

/// A stub is written once: after what is to be done for it has been done,
/// the stub in the destination stands for its source, and doing it again
/// writes no byte.
pub proof fn law_stub_written_once(target: Target)
    ensures
        ({
            let then = target_after(action_for(EntryKind::File, target), target);
            &&& then == Target::Present { equivalent: true }
            &&& !writes(action_for(EntryKind::File, then))
        }),
{
}

/// The stub lookups of one alias.
#[derive(Clone, Debug)]
pub struct StubLookup {
    pub alias: String,
    /// The file names to look for in the directory of installed packages,
    /// the preferred one first. The one found is copied into the
    /// destination under the same name.
    pub candidates: Vec<String>,
}

/// The work of one copy operation.
#[derive(Clone, Debug)]
pub struct PackageCopy {
    /// Where the package stands below the directory of installed packages,
    /// and where it goes below the destination: the index directory, then
    /// the index entry.
    pub relative: Vec<String>,
    /// One stub lookup per alias of the operation.
    pub stubs: Vec<StubLookup>,
}

/// Lays out the work of one copy operation: the package goes to the same
/// place below the destination as it has below the directory of installed
/// packages, and each alias of the operation gets its own stub lookup.
pub fn copy_package(operation: &CopyOperation) -> (r: PackageCopy)
    ensures
        r.relative.deep_view() == seq![INDEX_DIR@, operation.source@],
        r.stubs.len() == operation.aliases.len(),
        forall|i: int|
            0 <= i < r.stubs.len() ==> (#[trigger] r.stubs[i]).alias@ == operation.aliases[i]@
                && r.stubs[i].candidates.deep_view() == stub_names(operation.aliases[i]@),
{
    let mut relative: Vec<String> = Vec::new();
    relative.push(INDEX_DIR.to_owned());
    relative.push(operation.source.clone());
    let n: usize = operation.aliases.len();
    let mut stubs: Vec<StubLookup> = Vec::new();
    let mut i: usize = 0;
    while i < n
        invariant
            n == operation.aliases.len(),
            i <= n,
            stubs.len() == i,
            forall|j: int|
                0 <= j < i ==> (#[trigger] stubs[j]).alias@ == operation.aliases[j]@
                    && stubs[j].candidates.deep_view() == stub_names(operation.aliases[j]@),
        decreases n - i,
    {
        let alias = &operation.aliases[i];
        let candidates = stub_candidates(alias.as_str());
        stubs.push(StubLookup { alias: alias.clone(), candidates });
        i = i + 1;
    }
    PackageCopy { relative, stubs }
}

} // verus!
