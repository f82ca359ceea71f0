//! Planning the copies of a dependency group: which installed package each
//! alias resolves to, which aliases share one, and which resolve to none.

use crate::table::{distinct_keys, value_of, Pairs, StringMap};
use crate::text::{
    after, before, contains_text, find_char, lemma_first_index_exists, slice_of, to_chars,
};
use crate::utils::{
    find_wally_package, found, is_entry_at, law_exact_version_is_taken, lemma_spec_with_version,
    parse_spec, IndexListing, SpecText,
};
use crate::version::is_version;
use vstd::prelude::*;
use vstd::string::StringExecFns;

verus! {

/// The package that a spec names: what stands before its first `@`.
pub open spec fn package_name(spec: Seq<char>) -> Seq<char> {
    before(spec, '@')
}

/// A package name without its scope: what follows its first `/`, or all of
/// it when it has none.
pub open spec fn unscoped(name: Seq<char>) -> Seq<char> {
    match after(name, '/') {
        Some(rest) => rest,
        None => name,
    }
}

/// The version pinned for a package: the one recorded under its name as
/// the spec writes it, else the one recorded under its name without scope.
pub open spec fn pinned_version(pins: Pairs, name: Seq<char>) -> Option<Seq<char>> {
    match value_of(pins, name) {
        Some(version) => Some(version),
        None => value_of(pins, unscoped(name)),
    }
}

/// The spec by which a dependency is looked for: where a version is pinned
/// for its package, the package name, `@` and that version, whatever the
/// dependency itself requires; else the spec as the dependency gives it.
pub open spec fn effective_spec(spec: Seq<char>, pins: Option<Pairs>) -> Seq<char> {
    match pins {
        Some(pins) => match pinned_version(pins, package_name(spec)) {
            Some(version) => package_name(spec).push('@') + version,
            None => spec,
        },
        None => spec,
    }
}

/// The pins of a table, if there is one.
pub open spec fn pins_view(package_versions: Option<&StringMap>) -> Option<Pairs> {
    match package_versions {
        Some(pins) => Some(pins@),
        None => None,
    }
}

/// The spec by which a dependency is looked for, given the pinned versions.
pub fn final_spec(package_spec: &str, package_versions: Option<&StringMap>) -> (r: String)
    ensures
        r@ == effective_spec(package_spec@, pins_view(package_versions)),
{
    let pins = match package_versions {
        Some(pins) => pins,
        None => {
            return package_spec.to_owned();
        },
    };
    let chars = to_chars(package_spec);
    let at = find_char(&chars, '@', 0);
    assert(chars@.skip(0) =~= package_spec@);
    let name = slice_of(package_spec, 0, at);
    let pinned = match pins.get(&name) {
        Some(version) => Some(version),
        None => {
            let name_chars = to_chars(name.as_str());
            let slash = find_char(&name_chars, '/', 0);
            assert(name_chars@.skip(0) =~= name@);
            if slash < name_chars.len() {
                let bare = slice_of(name.as_str(), slash + 1, name_chars.len());
                pins.get(&bare)
            } else {
                None
            }
        },
    };
    match pinned {
        Some(version) => {
            let mut spec = name;
            proof {
                reveal_strlit("@");
            }
            spec.append("@");
            spec.append(version.as_str());
            assert(spec@ =~= package_name(package_spec@).push('@') + version@);
            spec
        },
        None => package_spec.to_owned(),
    }
}

/// One copy of an installed package, for all the aliases that resolve to
/// it.
#[derive(Clone, Debug)]
pub struct CopyOperation {
    /// The name of the index entry to copy.
    pub source: String,
    /// The aliases served by the copy.
    pub aliases: Vec<String>,
}

/// What is to be done for a dependency group.
#[derive(Clone, Debug)]
pub struct VendorPlan {
    /// The copies to make, each source once.
    pub operations: Vec<CopyOperation>,
    /// The dependencies that resolve to no installed package: alias and
    /// spec, the spec as the dependency gives it.
    pub missing: Vec<(String, String)>,
    /// For each dependency, in order, the operation that serves it.
    pub assigned: Vec<Option<usize>>,
}

/// The index entry that a dependency resolves to, if any.
pub open spec fn resolution(
    dependency: (Seq<char>, Seq<char>),
    entries: Seq<Seq<char>>,
    pins: Option<Pairs>,
) -> Option<Seq<char>> {
    found(entries, effective_spec(dependency.1, pins))
}

/// What each dependency of a group resolves to, in order.
pub open spec fn resolutions(
    dependencies: Pairs,
    entries: Seq<Seq<char>>,
    pins: Option<Pairs>,
) -> Seq<Option<Seq<char>>> {
    Seq::new(dependencies.len(), |i: int| resolution(dependencies[i], entries, pins))
}

/// What dependency `i` resolves to; nothing where the list does not say.
pub open spec fn resolved_at(resolved: Seq<Option<Seq<char>>>, i: int) -> Option<Seq<char>> {
    if 0 <= i < resolved.len() {
        resolved[i]
    } else {
        None
    }
}

/// The dependencies among the first `n` that resolve to nothing.
pub open spec fn missing_of(dependencies: Pairs, resolved: Seq<Option<Seq<char>>>, n: nat) -> Pairs
    decreases n,
{
    if n == 0 || n > dependencies.len() {
        Seq::empty()
    } else if resolved_at(resolved, n - 1).is_none() {
        missing_of(dependencies, resolved, (n - 1) as nat).push(dependencies[n - 1])
    } else {
        missing_of(dependencies, resolved, (n - 1) as nat)
    }
}

/// The index entries that the first `n` dependencies resolve to, each
/// once, in the order in which they first come up.
pub open spec fn sources_of(resolved: Seq<Option<Seq<char>>>, n: nat) -> Seq<Seq<char>>
    decreases n,
{
    if n == 0 {
        Seq::empty()
    } else {
        let earlier = sources_of(resolved, (n - 1) as nat);
        match resolved_at(resolved, n - 1) {
            Some(source) => if earlier.contains(source) {
                earlier
            } else {
                earlier.push(source)
            },
            None => earlier,
        }
    }
}

/// The aliases among the first `n` dependencies that resolve to `source`.
pub open spec fn aliases_of(
    dependencies: Pairs,
    resolved: Seq<Option<Seq<char>>>,
    source: Seq<char>,
    n: nat,
) -> Seq<Seq<char>>
    decreases n,
{
    if n == 0 || n > dependencies.len() {
        Seq::empty()
    } else if resolved_at(resolved, n - 1) == Some(source) {
        aliases_of(dependencies, resolved, source, (n - 1) as nat).push(dependencies[n - 1].0)
    } else {
        aliases_of(dependencies, resolved, source, (n - 1) as nat)
    }
}

/// Whether a plan is the plan of a dependency group, given what each of
/// its dependencies resolves to: its operations are the sources that the
/// dependencies resolve to, each once and with all the aliases that
/// resolve to it; its missing list holds the dependencies that resolve to
/// nothing; and each dependency is assigned the operation of its source.
pub open spec fn is_plan_of(
    plan: VendorPlan,
    dependencies: Pairs,
    resolved: Seq<Option<Seq<char>>>,
) -> bool {
    let n = dependencies.len();
    let sources = sources_of(resolved, n);
    &&& plan.missing.deep_view() == missing_of(dependencies, resolved, n)
    &&& plan.operations.len() == sources.len()
    &&& forall|k: int|
        0 <= k < sources.len() ==> (#[trigger] plan.operations[k]).source@ == sources[k]
            && plan.operations[k].aliases.deep_view() == aliases_of(
            dependencies,
            resolved,
            sources[k],
            n,
        )
    &&& plan.assigned.len() == n
    &&& forall|i: int|
        0 <= i < n ==> match #[trigger] plan.assigned[i] {
            Some(k) => k < sources.len() && resolved_at(resolved, i) == Some(sources[k as int]),
            None => resolved_at(resolved, i).is_none(),
        }
}

/// The text of an optional string.
pub open spec fn text_of(s: Option<String>) -> Option<Seq<char>> {
    match s {
        Some(s) => Some(s@),
        None => None,
    }
}

/// The texts of a list of optional strings.
pub open spec fn texts_of(list: Seq<Option<String>>) -> Seq<Option<Seq<char>>> {
    Seq::new(list.len(), |i: int| text_of(list[i]))
}

/// The source of each of the first `n` dependencies is among their sources.
proof fn lemma_source_is_listed(resolved: Seq<Option<Seq<char>>>, n: nat, i: int)
    requires
        0 <= i < n,
        resolved_at(resolved, i).is_some(),
    ensures
        sources_of(resolved, n).contains(resolved_at(resolved, i).unwrap()),
    decreases n,
{
    let source = resolved_at(resolved, i).unwrap();
    let earlier = sources_of(resolved, (n - 1) as nat);
    let now = sources_of(resolved, n);
    if i < n - 1 {
        lemma_source_is_listed(resolved, (n - 1) as nat, i);
        let k = choose|k: int| 0 <= k < earlier.len() && earlier[k] == source;
        assert(now[k] == source);
    } else if !earlier.contains(source) {
        assert(now[earlier.len() as int] == source);
    }
}

/// Plans the vendoring of a dependency group: resolves each dependency
/// against the index, by the version pinned for its package if there is
/// one, gathers the aliases that resolve to the same index entry into one
/// copy, and lists the dependencies that resolve to nothing.
pub fn vendor_packages(
    dependencies: &StringMap,
    index: &IndexListing,
    package_versions: Option<&StringMap>,
) -> (plan: VendorPlan)
    ensures
        is_plan_of(
            plan,
            dependencies@,
            resolutions(dependencies@, index@, pins_view(package_versions)),
        ),
{
    let ghost deps = dependencies@;
    let ghost pins = pins_view(package_versions);
    let n: usize = dependencies.len();
    let mut resolved: Vec<Option<String>> = Vec::new();
    let mut i: usize = 0;
    while i < n
        invariant
            deps == dependencies@,
            pins == pins_view(package_versions),
            n == deps.len(),
            i <= n,
            resolved.len() == i,
            forall|j: int|
                0 <= j < i ==> text_of(#[trigger] resolved[j]) == resolution(deps[j], index@, pins),
        decreases n - i,
    {
        let spec = final_spec(dependencies.value_at(i).as_str(), package_versions);
        resolved.push(find_wally_package(index, spec.as_str()));
        i = i + 1;
    }
    assert(texts_of(resolved@) =~= resolutions(deps, index@, pins));
    plan_copies(dependencies, &resolved)
}

/// Plans the copies of a dependency group, given what each dependency
/// resolves to: the name of an index entry, or nothing. A dependency of
/// which the list says nothing resolves to nothing.
pub fn plan_copies(dependencies: &StringMap, resolved: &Vec<Option<String>>) -> (plan: VendorPlan)
    ensures
        is_plan_of(plan, dependencies@, texts_of(resolved@)),
{
    let ghost deps = dependencies@;
    let ghost given = texts_of(resolved@);
    let n: usize = dependencies.len();
    let mut sources: Vec<String> = Vec::new();
    let mut missing: Vec<(String, String)> = Vec::new();
    let mut i: usize = 0;
    while i < n
        invariant
            deps == dependencies@,
            given == texts_of(resolved@),
            n == deps.len(),
            i <= n,
            sources.deep_view() == sources_of(given, i as nat),
            missing.deep_view() == missing_of(deps, given, i as nat),
        decreases n - i,
    {
        match resolution_at(resolved, i) {
            Some(source) => {
                if !contains_text(&sources, source) {
                    sources.push(source.clone());
                }
            },
            None => {
                missing.push((dependencies.key_at(i).clone(), dependencies.value_at(i).clone()));
            },
        }
        i = i + 1;
    }
    let ghost all = sources_of(given, n as nat);
    let count: usize = sources.len();
    let mut operations: Vec<CopyOperation> = Vec::new();
    let mut k: usize = 0;
    while k < count
        invariant
            deps == dependencies@,
            given == texts_of(resolved@),
            n == deps.len(),
            sources.deep_view() == all,
            count == sources.len(),
            k <= count,
            operations.len() == k,
            forall|m: int|
                0 <= m < k ==> (#[trigger] operations[m]).source@ == all[m]
                    && operations[m].aliases.deep_view() == aliases_of(deps, given, all[m], n as nat),
        decreases count - k,
    {
        let source = &sources[k];
        let mut aliases: Vec<String> = Vec::new();
        let mut j: usize = 0;
        while j < n
            invariant
                deps == dependencies@,
                given == texts_of(resolved@),
                n == deps.len(),
                j <= n,
                aliases.deep_view() == aliases_of(deps, given, source@, j as nat),
            decreases n - j,
        {
            let same = match resolution_at(resolved, j) {
                Some(other) => *other == *source,
                None => false,
            };
            if same {
                aliases.push(dependencies.key_at(j).clone());
            }
            j = j + 1;
        }
        operations.push(CopyOperation { source: source.clone(), aliases });
        k = k + 1;
    }
    let mut assigned: Vec<Option<usize>> = Vec::new();
    let mut i: usize = 0;
    while i < n
        invariant
            deps == dependencies@,
            given == texts_of(resolved@),
            n == deps.len(),
            sources.deep_view() == all,
            all == sources_of(given, n as nat),
            i <= n,
            assigned.len() == i,
            forall|j: int|
                0 <= j < i ==> match #[trigger] assigned[j] {
                    Some(k) => k < all.len() && resolved_at(given, j) == Some(all[k as int]),
                    None => resolved_at(given, j).is_none(),
                },
        decreases n - i,
    {
        let slot = match resolution_at(resolved, i) {
            Some(source) => {
                proof {
                    lemma_source_is_listed(given, n as nat, i as int);
                }
                Some(position_of(&sources, source))
            },
            None => None,
        };
        assigned.push(slot);
        i = i + 1;
    }
    VendorPlan { operations, missing, assigned }
}

/// What dependency `i` resolves to; nothing where the list does not say.
fn resolution_at(resolved: &Vec<Option<String>>, i: usize) -> (r: Option<&String>)
    ensures
        match r {
            Some(source) => resolved_at(texts_of(resolved@), i as int) == Some(source@),
            None => resolved_at(texts_of(resolved@), i as int).is_none(),
        },
{
    if i < resolved.len() {
        match &resolved[i] {
            Some(source) => Some(source),
            None => None,
        }
    } else {
        None
    }
}

/// Where a text that the list holds first stands in it.
fn position_of(list: &Vec<String>, s: &String) -> (r: usize)
    requires
        list.deep_view().contains(s@),
    ensures
        r < list.len(),
        list.deep_view()[r as int] == s@,
{
    let n: usize = list.len();
    let mut i: usize = 0;
    while i < n && !(list[i] == *s)
        invariant
            n == list.len(),
            i <= n,
            forall|j: int| 0 <= j < i ==> list.deep_view()[j] != s@,
        decreases n - i,
    {
        i = i + 1;
    }
    assert(i < n) by {
        let k = choose|k: int| 0 <= k < list.deep_view().len() && list.deep_view()[k] == s@;
        assert(i <= k);
    }
    i
}

/// Whether a dependency counts as vendored: an operation serves it, and
/// that operation succeeded.
pub open spec fn is_served(slot: Option<usize>, succeeded: Seq<bool>) -> bool {
    match slot {
        Some(k) => k < succeeded.len() && succeeded[k as int],
        None => false,
    }
}

/// How many of the first `n` dependencies count as vendored.
pub open spec fn vendored_of(assigned: Seq<Option<usize>>, succeeded: Seq<bool>, n: nat) -> nat
    decreases n,
{
    if n == 0 || n > assigned.len() {
        0
    } else {
        vendored_of(assigned, succeeded, (n - 1) as nat) + if is_served(
            assigned[n - 1],
            succeeded,
        ) {
            1nat
        } else {
            0nat
        }
    }
}

impl VendorPlan {
    /// The number of dependencies vendored, given for each operation
    /// whether its copy succeeded: a dependency counts when it resolved to
    /// an installed package and the copy of that package succeeded.
    pub fn vendored(&self, succeeded: &Vec<bool>) -> (r: usize)
        ensures
            r == vendored_of(self.assigned@, succeeded@, self.assigned@.len()),
            r <= self.assigned.len(),
    {
        let n: usize = self.assigned.len();
        let mut count: usize = 0;
        let mut i: usize = 0;
        while i < n
            invariant
                n == self.assigned.len(),
                i <= n,
                count == vendored_of(self.assigned@, succeeded@, i as nat),
                count <= i,
            decreases n - i,
        {
            let served = match self.assigned[i] {
                Some(k) => k < succeeded.len() && succeeded[k],
                None => false,
            };
            if served {
                count = count + 1;
            }
            i = i + 1;
        }
        count
    }
}

/// When every copy succeeds, the dependencies vendored and the missing
/// ones are all the dependencies.
pub proof fn law_all_accounted(
    plan: VendorPlan,
    dependencies: Pairs,
    resolved: Seq<Option<Seq<char>>>,
    succeeded: Seq<bool>,
)
    requires
        is_plan_of(plan, dependencies, resolved),
        succeeded.len() == plan.operations.len(),
        forall|k: int| 0 <= k < succeeded.len() ==> succeeded[k],
    ensures
        vendored_of(plan.assigned@, succeeded, dependencies.len()) + plan.missing.len()
            == dependencies.len(),
{
    lemma_accounted(plan, dependencies, resolved, succeeded, dependencies.len());
}

/// Among the first `n` dependencies, those vendored and those missing
/// are all, when every copy succeeds.
proof fn lemma_accounted(
    plan: VendorPlan,
    dependencies: Pairs,
    resolved: Seq<Option<Seq<char>>>,
    succeeded: Seq<bool>,
    n: nat,
)
    requires
        is_plan_of(plan, dependencies, resolved),
        succeeded.len() == plan.operations.len(),
        forall|k: int| 0 <= k < succeeded.len() ==> succeeded[k],
        n <= dependencies.len(),
    ensures
        vendored_of(plan.assigned@, succeeded, n) + missing_of(dependencies, resolved, n).len()
            == n,
    decreases n,
{
    if n > 0 {
        lemma_accounted(plan, dependencies, resolved, succeeded, (n - 1) as nat);
    }
}

/// The sources of a plan are distinct.
proof fn lemma_sources_distinct(resolved: Seq<Option<Seq<char>>>, n: nat)
    ensures
        sources_of(resolved, n).no_duplicates(),
    decreases n,
{
    if n > 0 {
        lemma_sources_distinct(resolved, (n - 1) as nat);
    }
}

/// An alias is among the aliases of a source exactly when a dependency of
/// that alias resolves to the source.
proof fn lemma_aliases(
    dependencies: Pairs,
    resolved: Seq<Option<Seq<char>>>,
    source: Seq<char>,
    n: nat,
)
    requires
        n <= dependencies.len(),
    ensures
        forall|alias: Seq<char>|
            aliases_of(dependencies, resolved, source, n).contains(alias) <==> exists|i: int|
                0 <= i < n && #[trigger] dependencies[i].0 == alias && resolved_at(resolved, i)
                    == Some(source),
    decreases n,
{
    if n > 0 {
        lemma_aliases(dependencies, resolved, source, (n - 1) as nat);
        let earlier = aliases_of(dependencies, resolved, source, (n - 1) as nat);
        let now = aliases_of(dependencies, resolved, source, n);
        assert forall|alias: Seq<char>|
            now.contains(alias) <==> exists|i: int|
                0 <= i < n && #[trigger] dependencies[i].0 == alias && resolved_at(resolved, i)
                    == Some(source) by {
            if now.contains(alias) {
                let m = choose|m: int| 0 <= m < now.len() && now[m] == alias;
                if m < earlier.len() {
                    assert(earlier[m] == alias);
                    assert(earlier.contains(alias));
                } else {
                    assert(dependencies[n - 1].0 == alias);
                }
            }
            if exists|i: int|
                0 <= i < n && #[trigger] dependencies[i].0 == alias && resolved_at(resolved, i)
                    == Some(source) {
                let i = choose|i: int|
                    0 <= i < n && #[trigger] dependencies[i].0 == alias && resolved_at(
                        resolved,
                        i,
                    ) == Some(source);
                if i < n - 1 {
                    assert(earlier.contains(alias));
                    let m = choose|m: int| 0 <= m < earlier.len() && earlier[m] == alias;
                    assert(now[m] == alias);
                } else {
                    assert(now[earlier.len() as int] == alias);
                }
            }
        }
    }
}

/// Aliases that resolve to the same installed package are served by one
/// copy: no two operations of a plan have the same source, dependencies
/// with the same source are assigned the same operation, and the alias of
/// each resolved dependency stands among the aliases of its operation and
/// of no other.
pub proof fn law_one_copy_per_source(
    plan: VendorPlan,
    dependencies: Pairs,
    resolved: Seq<Option<Seq<char>>>,
)
    requires
        is_plan_of(plan, dependencies, resolved),
        distinct_keys(dependencies),
    ensures
        forall|k: int, m: int|
            0 <= k < plan.operations.len() && 0 <= m < plan.operations.len() && k != m
                ==> (#[trigger] plan.operations[k]).source@ != (#[trigger] plan.operations[m]).source@,
        forall|i: int, j: int|
            0 <= i < dependencies.len() && 0 <= j < dependencies.len() && resolved_at(
                resolved,
                i,
            ).is_some() && resolved_at(resolved, i) == resolved_at(resolved, j)
                ==> #[trigger] plan.assigned[i] == #[trigger] plan.assigned[j],
        forall|i: int, k: int|
            0 <= i < dependencies.len() && 0 <= k < plan.operations.len() ==> ((
            #[trigger] plan.operations[k]).aliases.deep_view().contains(
                (#[trigger] dependencies[i]).0,
            ) <==> plan.assigned[i] == Some(k as usize)),
{
    let n = dependencies.len();
    let sources = sources_of(resolved, n);
    lemma_sources_distinct(resolved, n);
    assert forall|k: int, m: int|
        0 <= k < plan.operations.len() && 0 <= m < plan.operations.len() && k != m implies (
    #[trigger] plan.operations[k]).source@ != (#[trigger] plan.operations[m]).source@ by {
        assert(sources[k] != sources[m]);
    }
    assert forall|i: int, j: int|
        0 <= i < n && 0 <= j < n && resolved_at(resolved, i).is_some() && resolved_at(resolved, i)
            == resolved_at(resolved, j) implies #[trigger] plan.assigned[i]
        == #[trigger] plan.assigned[j] by {
        let a = plan.assigned[i];
        let b = plan.assigned[j];
        assert(a.is_some() && b.is_some());
        assert(sources[a.unwrap() as int] == sources[b.unwrap() as int]);
    }
    assert forall|i: int, k: int| 0 <= i < n && 0 <= k < plan.operations.len() implies ((
    #[trigger] plan.operations[k]).aliases.deep_view().contains((#[trigger] dependencies[i]).0)
        <==> plan.assigned[i] == Some(k as usize)) by {
        lemma_aliases(dependencies, resolved, sources[k], n);
        let alias = dependencies[i].0;
        let list = plan.operations[k].aliases.deep_view();
        assert(list == aliases_of(dependencies, resolved, sources[k], n));
        let slot = plan.assigned[i];
        if list.contains(alias) {
            let j = choose|j: int|
                0 <= j < n && #[trigger] dependencies[j].0 == alias && resolved_at(resolved, j)
                    == Some(sources[k]);
            assert(j == i);
            assert(slot.is_some());
            assert(sources[slot.unwrap() as int] == sources[k]);
        }
        if slot == Some(k as usize) {
            assert(dependencies[i].0 == alias && resolved_at(resolved, i) == Some(sources[k]));
        }
    }
}

/// A pinned version overrides what a dependency requires: where a version
/// is pinned for the package of a spec, the spec is looked for as the
/// package name, `@` and the pinned version, so two specs of that package
/// are looked for alike, whatever each requires.
pub proof fn law_pin_overrides(first: Seq<char>, second: Seq<char>, pins: Pairs)
    requires
        package_name(first) == package_name(second),
        pinned_version(pins, package_name(first)).is_some(),
    ensures
        effective_spec(first, Some(pins)) == package_name(first).push('@') + pinned_version(
            pins,
            package_name(first),
        ).unwrap(),
        effective_spec(first, Some(pins)) == effective_spec(second, Some(pins)),
{
}

/// A pinned dependency is vendored from the entry at exactly the pinned
/// version, whatever the dependency requires and whatever else is
/// installed: where a version is pinned for the package of a dependency
/// and the index lists an entry of that package at that version, the
/// dependency resolves to the first such entry.
pub proof fn law_pinned_entry_is_taken(
    declared: Seq<char>,
    pins: Pairs,
    entries: Seq<Seq<char>>,
    i: int,
)
    requires
        parse_spec(package_name(declared)).is_ok(),
        pinned_version(pins, package_name(declared)).is_some(),
        is_version(pinned_version(pins, package_name(declared)).unwrap()),
        !pinned_version(pins, package_name(declared)).unwrap().contains('/'),
        0 <= i < entries.len(),
        is_entry_at(
            parse_spec(package_name(declared)).unwrap(),
            entries[i],
            pinned_version(pins, package_name(declared)).unwrap(),
        ),
        forall|j: int|
            0 <= j < i ==> !is_entry_at(
                parse_spec(package_name(declared)).unwrap(),
                #[trigger] entries[j],
                pinned_version(pins, package_name(declared)).unwrap(),
            ),
    ensures
        found(entries, effective_spec(declared, Some(pins))) == Some(entries[i]),
{
    let name = package_name(declared);
    let version = pinned_version(pins, name).unwrap();
    let named = parse_spec(name).unwrap();
    let spec = SpecText { scope: named.scope, name: named.name, requirement: Some(version) };
    assert(!name.contains('@')) by {
        lemma_first_index_exists(declared, '@');
        if name.contains('@') {
            let k = choose|k: int| 0 <= k < name.len() && name[k] == '@';
            assert(declared[k] == '@');
        }
    }
    lemma_spec_with_version(name, version);
    assert forall|j: int| 0 <= j <= i implies is_entry_at(spec, #[trigger] entries[j], version)
        == is_entry_at(named, entries[j], version) by {}
    law_exact_version_is_taken(spec, entries, i);
}

/// Without a pin for its package, and without pins at all, a spec is
/// looked for as it stands.
pub proof fn law_unpinned_unchanged(spec: Seq<char>, pins: Pairs)
    requires
        pinned_version(pins, package_name(spec)).is_none(),
    ensures
        effective_spec(spec, Some(pins)) == spec,
        effective_spec(spec, None) == spec,
{
}

/// The missing list holds the dependencies that resolve to nothing, as
/// they were declared: alias and spec, not the spec rewritten by a pin.
pub proof fn law_missing_as_declared(
    dependencies: Pairs,
    resolved: Seq<Option<Seq<char>>>,
    n: nat,
)
    requires
        n <= dependencies.len(),
    ensures
        forall|entry: (Seq<char>, Seq<char>)|
            missing_of(dependencies, resolved, n).contains(entry) <==> exists|i: int|
                0 <= i < n && #[trigger] dependencies[i] == entry && resolved_at(resolved, i).is_none(),
    decreases n,
{
    if n > 0 {
        law_missing_as_declared(dependencies, resolved, (n - 1) as nat);
        let earlier = missing_of(dependencies, resolved, (n - 1) as nat);
        let now = missing_of(dependencies, resolved, n);
        assert forall|entry: (Seq<char>, Seq<char>)|
            now.contains(entry) <==> exists|i: int|
                0 <= i < n && #[trigger] dependencies[i] == entry && resolved_at(
                    resolved,
                    i,
                ).is_none() by {
            if now.contains(entry) {
                let m = choose|m: int| 0 <= m < now.len() && now[m] == entry;
                if m < earlier.len() {
                    assert(earlier[m] == entry);
                    assert(earlier.contains(entry));
                } else {
                    assert(dependencies[n - 1] == entry);
                }
            }
            if exists|i: int|
                0 <= i < n && #[trigger] dependencies[i] == entry && resolved_at(
                    resolved,
                    i,
                ).is_none() {
                let i = choose|i: int|
                    0 <= i < n && #[trigger] dependencies[i] == entry && resolved_at(
                        resolved,
                        i,
                    ).is_none();
                if i < n - 1 {
                    assert(earlier.contains(entry));
                    let m = choose|m: int| 0 <= m < earlier.len() && earlier[m] == entry;
                    assert(now[m] == entry);
                } else {
                    assert(now[earlier.len() as int] == entry);
                }
            }
        }
    }
}

} // verus!
