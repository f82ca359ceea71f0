use wally_vendor::utils::{
    find_wally_package, keep_best, locate, version_meets, IndexListing, PackageSpec, SpecError,
};

fn listing(names: &[&str]) -> IndexListing {
    IndexListing::Entries(names.iter().map(|n| n.to_string()).collect())
}

fn found(names: &[&str], spec: &str) -> Option<String> {
    find_wally_package(&listing(names), spec)
}

#[test]
fn greatest_version_wins_by_number_not_by_text() {
    let names = ["evaera_promise@1.5.0", "evaera_promise@1.19.0", "evaera_promise@1.2.3"];
    assert_eq!(found(&names, "evaera/promise"), Some("evaera_promise@1.19.0".to_string()));
}

#[test]
fn without_requirement_any_version_that_parses_is_taken() {
    let names = ["a_b@0.0.1", "a_b@3.0.0", "a_b@2.9.9"];
    assert_eq!(found(&names, "a/b"), Some("a_b@3.0.0".to_string()));
}

#[test]
fn caret_requirement_keeps_to_compatible_versions() {
    let names = ["a_b@1.0.0", "a_b@1.2.3", "a_b@1.19.0", "a_b@2.0.0"];
    assert_eq!(found(&names, "a/b@^1.0.0"), Some("a_b@1.19.0".to_string()));
}

#[test]
fn tilde_requirement_keeps_to_the_minor_version() {
    let names = ["a_b@1.2.0", "a_b@1.2.7", "a_b@1.3.0"];
    assert_eq!(found(&names, "a/b@~1.2.0"), Some("a_b@1.2.7".to_string()));
}

#[test]
fn comparison_requirements_bound_the_version() {
    let names = ["a_b@0.9.0", "a_b@1.0.0", "a_b@1.4.9", "a_b@1.5.0"];
    assert_eq!(found(&names, "a/b@>=1.0.0, <1.5.0"), Some("a_b@1.4.9".to_string()));
    assert_eq!(found(&names, "a/b@<1.0.0"), Some("a_b@0.9.0".to_string()));
}

#[test]
fn exact_requirement_takes_that_version_only() {
    let names = ["a_b@1.2.2", "a_b@1.2.3", "a_b@1.2.4"];
    assert_eq!(found(&names, "a/b@=1.2.3"), Some("a_b@1.2.3".to_string()));
    assert_eq!(found(&names, "a/b@=1.2.5"), None);
}

#[test]
fn a_bare_version_takes_the_entry_of_exactly_that_version() {
    let names = ["a_b@1.0.0", "a_b@1.2.3", "a_b@2.0.0"];
    assert_eq!(found(&names, "a/b@1.2.3"), Some("a_b@1.2.3".to_string()));
    let later = ["a_b@1.2.3", "a_b@1.4.0"];
    assert_eq!(found(&later, "a/b@1.2.3"), Some("a_b@1.2.3".to_string()));
    let reversed = ["a_b@1.4.0", "a_b@1.2.3"];
    assert_eq!(found(&reversed, "a/b@1.2.3"), Some("a_b@1.2.3".to_string()));
    let pinned = ["scope_name@1.2.3", "scope_name@1.5.0"];
    assert_eq!(found(&pinned, "scope/name@1.2.3"), Some("scope_name@1.2.3".to_string()));
}

#[test]
fn a_bare_version_that_is_not_installed_finds_nothing() {
    assert_eq!(found(&["a_b@1.4.0"], "a/b@1.2.3"), None);
    assert_eq!(found(&["a_b@1.2.3+build"], "a/b@1.2.3"), None);
    assert_eq!(found(&["a_b@1.2.3-rc.1"], "a/b@1.2.3"), None);
    assert_eq!(
        found(&["a_b@1.2.3-rc.1", "a_b@1.2.3"], "a/b@1.2.3-rc.1"),
        Some("a_b@1.2.3-rc.1".to_string())
    );
}

#[test]
fn a_partial_version_is_a_range_of_compatible_versions() {
    let names = ["a_b@1.2.3", "a_b@1.4.0", "a_b@2.0.0"];
    assert_eq!(found(&names, "a/b@1.2"), Some("a_b@1.4.0".to_string()));
    assert_eq!(found(&names, "a/b@1"), Some("a_b@1.4.0".to_string()));
    assert_eq!(found(&names, "a/b@^1.2.3"), Some("a_b@1.4.0".to_string()));
}

#[test]
fn of_two_entries_at_the_exact_version_the_first_is_taken() {
    let names = ["a_b@1.4.0", "a_bx@1.2.3", "a_b@1.2.3"];
    assert_eq!(found(&names, "a/b@1.2.3"), Some("a_bx@1.2.3".to_string()));
}

#[test]
fn a_version_meets_a_requirement_exactly_or_as_a_range() {
    assert!(version_meets("1.2.3", "1.2.3"));
    assert!(!version_meets("1.2.3", "1.2.4"));
    assert!(!version_meets("1.2.3", "1.5.0"));
    assert!(version_meets("^1.2.3", "1.5.0"));
    assert!(version_meets("1.2", "1.2.9"));
    assert!(!version_meets("1.2", "2.0.0"));
    assert!(!version_meets("junk", "1.2.3"));
    assert!(!version_meets("^1.0.0", "junk"));
}

#[test]
fn no_entry_satisfies_gives_none() {
    let names = ["a_b@1.0.0", "a_b@1.2.3"];
    assert_eq!(found(&names, "a/b@^2.0.0"), None);
}

#[test]
fn entries_whose_version_does_not_parse_are_passed_over() {
    let names = ["a_b@latest", "a_b@1.0", "a_b@1.0.0", "a_b@", "a_b@01.0.0"];
    assert_eq!(found(&names, "a/b"), Some("a_b@1.0.0".to_string()));
    let none = ["a_b@latest", "a_b@1.0", "a_b"];
    assert_eq!(found(&none, "a/b"), None);
}

#[test]
fn entries_of_other_packages_are_passed_over() {
    let names = ["a_c@9.0.0", "x_b@9.0.0", "a_b@1.0.0", "b@9.9.9"];
    assert_eq!(found(&names, "a/b"), Some("a_b@1.0.0".to_string()));
}

#[test]
fn an_entry_counts_when_its_name_begins_with_scope_and_name() {
    let names = ["a_b@1.0.0", "a_bc@2.0.0"];
    assert_eq!(found(&names, "a/b"), Some("a_bc@2.0.0".to_string()));
    assert_eq!(found(&names, "a/bc"), Some("a_bc@2.0.0".to_string()));
}

#[test]
fn version_is_what_follows_the_first_at_sign() {
    let names = ["a_b@1.0.0@2.0.0", "a_b@0.5.0"];
    assert_eq!(found(&names, "a/b"), Some("a_b@0.5.0".to_string()));
}

#[test]
fn a_release_is_greater_than_its_pre_releases() {
    let names = ["a_b@1.0.0-beta.11", "a_b@1.0.0", "a_b@1.0.0-rc.1"];
    assert_eq!(found(&names, "a/b"), Some("a_b@1.0.0".to_string()));
    let pre = ["a_b@1.0.0-beta.2", "a_b@1.0.0-beta.11", "a_b@1.0.0-alpha"];
    assert_eq!(found(&pre, "a/b"), Some("a_b@1.0.0-beta.11".to_string()));
}

#[test]
fn a_range_does_not_admit_a_pre_release() {
    let names = ["a_b@1.0.1-beta"];
    assert_eq!(found(&names, "a/b@^1.0.0"), None);
    assert_eq!(found(&names, "a/b"), Some("a_b@1.0.1-beta".to_string()));
}

#[test]
fn among_equal_versions_the_first_entry_is_taken() {
    let names = ["a_bx@1.0.0", "a_b@1.0.0", "a_by@1.0.0"];
    assert_eq!(found(&names, "a/b"), Some("a_bx@1.0.0".to_string()));
}

#[test]
fn a_requirement_that_does_not_parse_admits_nothing() {
    let names = ["a_b@1.0.0"];
    assert_eq!(found(&names, "a/b@not a requirement"), None);
    assert_eq!(found(&names, "a/b@"), None);
}

#[test]
fn a_text_that_is_no_spec_finds_nothing() {
    let names = ["a_b@1.0.0", "_b@1.0.0", "b@1.0.0"];
    assert_eq!(found(&names, "b"), None);
    assert_eq!(found(&names, "a/b/c"), None);
    assert_eq!(found(&names, "a/b@>=1.0.0/2"), None);
    assert_eq!(found(&names, ""), None);
}

#[test]
fn an_absent_index_finds_nothing() {
    assert_eq!(find_wally_package(&IndexListing::Absent, "a/b"), None);
}

#[test]
fn an_unreadable_index_finds_nothing() {
    assert_eq!(find_wally_package(&IndexListing::Unreadable, "a/b@^1.0.0"), None);
}

#[test]
fn an_empty_index_finds_nothing() {
    assert_eq!(found(&[], "a/b"), None);
}

#[test]
fn locate_gives_the_position_of_the_entry() {
    let entries: Vec<String> =
        vec!["a_b@1.0.0".to_string(), "zz".to_string(), "a_b@1.1.0".to_string()];
    let spec = PackageSpec::parse("a/b@^1.0.0").unwrap();
    assert_eq!(locate(&entries, &spec), Some(2));
    let other = PackageSpec::parse("a/c").unwrap();
    assert_eq!(locate(&entries, &other), None);
}

#[test]
fn parse_splits_scope_name_and_requirement() {
    let spec = PackageSpec::parse("evaera/promise@^4.0.0").unwrap();
    assert_eq!(spec.scope, "evaera");
    assert_eq!(spec.name, "promise");
    assert_eq!(spec.version_requirement, Some("^4.0.0".to_string()));
}

#[test]
fn parse_without_requirement() {
    let spec = PackageSpec::parse("evaera/promise").unwrap();
    assert_eq!(spec.scope, "evaera");
    assert_eq!(spec.name, "promise");
    assert_eq!(spec.version_requirement, None);
}

#[test]
fn parse_keeps_later_at_signs_in_the_requirement() {
    let spec = PackageSpec::parse("a/b@1@2").unwrap();
    assert_eq!(spec.name, "b");
    assert_eq!(spec.version_requirement, Some("1@2".to_string()));
    let empty = PackageSpec::parse("a/b@").unwrap();
    assert_eq!(empty.version_requirement, Some(String::new()));
}

#[test]
fn parse_wants_exactly_one_slash() {
    assert_eq!(PackageSpec::parse("promise").err(), Some(SpecError::NoScope));
    assert_eq!(PackageSpec::parse("").err(), Some(SpecError::NoScope));
    assert_eq!(PackageSpec::parse("promise@^1.0.0").err(), Some(SpecError::NoScope));
    assert_eq!(PackageSpec::parse("a/b/c").err(), Some(SpecError::ExtraSlash));
    assert_eq!(PackageSpec::parse("a/b@>=1.0.0/2").err(), Some(SpecError::ExtraSlash));
    assert_eq!(PackageSpec::parse("//").err(), Some(SpecError::ExtraSlash));
    let bare = PackageSpec::parse("/").unwrap();
    assert_eq!(bare.scope, "");
    assert_eq!(bare.name, "");
}

#[test]
fn parse_reads_characters_not_bytes() {
    let spec = PackageSpec::parse("été/naïve@^1.0.0").unwrap();
    assert_eq!(spec.scope, "été");
    assert_eq!(spec.name, "naïve");
    assert_eq!(spec.version_requirement, Some("^1.0.0".to_string()));
}

#[test]
fn the_entry_kept_changes_only_for_an_allowed_and_greater_one() {
    assert_eq!(keep_best(None, 3, true, false), Some(3));
    assert_eq!(keep_best(None, 3, false, false), None);
    assert_eq!(keep_best(None, 3, false, true), None);
    assert_eq!(keep_best(Some(1), 3, true, true), Some(3));
    assert_eq!(keep_best(Some(1), 3, true, false), Some(1));
    assert_eq!(keep_best(Some(1), 3, false, true), Some(1));
}
