use std::path::Path;
use wally_vendor::cli::{Realm, SyncArgs};
use wally_vendor::commands::sync::{
    action_of, begin, destination, dirs_to_clean, execute, find_config_path, select_realms,
    source_sibling, Outcome, RealmSet, Stage, SyncAction, SyncError, SyncEvent, SyncState,
    LOCKFILE, VENDOR_CONFIG, WALLY_CONFIG,
};
use wally_vendor::commands::sync::{
    config_read as read_event, realm_done, sibling_base, source_root,
};
use wally_vendor::config::{Manifest, VendorConfig};
use wally_vendor::planner::vendor_packages;
use wally_vendor::table::StringMap;
use wally_vendor::utils::IndexListing;

fn args(realms: Vec<Realm>) -> SyncArgs {
    SyncArgs {
        deps: None,
        realms,
        packages_dir: "Packages".to_string(),
        vendor_dir: "WallyVendor".to_string(),
        shared_dir: None,
        server_dir: None,
        dev_dir: None,
        jobs: None,
        strict: false,
        clean: false,
        locked: false,
    }
}

fn no_config() -> VendorConfig {
    VendorConfig { shared_dir: None, server_dir: None, dev_dir: None }
}

fn set(shared: bool, server: bool, dev: bool) -> RealmSet {
    RealmSet { shared, server, dev }
}

fn run(a: &SyncArgs, events: &[SyncEvent]) -> (SyncState, Vec<SyncAction>) {
    let (mut state, first) = begin(a);
    let mut actions = vec![first];
    for event in events {
        let (next, action) = execute(state, *event);
        state = next;
        actions.push(action);
    }
    (state, actions)
}

fn config_read(shared: usize, server: usize, dev: usize) -> SyncEvent {
    SyncEvent::ConfigRead { shared, server, dev }
}

#[test]
fn a_run_goes_through_its_stages_in_order() {
    let mut a = args(vec![]);
    a.clean = true;
    let (state, actions) = run(
        &a,
        &[
            SyncEvent::PoolReady,
            config_read(2, 0, 1),
            SyncEvent::LockfileRead,
            SyncEvent::PinsAnnounced,
            SyncEvent::Cleaned,
            SyncEvent::DestinationReady,
            SyncEvent::DestinationReady,
            SyncEvent::RealmDone { missing: 0 },
            SyncEvent::RealmDone { missing: 0 },
            SyncEvent::SummaryPrinted,
        ],
    );
    assert_eq!(
        actions,
        vec![
            SyncAction::ConfigurePool { jobs: 0 },
            SyncAction::LoadConfig,
            SyncAction::LoadLockfile,
            SyncAction::AnnouncePins { pinned: true },
            SyncAction::CleanDestinations,
            SyncAction::CreateDestination { realm: Realm::Shared },
            SyncAction::CreateDestination { realm: Realm::Dev },
            SyncAction::Vendor { realm: Realm::Shared },
            SyncAction::Vendor { realm: Realm::Dev },
            SyncAction::Report { nothing_to_do: false },
            SyncAction::Exit { outcome: Outcome::Success },
        ]
    );
    assert_eq!(state.stage, Stage::Terminal(Outcome::Success));
    assert_eq!(state.selected, set(true, false, true));
}

#[test]
fn stages_are_named_as_the_run_proceeds() {
    let mut a = args(vec![Realm::Server]);
    a.clean = true;
    let (s0, _) = begin(&a);
    assert_eq!(s0.stage, Stage::Init);
    let (s1, _) = execute(s0, SyncEvent::PoolReady);
    assert_eq!(s1.stage, Stage::RealmsSelected);
    let (s2, _) = execute(s1, config_read(0, 1, 0));
    assert_eq!(s2.stage, Stage::ConfigLoaded);
    let (s3, _) = execute(s2, SyncEvent::LockfileAbsent);
    assert_eq!(s3.stage, Stage::LockfileResolved);
    assert!(!s3.pinned);
    let (s4, _) = execute(s3, SyncEvent::PinsAnnounced);
    assert_eq!(s4.stage, Stage::Cleaning);
    let (s5, a5) = execute(s4, SyncEvent::Cleaned);
    assert_eq!(s5.stage, Stage::PerRealmExecute);
    assert_eq!(s5.cursor, Realm::Server);
    assert!(!s5.vendoring);
    assert_eq!(a5, SyncAction::CreateDestination { realm: Realm::Server });
    let (s5, a5) = execute(s5, SyncEvent::DestinationReady);
    assert_eq!(s5.stage, Stage::PerRealmExecute);
    assert!(s5.vendoring);
    assert_eq!(a5, SyncAction::Vendor { realm: Realm::Server });
    let (s6, _) = execute(s5, SyncEvent::RealmDone { missing: 0 });
    assert_eq!(s6.stage, Stage::Reported);
    let (s7, _) = execute(s6, SyncEvent::SummaryPrinted);
    assert_eq!(s7.stage, Stage::Terminal(Outcome::Success));
    assert_eq!(action_of(&s7), SyncAction::Exit { outcome: Outcome::Success });
}

#[test]
fn zero_missing_is_success_even_in_strict_mode() {
    let mut a = args(vec![Realm::Shared]);
    a.strict = true;
    let (state, actions) = run(
        &a,
        &[
            SyncEvent::PoolReady,
            config_read(3, 0, 0),
            SyncEvent::LockfileRead,
            SyncEvent::PinsAnnounced,
            SyncEvent::DestinationReady,
            SyncEvent::RealmDone { missing: 0 },
            SyncEvent::SummaryPrinted,
        ],
    );
    assert_eq!(state.stage, Stage::Terminal(Outcome::Success));
    assert_eq!(actions.last(), Some(&SyncAction::Exit { outcome: Outcome::Success }));
}

#[test]
fn missing_with_strict_fails_only_after_the_summary() {
    let mut a = args(vec![Realm::Shared, Realm::Server]);
    a.strict = true;
    let (state, actions) = run(
        &a,
        &[
            SyncEvent::PoolReady,
            config_read(3, 1, 0),
            SyncEvent::LockfileRead,
            SyncEvent::PinsAnnounced,
            SyncEvent::DestinationReady,
            SyncEvent::DestinationReady,
            SyncEvent::RealmDone { missing: 1 },
            SyncEvent::RealmDone { missing: 0 },
        ],
    );
    assert_eq!(state.stage, Stage::Reported);
    assert!(state.missing);
    assert_eq!(actions.last(), Some(&SyncAction::Report { nothing_to_do: false }));
    let (end, exit) = execute(state, SyncEvent::SummaryPrinted);
    assert_eq!(end.stage, Stage::Terminal(Outcome::StrictMissing));
    assert_eq!(exit, SyncAction::Exit { outcome: Outcome::StrictMissing });
}

#[test]
fn missing_without_strict_is_success() {
    let a = args(vec![Realm::Shared, Realm::Server]);
    let (state, _) = run(
        &a,
        &[
            SyncEvent::PoolReady,
            config_read(3, 1, 0),
            SyncEvent::LockfileRead,
            SyncEvent::PinsAnnounced,
            SyncEvent::DestinationReady,
            SyncEvent::DestinationReady,
            SyncEvent::RealmDone { missing: 1 },
            SyncEvent::RealmDone { missing: 2 },
            SyncEvent::SummaryPrinted,
        ],
    );
    assert!(state.missing);
    assert_eq!(state.stage, Stage::Terminal(Outcome::Success));
}

#[test]
fn no_realm_and_no_dependency_is_success_with_nothing_to_do() {
    let mut a = args(vec![]);
    a.strict = true;
    a.clean = true;
    let (state, actions) = run(
        &a,
        &[
            SyncEvent::PoolReady,
            config_read(0, 0, 0),
            SyncEvent::LockfileAbsent,
            SyncEvent::PinsAnnounced,
            SyncEvent::SummaryPrinted,
        ],
    );
    assert_eq!(
        actions,
        vec![
            SyncAction::ConfigurePool { jobs: 0 },
            SyncAction::LoadConfig,
            SyncAction::LoadLockfile,
            SyncAction::AnnouncePins { pinned: false },
            SyncAction::Report { nothing_to_do: true },
            SyncAction::Exit { outcome: Outcome::Success },
        ]
    );
    assert_eq!(state.stage, Stage::Terminal(Outcome::Success));
}

#[test]
fn a_realm_asked_for_is_vendored_even_when_it_is_empty() {
    let a = args(vec![Realm::Dev]);
    let (state, actions) = run(
        &a,
        &[
            SyncEvent::PoolReady,
            config_read(5, 5, 0),
            SyncEvent::LockfileRead,
            SyncEvent::PinsAnnounced,
            SyncEvent::DestinationReady,
            SyncEvent::RealmDone { missing: 0 },
        ],
    );
    assert_eq!(actions[4], SyncAction::CreateDestination { realm: Realm::Dev });
    assert_eq!(actions[5], SyncAction::Vendor { realm: Realm::Dev });
    assert_eq!(actions[6], SyncAction::Report { nothing_to_do: true });
    assert_eq!(state.selected, set(false, false, true));
}

#[test]
fn realms_are_vendored_in_fixed_order_whatever_the_order_asked() {
    let a = args(vec![Realm::Dev, Realm::Shared, Realm::Server, Realm::Dev]);
    let (_, actions) = run(
        &a,
        &[
            SyncEvent::PoolReady,
            config_read(1, 1, 1),
            SyncEvent::LockfileRead,
            SyncEvent::PinsAnnounced,
            SyncEvent::DestinationReady,
            SyncEvent::DestinationReady,
            SyncEvent::DestinationReady,
            SyncEvent::RealmDone { missing: 0 },
            SyncEvent::RealmDone { missing: 0 },
            SyncEvent::RealmDone { missing: 0 },
        ],
    );
    assert_eq!(actions[4], SyncAction::CreateDestination { realm: Realm::Shared });
    assert_eq!(actions[5], SyncAction::CreateDestination { realm: Realm::Server });
    assert_eq!(actions[6], SyncAction::CreateDestination { realm: Realm::Dev });
    assert_eq!(actions[7], SyncAction::Vendor { realm: Realm::Shared });
    assert_eq!(actions[8], SyncAction::Vendor { realm: Realm::Server });
    assert_eq!(actions[9], SyncAction::Vendor { realm: Realm::Dev });
    assert_eq!(actions[10], SyncAction::Report { nothing_to_do: false });
}

#[test]
fn a_missing_configuration_is_fatal() {
    let (state, actions) = run(&args(vec![]), &[SyncEvent::PoolReady, SyncEvent::ConfigMissing]);
    assert_eq!(state.stage, Stage::Terminal(Outcome::Fatal(SyncError::ConfigNotFound)));
    assert_eq!(
        actions.last(),
        Some(&SyncAction::Exit { outcome: Outcome::Fatal(SyncError::ConfigNotFound) })
    );
}

#[test]
fn an_invalid_configuration_is_fatal() {
    let (state, _) = run(&args(vec![]), &[SyncEvent::PoolReady, SyncEvent::ConfigInvalid]);
    assert_eq!(state.stage, Stage::Terminal(Outcome::Fatal(SyncError::ConfigParseError)));
}

#[test]
fn a_missing_lockfile_is_fatal_only_when_one_is_demanded() {
    let mut a = args(vec![Realm::Shared]);
    a.locked = true;
    let events = [SyncEvent::PoolReady, config_read(1, 0, 0), SyncEvent::LockfileAbsent];
    let (state, _) = run(&a, &events);
    assert_eq!(
        state.stage,
        Stage::Terminal(Outcome::Fatal(SyncError::LockfileRequiredButMissing))
    );
    a.locked = false;
    let (state, actions) = run(&a, &events);
    assert_eq!(state.stage, Stage::LockfileResolved);
    assert_eq!(actions.last(), Some(&SyncAction::AnnouncePins { pinned: false }));
}

#[test]
fn an_invalid_lockfile_is_fatal() {
    let (state, _) = run(
        &args(vec![]),
        &[SyncEvent::PoolReady, config_read(1, 0, 0), SyncEvent::LockfileInvalid],
    );
    assert_eq!(state.stage, Stage::Terminal(Outcome::Fatal(SyncError::LockfileParseError)));
}

#[test]
fn a_failed_clean_is_fatal_and_nothing_is_vendored() {
    let mut a = args(vec![Realm::Shared]);
    a.clean = true;
    let (state, actions) = run(
        &a,
        &[
            SyncEvent::PoolReady,
            config_read(1, 0, 0),
            SyncEvent::LockfileRead,
            SyncEvent::PinsAnnounced,
            SyncEvent::CleanFailed,
            SyncEvent::DestinationReady,
            SyncEvent::RealmDone { missing: 0 },
        ],
    );
    assert_eq!(state.stage, Stage::Terminal(Outcome::Fatal(SyncError::DestinationCleanError)));
    assert!(!actions.iter().any(|action| matches!(
        action,
        SyncAction::Vendor { .. } | SyncAction::CreateDestination { .. }
    )));
}

#[test]
fn a_destination_that_cannot_be_created_is_fatal_before_any_copy() {
    let (state, actions) = run(
        &args(vec![Realm::Shared, Realm::Dev]),
        &[
            SyncEvent::PoolReady,
            config_read(1, 0, 1),
            SyncEvent::LockfileRead,
            SyncEvent::PinsAnnounced,
            SyncEvent::DestinationReady,
            SyncEvent::DestinationFailed,
        ],
    );
    assert_eq!(state.stage, Stage::Terminal(Outcome::Fatal(SyncError::DestinationCreateError)));
    assert!(!actions.iter().any(|action| matches!(action, SyncAction::Vendor { .. })));
}

#[test]
fn once_realms_are_vendored_a_destination_event_changes_nothing() {
    let (state, actions) = run(
        &args(vec![Realm::Shared, Realm::Dev]),
        &[
            SyncEvent::PoolReady,
            config_read(1, 0, 1),
            SyncEvent::LockfileRead,
            SyncEvent::PinsAnnounced,
            SyncEvent::RealmDone { missing: 3 },
            SyncEvent::DestinationReady,
            SyncEvent::DestinationReady,
            SyncEvent::DestinationFailed,
            SyncEvent::DestinationReady,
        ],
    );
    assert_eq!(state.stage, Stage::PerRealmExecute);
    assert!(state.vendoring);
    assert!(!state.missing);
    assert_eq!(actions.last(), Some(&SyncAction::Vendor { realm: Realm::Shared }));
}

#[test]
fn an_event_that_answers_nothing_changes_nothing() {
    let (state, action) = begin(&args(vec![]));
    let (same, again) = execute(state, SyncEvent::SummaryPrinted);
    assert_eq!(same, state);
    assert_eq!(again, action);
    let (over, _) = run(&args(vec![]), &[SyncEvent::PoolReady, SyncEvent::ConfigMissing]);
    let (still, exit) = execute(over, SyncEvent::LockfileRead);
    assert_eq!(still, over);
    assert_eq!(exit, SyncAction::Exit { outcome: Outcome::Fatal(SyncError::ConfigNotFound) });
}

#[test]
fn clean_is_left_out_when_not_asked_for() {
    let (_, actions) = run(
        &args(vec![Realm::Shared]),
        &[SyncEvent::PoolReady, config_read(1, 0, 0), SyncEvent::LockfileRead, SyncEvent::PinsAnnounced],
    );
    assert_eq!(actions.last(), Some(&SyncAction::CreateDestination { realm: Realm::Shared }));
}

#[test]
fn begin_takes_the_flags_and_the_pool_size() {
    let mut a = args(vec![Realm::Server, Realm::Server]);
    a.jobs = Some(4);
    a.strict = true;
    a.locked = true;
    let (state, action) = begin(&a);
    assert_eq!(action, SyncAction::ConfigurePool { jobs: 4 });
    assert_eq!(state.jobs, 4);
    assert_eq!(state.requested, set(false, true, false));
    assert!(state.strict && state.locked && !state.clean && !state.missing);
    a.jobs = Some(0);
    assert_eq!(begin(&a).1, SyncAction::ConfigurePool { jobs: 0 });
    a.jobs = None;
    assert_eq!(begin(&a).1, SyncAction::ConfigurePool { jobs: 0 });
}

#[test]
fn realm_set_of_a_list() {
    assert_eq!(RealmSet::of(&vec![]), set(false, false, false));
    assert_eq!(RealmSet::of(&vec![Realm::Dev, Realm::Shared]), set(true, false, true));
    assert!(RealmSet::of(&vec![]).none());
    assert!(set(false, true, false).has(Realm::Server));
    assert!(!set(false, true, false).has(Realm::Dev));
}

#[test]
fn realms_are_those_asked_for_or_those_with_dependencies() {
    assert_eq!(select_realms(set(false, false, false), set(true, false, true)), set(true, false, true));
    assert_eq!(select_realms(set(false, true, false), set(true, false, true)), set(false, true, false));
    assert_eq!(select_realms(set(false, false, false), set(false, false, false)), set(false, false, false));
}

#[test]
fn destination_on_the_command_line_comes_first() {
    let mut a = args(vec![]);
    a.server_dir = Some("cli-server".to_string());
    let config = VendorConfig {
        shared_dir: Some("cfg-shared".to_string()),
        server_dir: Some("cfg-server".to_string()),
        dev_dir: None,
    };
    assert_eq!(destination(Realm::Server, &a, &config), "cli-server");
    assert_eq!(destination(Realm::Shared, &a, &config), "cfg-shared");
    assert_eq!(destination(Realm::Dev, &a, &config), "WallyVendor");
    assert_eq!(destination(Realm::Shared, &a, &no_config()), "WallyVendor");
    a.dev_dir = Some("cli-dev".to_string());
    assert_eq!(destination(Realm::Dev, &a, &no_config()), "cli-dev");
}

#[test]
fn sources_of_server_and_dev_stand_beside_the_shared_packages() {
    assert_eq!(source_sibling(Realm::Shared), None);
    assert_eq!(source_sibling(Realm::Server), Some("ServerPackages"));
    assert_eq!(source_sibling(Realm::Dev), Some("DevPackages"));
}

#[test]
fn clean_of_server_leaves_shared_and_dev_alone() {
    let mut a = args(vec![Realm::Server]);
    a.shared_dir = Some("out/shared".to_string());
    a.server_dir = Some("out/server".to_string());
    a.dev_dir = Some("out/dev".to_string());
    let dirs = dirs_to_clean(RealmSet::of(&a.realms), &a, &no_config());
    assert_eq!(dirs, vec!["out/server".to_string()]);
}

#[test]
fn a_destination_shared_by_realms_is_cleaned_once() {
    let mut a = args(vec![]);
    a.dev_dir = Some("out/dev".to_string());
    let all = dirs_to_clean(set(true, true, true), &a, &no_config());
    assert_eq!(all, vec!["WallyVendor".to_string(), "out/dev".to_string()]);
    let none = dirs_to_clean(set(false, false, false), &a, &no_config());
    assert!(none.is_empty());
    let one = dirs_to_clean(set(false, true, false), &a, &no_config());
    assert_eq!(one, vec!["WallyVendor".to_string()]);
}

#[test]
fn the_named_configuration_file_must_exist() {
    let named = Some("deps.toml".to_string());
    assert_eq!(find_config_path(&named, true, true, true), Ok("deps.toml".to_string()));
    assert_eq!(find_config_path(&named, false, true, true), Err(SyncError::ConfigNotFound));
}

#[test]
fn the_default_configuration_files_are_tried_in_order() {
    assert_eq!(find_config_path(&None, false, true, true), Ok("wally-vendor.toml".to_string()));
    assert_eq!(find_config_path(&None, true, false, true), Ok("wally.toml".to_string()));
    assert_eq!(find_config_path(&None, true, false, false), Err(SyncError::ConfigNotFound));
    assert_eq!(VENDOR_CONFIG, "wally-vendor.toml");
    assert_eq!(WALLY_CONFIG, "wally.toml");
    assert_eq!(LOCKFILE, "wally.lock");
}

fn group(aliases: &[&str]) -> StringMap {
    let mut t = StringMap::new();
    for alias in aliases {
        t.insert(alias.to_string(), "s/p".to_string());
    }
    t
}

#[test]
fn a_loaded_configuration_is_reported_by_the_sizes_of_its_groups() {
    let manifest = Manifest {
        dependencies: group(&["a", "b"]),
        server_dependencies: group(&[]),
        dev_dependencies: group(&["c"]),
    };
    assert_eq!(read_event(&manifest), SyncEvent::ConfigRead { shared: 2, server: 0, dev: 1 });
    assert_eq!(manifest.dependencies_of(Realm::Dev).len(), 1);
    assert_eq!(manifest.dependencies_of(Realm::Server).len(), 0);
    assert_eq!(manifest.dependencies_of(Realm::Shared).len(), 2);
}

#[test]
fn a_realm_is_reported_by_the_number_of_its_missing_dependencies() {
    let plan = vendor_packages(&group(&["a", "b"]), &IndexListing::Absent, None);
    assert_eq!(realm_done(&plan), SyncEvent::RealmDone { missing: 2 });
}

#[test]
fn the_shared_realm_is_installed_in_the_packages_directory() {
    assert_eq!(source_root(Realm::Shared, "Packages"), "Packages");
    assert_eq!(source_root(Realm::Shared, "proj/Packages"), "proj/Packages");
    assert_eq!(source_root(Realm::Shared, ""), "");
}

#[test]
fn server_and_dev_are_installed_beside_the_packages_directory() {
    assert_eq!(Path::new(&source_root(Realm::Server, "Packages")), Path::new("ServerPackages"));
    assert_eq!(Path::new(&source_root(Realm::Dev, "Packages")), Path::new("DevPackages"));
    assert_eq!(
        Path::new(&source_root(Realm::Server, "proj/Packages")),
        Path::new("proj").join("ServerPackages")
    );
    assert_eq!(
        Path::new(&source_root(Realm::Dev, "proj/Packages")),
        Path::new("proj").join("DevPackages")
    );
    assert_eq!(Path::new(&source_root(Realm::Dev, "")), Path::new(".").join("DevPackages"));
}

#[test]
fn without_a_parent_the_siblings_stand_in_the_current_directory() {
    assert_eq!(sibling_base(None), ".");
    assert_eq!(sibling_base(Some("proj".to_string())), "proj");
    assert_eq!(sibling_base(Some(String::new())), "");
}
