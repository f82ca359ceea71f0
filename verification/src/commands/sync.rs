//! The `sync` command: how a run proceeds from its arguments to its end.
//!
//! A run is a sequence of steps that need the world outside the library:
//! setting up the copy pool, reading the configuration and the lockfile,
//! removing and creating directories, copying, printing. The library decides;
//! the program acts. [`begin`] gives the first state and what to do first.
//! The program does it, reports what happened as a [`SyncEvent`], and
//! [`execute`] answers with the next state and the next thing to do, until
//! that is [`SyncAction::Exit`].

use crate::cli::{realm_rank, Realm, SyncArgs};
use crate::config::{Manifest, VendorConfig};
use crate::paths::{joined_path, parent_of, path_join, path_parent};
use crate::planner::VendorPlan;
use crate::text::{contains_text, lemma_unique, unique};
use vstd::prelude::*;

verus! {

/// A set of realms.
#[derive(Copy, Clone, PartialEq, Eq, Debug)]
pub struct RealmSet {
    pub shared: bool,
    pub server: bool,
    pub dev: bool,
}

impl RealmSet {
    /// Whether the realm is in the set.
    pub open spec fn contains(self, realm: Realm) -> bool {
        match realm {
            Realm::Shared => self.shared,
            Realm::Server => self.server,
            Realm::Dev => self.dev,
        }
    }

    /// Whether no realm is in the set.
    pub open spec fn is_empty(self) -> bool {
        !self.shared && !self.server && !self.dev
    }

    /// Whether the two sets share a realm.
    pub open spec fn meets(self, other: RealmSet) -> bool {
        ||| self.shared && other.shared
        ||| self.server && other.server
        ||| self.dev && other.dev
    }

    /// Whether the realm is in the set.
    pub fn has(&self, realm: Realm) -> (r: bool)
        ensures
            r == self.contains(realm),
    {
        match realm {
            Realm::Shared => self.shared,
            Realm::Server => self.server,
            Realm::Dev => self.dev,
        }
    }

    /// Whether no realm is in the set.
    pub fn none(&self) -> (r: bool)
        ensures
            r == self.is_empty(),
    {
        !self.shared && !self.server && !self.dev
    }

    /// The realms of a list, as a set.
    pub fn of(realms: &Vec<Realm>) -> (r: RealmSet)
        ensures
            forall|realm: Realm| r.contains(realm) == realms@.contains(realm),
    {
        let mut set = RealmSet { shared: false, server: false, dev: false };
        let n: usize = realms.len();
        let mut i: usize = 0;
        while i < n
            invariant
                n == realms@.len(),
                i <= n,
                forall|realm: Realm| set.contains(realm) == realms@.take(i as int).contains(realm),
            decreases n - i,
        {
            let ghost before = realms@.take(i as int);
            let ghost earlier = set;
            match realms[i] {
                Realm::Shared => {
                    set.shared = true;
                },
                Realm::Server => {
                    set.server = true;
                },
                Realm::Dev => {
                    set.dev = true;
                },
            }
            i = i + 1;
            proof {
                let now = realms@.take(i as int);
                let added = realms@[i - 1];
                assert(now =~= before.push(added));
                assert forall|realm: Realm| set.contains(realm) == now.contains(realm) by {
                    assert(set.contains(realm) == (earlier.contains(realm) || realm == added));
                    if before.contains(realm) {
                        let k = choose|k: int| 0 <= k < before.len() && before[k] == realm;
                        assert(now[k] == realm);
                    }
                    if realm == added {
                        assert(now[i - 1] == realm);
                    }
                    if now.contains(realm) {
                        let k = choose|k: int| 0 <= k < now.len() && now[k] == realm;
                        if k < i - 1 {
                            assert(before[k] == realm);
                        }
                    }
                }
            }
        }
        assert(realms@.take(n as int) =~= realms@);
        set
    }
}

/// The realms that a run vendors: those asked for, or, when none was asked
/// for, every realm whose dependency group is not empty.
pub open spec fn selected_realms(requested: RealmSet, nonempty: RealmSet) -> RealmSet {
    if requested.is_empty() {
        nonempty
    } else {
        requested
    }
}

/// The realms that a run vendors: those asked for, or, when none was asked
/// for, every realm whose dependency group is not empty.
pub fn select_realms(requested: RealmSet, nonempty: RealmSet) -> (r: RealmSet)
    ensures
        r == selected_realms(requested, nonempty),
{
    if requested.none() {
        nonempty
    } else {
        requested
    }
}

/// The first realm of the set at or after position `from` in the order
/// Shared, Server, Dev.
pub open spec fn next_realm(selected: RealmSet, from: int) -> Option<Realm> {
    if from <= 0 && selected.shared {
        Some(Realm::Shared)
    } else if from <= 1 && selected.server {
        Some(Realm::Server)
    } else if from <= 2 && selected.dev {
        Some(Realm::Dev)
    } else {
        None
    }
}

/// The size of the copy pool to set up: the number of jobs asked for, or 0
/// for the default pool when none or zero was asked for.
pub open spec fn pool_size(jobs: Option<usize>) -> usize {
    match jobs {
        Some(n) => n,
        None => 0,
    }
}

/// What stops a run at once. The program reports it with the file or
/// directory concerned.
#[derive(Copy, Clone, PartialEq, Eq, Debug)]
pub enum SyncError {
    /// No configuration file was found.
    ConfigNotFound,
    /// The configuration file could not be read as a configuration.
    ConfigParseError,
    /// A lockfile was demanded and there is none.
    LockfileRequiredButMissing,
    /// The lockfile could not be read as a lockfile.
    LockfileParseError,
    /// The destination of a selected realm could not be created.
    DestinationCreateError,
    /// The destination of a selected realm could not be removed.
    DestinationCleanError,
}

/// How a run ends.
#[derive(Copy, Clone, PartialEq, Eq, Debug)]
pub enum Outcome {
    /// The run did all it was asked to do, or packages are missing and
    /// strict mode is off.
    Success,
    /// The run was stopped, before any copy, by an error.
    Fatal(SyncError),
    /// Packages are missing and strict mode is on.
    StrictMissing,
}

/// Where a run stands.
#[derive(Copy, Clone, PartialEq, Eq, Debug)]
pub enum Stage {
    /// The run has its arguments; the copy pool is to be set up.
    Init,
    /// The realms asked for are known; the configuration is to be loaded.
    RealmsSelected,
    /// The configuration is loaded and the realms to vendor are final; the
    /// lockfile is to be loaded.
    ConfigLoaded,
    /// It is known whether versions are pinned; the user is to be told.
    LockfileResolved,
    /// The destinations of the selected realms are being removed.
    Cleaning,
    /// The selected realms are being worked on, in order: first the
    /// destination of each is created, then each is vendored.
    PerRealmExecute,
    /// All realms are done; the summary is being printed.
    Reported,
    /// The run is over.
    Terminal(Outcome),
}

/// The state of a run.
#[derive(Copy, Clone, PartialEq, Eq, Debug)]
pub struct SyncState {
    pub stage: Stage,
    /// The size of the copy pool; 0 for the default.
    pub jobs: usize,
    pub strict: bool,
    pub clean: bool,
    pub locked: bool,
    /// The realms asked for on the command line.
    pub requested: RealmSet,
    /// The realms whose dependency group is not empty.
    pub nonempty: RealmSet,
    /// The realms that this run vendors.
    pub selected: RealmSet,
    /// Whether a lockfile pins the versions.
    pub pinned: bool,
    /// Whether the destinations are all created and realms are vendored.
    pub vendoring: bool,
    /// The realm whose destination is being created, or that is being
    /// vendored.
    pub cursor: Realm,
    /// Whether a package was missing in a realm done so far.
    pub missing: bool,
}

/// What the program reports back.
#[derive(Copy, Clone, PartialEq, Eq, Debug)]
pub enum SyncEvent {
    /// The copy pool is set up.
    PoolReady,
    /// No configuration file exists.
    ConfigMissing,
    /// The configuration file does not hold a configuration.
    ConfigInvalid,
    /// The configuration is loaded; the sizes of its dependency groups.
    ConfigRead { shared: usize, server: usize, dev: usize },
    /// There is no lockfile.
    LockfileAbsent,
    /// The lockfile does not hold a lockfile.
    LockfileInvalid,
    /// The lockfile is loaded.
    LockfileRead,
    /// The user has been told whether versions are pinned.
    PinsAnnounced,
    /// The destinations are removed.
    Cleaned,
    /// A destination could not be removed.
    CleanFailed,
    /// The destination of the realm is created, or was there.
    DestinationReady,
    /// The destination of the realm could not be created.
    DestinationFailed,
    /// The realm is vendored; the number of its missing packages.
    RealmDone { missing: usize },
    /// The summary is printed.
    SummaryPrinted,
}

/// What the program is to do next.
#[derive(Copy, Clone, PartialEq, Eq, Debug)]
pub enum SyncAction {
    /// Set up the copy pool with this many jobs; 0 for the default pool.
    ConfigurePool { jobs: usize },
    /// Locate and load the configuration.
    LoadConfig,
    /// Load the lockfile, if there is one.
    LoadLockfile,
    /// Tell the user whether the lockfile pins the versions; warn if not.
    AnnouncePins { pinned: bool },
    /// Remove the destination of each selected realm.
    CleanDestinations,
    /// Create the destination of the realm, unless it exists.
    CreateDestination { realm: Realm },
    /// Vendor the packages of the realm into its destination.
    Vendor { realm: Realm },
    /// Print the summary, with the missing packages in order; or, when the
    /// selected realms have no dependency, that there is nothing to vendor.
    Report { nothing_to_do: bool },
    /// End the run.
    Exit { outcome: Outcome },
}

/// The state that goes on with the first selected realm at or after
/// `from`: while destinations are created, with the creation of its
/// destination, and when none is left, with the vendoring of the first
/// selected realm; while realms are vendored, with its vendoring, and
/// when none is left, with the summary.
pub open spec fn enter_realms(s: SyncState, from: int) -> SyncState {
    match next_realm(s.selected, from) {
        Some(realm) => SyncState { stage: Stage::PerRealmExecute, cursor: realm, ..s },
        None => if s.vendoring {
            SyncState { stage: Stage::Reported, ..s }
        } else {
            match next_realm(s.selected, 0) {
                Some(realm) => SyncState {
                    stage: Stage::PerRealmExecute,
                    vendoring: true,
                    cursor: realm,
                    ..s
                },
                None => SyncState { stage: Stage::Reported, vendoring: true, ..s },
            }
        },
    }
}

/// The state over, with its outcome.
pub open spec fn ended(s: SyncState, outcome: Outcome) -> SyncState {
    SyncState { stage: Stage::Terminal(outcome), ..s }
}

/// How a run ends once the summary is printed.
pub open spec fn verdict(missing: bool, strict: bool) -> Outcome {
    if missing && strict {
        Outcome::StrictMissing
    } else {
        Outcome::Success
    }
}

/// The state after an event. An event that does not answer what the state
/// waits for changes nothing.
pub open spec fn next_state(s: SyncState, e: SyncEvent) -> SyncState {
    match (s.stage, e) {
        (Stage::Init, SyncEvent::PoolReady) => SyncState { stage: Stage::RealmsSelected, ..s },
        (Stage::RealmsSelected, SyncEvent::ConfigMissing) => ended(
            s,
            Outcome::Fatal(SyncError::ConfigNotFound),
        ),
        (Stage::RealmsSelected, SyncEvent::ConfigInvalid) => ended(
            s,
            Outcome::Fatal(SyncError::ConfigParseError),
        ),
        (Stage::RealmsSelected, SyncEvent::ConfigRead { shared, server, dev }) => {
            let nonempty = RealmSet { shared: shared > 0, server: server > 0, dev: dev > 0 };
            SyncState {
                stage: Stage::ConfigLoaded,
                nonempty: nonempty,
                selected: selected_realms(s.requested, nonempty),
                ..s
            }
        },
        (Stage::ConfigLoaded, SyncEvent::LockfileAbsent) => if s.locked {
            ended(s, Outcome::Fatal(SyncError::LockfileRequiredButMissing))
        } else {
            SyncState { stage: Stage::LockfileResolved, pinned: false, ..s }
        },
        (Stage::ConfigLoaded, SyncEvent::LockfileInvalid) => ended(
            s,
            Outcome::Fatal(SyncError::LockfileParseError),
        ),
        (Stage::ConfigLoaded, SyncEvent::LockfileRead) => SyncState {
            stage: Stage::LockfileResolved,
            pinned: true,
            ..s
        },
        (Stage::LockfileResolved, SyncEvent::PinsAnnounced) => if s.clean
            && !s.selected.is_empty() {
            SyncState { stage: Stage::Cleaning, ..s }
        } else {
            enter_realms(s, 0)
        },
        (Stage::Cleaning, SyncEvent::Cleaned) => enter_realms(s, 0),
        (Stage::Cleaning, SyncEvent::CleanFailed) => ended(
            s,
            Outcome::Fatal(SyncError::DestinationCleanError),
        ),
        (Stage::PerRealmExecute, SyncEvent::DestinationReady) => if s.vendoring {
            s
        } else {
            enter_realms(s, realm_rank(s.cursor) + 1)
        },
        (Stage::PerRealmExecute, SyncEvent::DestinationFailed) => if s.vendoring {
            s
        } else {
            ended(s, Outcome::Fatal(SyncError::DestinationCreateError))
        },
        (Stage::PerRealmExecute, SyncEvent::RealmDone { missing }) => if s.vendoring {
            enter_realms(
                SyncState { missing: s.missing || missing > 0, ..s },
                realm_rank(s.cursor) + 1,
            )
        } else {
            s
        },
        (Stage::Reported, SyncEvent::SummaryPrinted) => ended(s, verdict(s.missing, s.strict)),
        _ => s,
    }
}

/// What a state waits for.
pub open spec fn pending_action(s: SyncState) -> SyncAction {
    match s.stage {
        Stage::Init => SyncAction::ConfigurePool { jobs: s.jobs },
        Stage::RealmsSelected => SyncAction::LoadConfig,
        Stage::ConfigLoaded => SyncAction::LoadLockfile,
        Stage::LockfileResolved => SyncAction::AnnouncePins { pinned: s.pinned },
        Stage::Cleaning => SyncAction::CleanDestinations,
        Stage::PerRealmExecute => if s.vendoring {
            SyncAction::Vendor { realm: s.cursor }
        } else {
            SyncAction::CreateDestination { realm: s.cursor }
        },
        Stage::Reported => SyncAction::Report { nothing_to_do: !s.selected.meets(s.nonempty) },
        Stage::Terminal(outcome) => SyncAction::Exit { outcome },
    }
}

/// The state in which a run with these arguments begins.
pub open spec fn initial_state(args: SyncArgs) -> SyncState {
    SyncState {
        stage: Stage::Init,
        jobs: pool_size(args.jobs),
        strict: args.strict,
        clean: args.clean,
        locked: args.locked,
        requested: RealmSet {
            shared: args.realms@.contains(Realm::Shared),
            server: args.realms@.contains(Realm::Server),
            dev: args.realms@.contains(Realm::Dev),
        },
        nonempty: RealmSet { shared: false, server: false, dev: false },
        selected: RealmSet { shared: false, server: false, dev: false },
        pinned: false,
        vendoring: false,
        cursor: Realm::Shared,
        missing: false,
    }
}

/// Begins a run: the first state and what to do first.
pub fn begin(args: &SyncArgs) -> (r: (SyncState, SyncAction))
    ensures
        r.0 == initial_state(*args),
        r.1 == pending_action(r.0),
{
    let jobs: usize = match args.jobs {
        Some(n) => n,
        None => 0,
    };
    let requested = RealmSet::of(&args.realms);
    assert(requested.contains(Realm::Shared) == args.realms@.contains(Realm::Shared));
    assert(requested.contains(Realm::Server) == args.realms@.contains(Realm::Server));
    assert(requested.contains(Realm::Dev) == args.realms@.contains(Realm::Dev));
    let state = SyncState {
        stage: Stage::Init,
        jobs,
        strict: args.strict,
        clean: args.clean,
        locked: args.locked,
        requested,
        nonempty: RealmSet { shared: false, server: false, dev: false },
        selected: RealmSet { shared: false, server: false, dev: false },
        pinned: false,
        vendoring: false,
        cursor: Realm::Shared,
        missing: false,
    };
    (state, SyncAction::ConfigurePool { jobs })
}

/// What the state waits for.
pub fn action_of(state: &SyncState) -> (r: SyncAction)
    ensures
        r == pending_action(*state),
{
    match state.stage {
        Stage::Init => SyncAction::ConfigurePool { jobs: state.jobs },
        Stage::RealmsSelected => SyncAction::LoadConfig,
        Stage::ConfigLoaded => SyncAction::LoadLockfile,
        Stage::LockfileResolved => SyncAction::AnnouncePins { pinned: state.pinned },
        Stage::Cleaning => SyncAction::CleanDestinations,
        Stage::PerRealmExecute => {
            if state.vendoring {
                SyncAction::Vendor { realm: state.cursor }
            } else {
                SyncAction::CreateDestination { realm: state.cursor }
            }
        },
        Stage::Reported => {
            let some = (state.selected.shared && state.nonempty.shared) || (state.selected.server
                && state.nonempty.server) || (state.selected.dev && state.nonempty.dev);
            SyncAction::Report { nothing_to_do: !some }
        },
        Stage::Terminal(outcome) => SyncAction::Exit { outcome },
    }
}

/// The first realm of the set at or after position `from`.
fn realm_from(selected: RealmSet, from: u8) -> (r: Option<Realm>)
    ensures
        r == next_realm(selected, from as int),
{
    if from == 0 && selected.shared {
        Some(Realm::Shared)
    } else if from <= 1 && selected.server {
        Some(Realm::Server)
    } else if from <= 2 && selected.dev {
        Some(Realm::Dev)
    } else {
        None
    }
}

/// Goes on with the first selected realm at or after position `from`.
fn enter(state: SyncState, from: u8) -> (r: SyncState)
    ensures
        r == enter_realms(state, from as int),
{
    let mut next = state;
    match realm_from(state.selected, from) {
        Some(realm) => {
            next.stage = Stage::PerRealmExecute;
            next.cursor = realm;
        },
        None => {
            if state.vendoring {
                next.stage = Stage::Reported;
            } else {
                next.vendoring = true;
                match realm_from(state.selected, 0) {
                    Some(realm) => {
                        next.stage = Stage::PerRealmExecute;
                        next.cursor = realm;
                    },
                    None => {
                        next.stage = Stage::Reported;
                    },
                }
            }
        },
    }
    next
}

/// The position after a realm in the order of the realms.
fn after_realm(realm: Realm) -> (r: u8)
    ensures
        r == realm_rank(realm) + 1,
{
    match realm {
        Realm::Shared => 1,
        Realm::Server => 2,
        Realm::Dev => 3,
    }
}

/// Ends the run.
fn end(state: SyncState, outcome: Outcome) -> (r: SyncState)
    ensures
        r == ended(state, outcome),
{
    let mut next = state;
    next.stage = Stage::Terminal(outcome);
    next
}

/// Takes one step of a run: from the state and what the program reports to
/// the next state and what the program is to do next.
pub fn execute(state: SyncState, event: SyncEvent) -> (r: (SyncState, SyncAction))
    ensures
        r.0 == next_state(state, event),
        r.1 == pending_action(r.0),
{
    let next = match (state.stage, event) {
        (Stage::Init, SyncEvent::PoolReady) => {
            let mut next = state;
            next.stage = Stage::RealmsSelected;
            next
        },
        (Stage::RealmsSelected, SyncEvent::ConfigMissing) => end(
            state,
            Outcome::Fatal(SyncError::ConfigNotFound),
        ),
        (Stage::RealmsSelected, SyncEvent::ConfigInvalid) => end(
            state,
            Outcome::Fatal(SyncError::ConfigParseError),
        ),
        (Stage::RealmsSelected, SyncEvent::ConfigRead { shared, server, dev }) => {
            let nonempty = RealmSet { shared: shared > 0, server: server > 0, dev: dev > 0 };
            let mut next = state;
            next.stage = Stage::ConfigLoaded;
            next.nonempty = nonempty;
            next.selected = select_realms(state.requested, nonempty);
            next
        },
        (Stage::ConfigLoaded, SyncEvent::LockfileAbsent) => {
            if state.locked {
                end(state, Outcome::Fatal(SyncError::LockfileRequiredButMissing))
            } else {
                let mut next = state;
                next.stage = Stage::LockfileResolved;
                next.pinned = false;
                next
            }
        },
        (Stage::ConfigLoaded, SyncEvent::LockfileInvalid) => end(
            state,
            Outcome::Fatal(SyncError::LockfileParseError),
        ),
        (Stage::ConfigLoaded, SyncEvent::LockfileRead) => {
            let mut next = state;
            next.stage = Stage::LockfileResolved;
            next.pinned = true;
            next
        },
        (Stage::LockfileResolved, SyncEvent::PinsAnnounced) => {
            if state.clean && !state.selected.none() {
                let mut next = state;
                next.stage = Stage::Cleaning;
                next
            } else {
                enter(state, 0)
            }
        },
        (Stage::Cleaning, SyncEvent::Cleaned) => enter(state, 0),
        (Stage::Cleaning, SyncEvent::CleanFailed) => end(
            state,
            Outcome::Fatal(SyncError::DestinationCleanError),
        ),
        (Stage::PerRealmExecute, SyncEvent::DestinationReady) => {
            if state.vendoring {
                state
            } else {
                enter(state, after_realm(state.cursor))
            }
        },
        (Stage::PerRealmExecute, SyncEvent::DestinationFailed) => {
            if state.vendoring {
                state
            } else {
                end(state, Outcome::Fatal(SyncError::DestinationCreateError))
            }
        },
        (Stage::PerRealmExecute, SyncEvent::RealmDone { missing }) => {
            if state.vendoring {
                let mut counted = state;
                counted.missing = state.missing || missing > 0;
                enter(counted, after_realm(state.cursor))
            } else {
                state
            }
        },
        (Stage::Reported, SyncEvent::SummaryPrinted) => {
            if state.missing && state.strict {
                end(state, Outcome::StrictMissing)
            } else {
                end(state, Outcome::Success)
            }
        },
        _ => state,
    };
    let action = action_of(&next);
    (next, action)
}

/// What is reported of a loaded configuration: the sizes of its
/// dependency groups.
pub fn config_read(manifest: &Manifest) -> (r: SyncEvent)
    ensures
        r == (SyncEvent::ConfigRead {
            shared: manifest.dependencies@.len() as usize,
            server: manifest.server_dependencies@.len() as usize,
            dev: manifest.dev_dependencies@.len() as usize,
        }),
{
    SyncEvent::ConfigRead {
        shared: manifest.dependencies.len(),
        server: manifest.server_dependencies.len(),
        dev: manifest.dev_dependencies.len(),
    }
}

/// What is reported of a realm whose plan has been carried out: the
/// number of its missing dependencies.
pub fn realm_done(plan: &VendorPlan) -> (r: SyncEvent)
    ensures
        r == (SyncEvent::RealmDone { missing: plan.missing.len() }),
{
    SyncEvent::RealmDone { missing: plan.missing.len() }
}

/// The position of a stage in the course of a run.
pub open spec fn stage_order(stage: Stage) -> int {
    match stage {
        Stage::Init => 0,
        Stage::RealmsSelected => 1,
        Stage::ConfigLoaded => 2,
        Stage::LockfileResolved => 3,
        Stage::Cleaning => 4,
        Stage::PerRealmExecute => 5,
        Stage::Reported => 6,
        Stage::Terminal(_) => 7,
    }
}

/// A run never goes back: no event leads to an earlier stage. So nothing is
/// removed once a realm is being vendored, and nothing is copied before the
/// configuration and the lockfile are dealt with.
pub proof fn law_stages_advance(s: SyncState, e: SyncEvent)
    ensures
        stage_order(s.stage) <= stage_order(next_state(s, e).stage),
{
}

/// A run that is over stays as it is, whatever is reported.
pub proof fn law_terminal_is_final(s: SyncState, e: SyncEvent)
    requires
        s.stage is Terminal,
    ensures
        next_state(s, e) == s,
{
}

/// A failure to load the configuration or the lockfile, or to remove or
/// create a destination, ends the run at once, with that error.
pub proof fn law_fatal_errors_stop(s: SyncState)
    ensures
        s.stage == Stage::RealmsSelected ==> next_state(s, SyncEvent::ConfigMissing).stage
            == Stage::Terminal(Outcome::Fatal(SyncError::ConfigNotFound)),
        s.stage == Stage::RealmsSelected ==> next_state(s, SyncEvent::ConfigInvalid).stage
            == Stage::Terminal(Outcome::Fatal(SyncError::ConfigParseError)),
        s.stage == Stage::ConfigLoaded && s.locked ==> next_state(
            s,
            SyncEvent::LockfileAbsent,
        ).stage == Stage::Terminal(Outcome::Fatal(SyncError::LockfileRequiredButMissing)),
        s.stage == Stage::ConfigLoaded ==> next_state(s, SyncEvent::LockfileInvalid).stage
            == Stage::Terminal(Outcome::Fatal(SyncError::LockfileParseError)),
        s.stage == Stage::Cleaning ==> next_state(s, SyncEvent::CleanFailed).stage
            == Stage::Terminal(Outcome::Fatal(SyncError::DestinationCleanError)),
        s.stage == Stage::PerRealmExecute && !s.vendoring ==> next_state(
            s,
            SyncEvent::DestinationFailed,
        ).stage == Stage::Terminal(Outcome::Fatal(SyncError::DestinationCreateError)),
{
}

/// Whether nothing has been copied yet: the run has not come to vendor a
/// realm, nor ended without an error.
pub open spec fn before_copies(s: SyncState) -> bool {
    match s.stage {
        Stage::PerRealmExecute => !s.vendoring,
        Stage::Reported => false,
        Stage::Terminal(outcome) => outcome is Fatal,
        _ => true,
    }
}

/// An error stops a run before anything is copied: a run begins with
/// nothing copied; once it has come to copy it never is before its copies
/// again; it is asked to vendor a realm only then; and it ends with an
/// error only from a state in which nothing has been copied.
pub proof fn law_errors_come_before_copies(s: SyncState, e: SyncEvent, args: SyncArgs)
    ensures
        before_copies(initial_state(args)),
        before_copies(next_state(s, e)) ==> before_copies(s),
        pending_action(s) is Vendor ==> !before_copies(s),
        next_state(s, e).stage matches Stage::Terminal(Outcome::Fatal(_)) ==> before_copies(s),
{
}

/// A run ends in `StrictMissing` only when its summary has just been
/// printed, and then exactly when strict mode is on and a package is
/// missing; otherwise a printed summary ends the run in `Success`.
pub proof fn law_strict_exit(s: SyncState, e: SyncEvent)
    ensures
        !(s.stage is Terminal) && next_state(s, e).stage == Stage::Terminal(
            Outcome::StrictMissing,
        ) ==> s.stage == Stage::Reported && e == SyncEvent::SummaryPrinted,
        s.stage == Stage::Reported && e == SyncEvent::SummaryPrinted ==> next_state(s, e).stage
            == Stage::Terminal(
            if s.missing && s.strict {
                Outcome::StrictMissing
            } else {
                Outcome::Success
            },
        ),
{
}

/// A package counts as missing from the realm in which it was reported on,
/// and a run that begins has none.
pub proof fn law_missing_is_kept(s: SyncState, e: SyncEvent, args: SyncArgs)
    ensures
        !initial_state(args).missing,
        s.missing ==> next_state(s, e).missing,
        e matches SyncEvent::RealmDone { missing } ==> (s.stage == Stage::PerRealmExecute
            && s.vendoring ==> next_state(s, e).missing == (s.missing || missing > 0)),
        !(s.stage == Stage::PerRealmExecute && s.vendoring && e is RealmDone) ==> next_state(
            s,
            e,
        ).missing == s.missing,
{
}

/// The destinations are removed only when that was asked for and a realm
/// is selected, and only between the lockfile and the first copy.
pub proof fn law_clean_when_asked(s: SyncState, e: SyncEvent)
    requires
        s.stage != Stage::Cleaning,
        next_state(s, e).stage == Stage::Cleaning,
    ensures
        s.stage == Stage::LockfileResolved,
        s.clean,
        !s.selected.is_empty(),
{
}

/// Whether the realm that a state works on is one of the selected realms.
pub open spec fn works_on_selected(s: SyncState) -> bool {
    s.stage == Stage::PerRealmExecute ==> s.selected.contains(s.cursor)
}

/// A run only ever works on selected realms: no destination is created
/// and nothing is vendored for a realm that is not selected.
pub proof fn law_only_selected_realms(s: SyncState, e: SyncEvent, args: SyncArgs)
    ensures
        works_on_selected(initial_state(args)),
        works_on_selected(s) ==> works_on_selected(next_state(s, e)),
{
}

/// Realms are worked on in the order Shared, Server, Dev, when their
/// destinations are created and when they are vendored: the realm that
/// follows one is selected and comes later in that order, and no selected
/// realm lies between the two. When the destination of the last selected
/// realm is created, the first selected realm is vendored; when the last
/// selected realm is vendored, the summary follows.
pub proof fn law_realms_in_order(s: SyncState, missing: usize)
    requires
        s.stage == Stage::PerRealmExecute,
        works_on_selected(s),
    ensures
        ({
            let e = if s.vendoring {
                SyncEvent::RealmDone { missing }
            } else {
                SyncEvent::DestinationReady
            };
            let n = next_state(s, e);
            let last = forall|r: Realm|
                realm_rank(s.cursor) < realm_rank(r) ==> !s.selected.contains(r);
            &&& n.selected == s.selected
            &&& n.stage == Stage::PerRealmExecute ==> n.selected.contains(n.cursor)
            &&& !last ==> {
                &&& n.stage == Stage::PerRealmExecute
                &&& n.vendoring == s.vendoring
                &&& realm_rank(s.cursor) < realm_rank(n.cursor)
                &&& forall|r: Realm|
                    realm_rank(s.cursor) < realm_rank(r) < realm_rank(n.cursor)
                        ==> !s.selected.contains(r)
            }
            &&& last && !s.vendoring ==> {
                &&& n.stage == Stage::PerRealmExecute
                &&& n.vendoring
                &&& forall|r: Realm| realm_rank(r) < realm_rank(n.cursor) ==> !s.selected.contains(r)
            }
            &&& last && s.vendoring ==> n.stage == Stage::Reported
        }),
{
    if s.selected.contains(Realm::Dev) && realm_rank(s.cursor) < 2 {
        assert(realm_rank(s.cursor) < realm_rank(Realm::Dev));
    }
    if s.selected.contains(Realm::Server) && realm_rank(s.cursor) < 1 {
        assert(realm_rank(s.cursor) < realm_rank(Realm::Server));
    }
}

/// The first realm to be worked on is the first selected one, and a run
/// with no selected realm goes straight to its summary.
pub proof fn law_first_realm(s: SyncState)
    requires
        !s.vendoring,
    ensures
        ({
            let n = enter_realms(s, 0);
            &&& n.stage == Stage::PerRealmExecute ==> {
                &&& !n.vendoring
                &&& s.selected.contains(n.cursor)
                &&& forall|r: Realm| realm_rank(r) < realm_rank(n.cursor) ==> !s.selected.contains(r)
            }
            &&& n.stage == Stage::Reported <==> s.selected.is_empty()
            &&& n.stage == Stage::PerRealmExecute || n.stage == Stage::Reported
        }),
{
}

/// The realms of a run are those asked for; when none is asked for, they
/// are the realms that have dependencies.
pub proof fn law_selection(s: SyncState, shared: usize, server: usize, dev: usize)
    requires
        s.stage == Stage::RealmsSelected,
    ensures
        ({
            let n = next_state(s, SyncEvent::ConfigRead { shared, server, dev });
            &&& !s.requested.is_empty() ==> n.selected == s.requested
            &&& s.requested.is_empty() ==> n.selected == RealmSet {
                shared: shared > 0,
                server: server > 0,
                dev: dev > 0,
            }
        }),
{
}

/// The name of the directory, beside the directory of shared packages, that
/// holds the installed packages of a realm. The shared realm has none: its
/// packages are in the directory of shared packages itself.
pub open spec fn sibling_name(realm: Realm) -> Option<Seq<char>> {
    match realm {
        Realm::Shared => None,
        Realm::Server => Some("ServerPackages"@),
        Realm::Dev => Some("DevPackages"@),
    }
}

/// Where the installed packages of a realm are: `None` for the directory
/// of shared packages, else the name of the directory beside it.
pub fn source_sibling(realm: Realm) -> (r: Option<&'static str>)
    ensures
        match r {
            Some(name) => sibling_name(realm) == Some(name@),
            None => sibling_name(realm).is_none(),
        },
{
    match realm {
        Realm::Shared => None,
        Realm::Server => Some("ServerPackages"),
        Realm::Dev => Some("DevPackages"),
    }
}

/// The directory beside which the installed packages of the server and
/// dev realms stand: the one that holds the directory of shared packages,
/// or the current directory where there is none.
pub open spec fn sibling_base_of(parent: Option<Seq<char>>) -> Seq<char> {
    match parent {
        Some(dir) => dir,
        None => "."@,
    }
}

/// The directory beside which the installed packages of the server and
/// dev realms stand, given the directory that holds the directory of
/// shared packages, if there is one.
pub fn sibling_base(parent: Option<String>) -> (r: String)
    ensures
        r@ == sibling_base_of(
            match parent {
                Some(dir) => Some(dir@),
                None => None,
            },
        ),
{
    match parent {
        Some(dir) => dir,
        None => ".".to_owned(),
    }
}

/// The directory of the installed packages of a realm: for the shared
/// realm the directory of shared packages; for the server and dev realms
/// the directory of the realm's name beside it, that is, in the directory
/// that holds the directory of shared packages.
pub open spec fn source_root_of(realm: Realm, packages_dir: Seq<char>) -> Seq<char> {
    match sibling_name(realm) {
        None => packages_dir,
        Some(name) => path_join(sibling_base_of(path_parent(packages_dir)), name),
    }
}

/// The directory of the installed packages of a realm.
pub fn source_root(realm: Realm, packages_dir: &str) -> (r: String)
    ensures
        r@ == source_root_of(realm, packages_dir@),
{
    match source_sibling(realm) {
        None => packages_dir.to_owned(),
        Some(name) => {
            let base = sibling_base(parent_of(packages_dir));
            joined_path(base.as_str(), name)
        },
    }
}

/// The first of the three that is given: the directory named on the
/// command line, the one set in the configuration, the common default.
pub open spec fn first_given(
    named: Option<String>,
    configured: Option<String>,
    default: String,
) -> Seq<char> {
    match named {
        Some(dir) => dir@,
        None => match configured {
            Some(dir) => dir@,
            None => default@,
        },
    }
}

/// The destination directory of a realm.
pub open spec fn destination_of(realm: Realm, args: SyncArgs, config: VendorConfig) -> Seq<char> {
    match realm {
        Realm::Shared => first_given(args.shared_dir, config.shared_dir, args.vendor_dir),
        Realm::Server => first_given(args.server_dir, config.server_dir, args.vendor_dir),
        Realm::Dev => first_given(args.dev_dir, config.dev_dir, args.vendor_dir),
    }
}

/// The destination directory of a realm: the one named for it on the
/// command line; else the one set for it in the configuration; else the
/// destination common to all realms.
pub fn destination<'a>(realm: Realm, args: &'a SyncArgs, config: &'a VendorConfig) -> (r: &'a String)
    ensures
        r@ == destination_of(realm, *args, *config),
{
    let (named, configured) = match realm {
        Realm::Shared => (&args.shared_dir, &config.shared_dir),
        Realm::Server => (&args.server_dir, &config.server_dir),
        Realm::Dev => (&args.dev_dir, &config.dev_dir),
    };
    match named {
        Some(dir) => dir,
        None => match configured {
            Some(dir) => dir,
            None => &args.vendor_dir,
        },
    }
}

/// The destinations of the selected realms, in the order of the realms.
pub open spec fn selected_destinations(
    selected: RealmSet,
    args: SyncArgs,
    config: VendorConfig,
) -> Seq<Seq<char>> {
    let shared = if selected.shared {
        seq![destination_of(Realm::Shared, args, config)]
    } else {
        Seq::empty()
    };
    let server = if selected.server {
        seq![destination_of(Realm::Server, args, config)]
    } else {
        Seq::empty()
    };
    let dev = if selected.dev {
        seq![destination_of(Realm::Dev, args, config)]
    } else {
        Seq::empty()
    };
    shared + server + dev
}

/// The directories to remove before copying: the destination of each
/// selected realm, a directory shared by several realms once.
pub fn dirs_to_clean(selected: RealmSet, args: &SyncArgs, config: &VendorConfig) -> (r: Vec<String>)
    ensures
        r.deep_view() == unique(selected_destinations(selected, *args, *config)),
{
    let mut dirs: Vec<String> = Vec::new();
    let ghost mut seen: Seq<Seq<char>> = Seq::empty();
    assert(dirs.deep_view() =~= unique(seen));
    if selected.shared {
        let dir = destination(Realm::Shared, args, config);
        add_directory(&mut dirs, dir, Ghost(seen));
        proof {
            seen = seen.push(dir@);
        }
    }
    if selected.server {
        let dir = destination(Realm::Server, args, config);
        add_directory(&mut dirs, dir, Ghost(seen));
        proof {
            seen = seen.push(dir@);
        }
    }
    if selected.dev {
        let dir = destination(Realm::Dev, args, config);
        add_directory(&mut dirs, dir, Ghost(seen));
        proof {
            seen = seen.push(dir@);
        }
    }
    assert(seen =~= selected_destinations(selected, *args, *config));
    dirs
}

/// Adds a directory to the directories to remove, unless it is among them:
/// `dirs` holds the directories of `seen`, each once, before, and those
/// of `seen` and `dir` after.
fn add_directory(dirs: &mut Vec<String>, dir: &String, Ghost(seen): Ghost<Seq<Seq<char>>>)
    requires
        old(dirs).deep_view() == unique(seen),
    ensures
        final(dirs).deep_view() == unique(seen.push(dir@)),
{
    assert(seen.push(dir@).drop_last() =~= seen);
    if !contains_text(dirs, dir) {
        dirs.push(dir.clone());
    }
    assert(dirs.deep_view() =~= unique(seen.push(dir@)));
}

/// Removing touches the destinations of the selected realms and nothing
/// else: every directory to remove is the destination of a selected realm,
/// every such destination is removed, and none is listed twice. So a realm
/// that is not selected keeps its destination, unless it shares it with a
/// selected realm.
pub proof fn law_clean_scope(selected: RealmSet, args: SyncArgs, config: VendorConfig)
    ensures
        ({
            let dirs = unique(selected_destinations(selected, args, config));
            &&& dirs.no_duplicates()
            &&& forall|dir: Seq<char>|
                dirs.contains(dir) <==> exists|realm: Realm|
                    selected.contains(realm) && #[trigger] destination_of(realm, args, config)
                        == dir
            &&& forall|realm: Realm|
                !selected.contains(realm) && (forall|other: Realm|
                    selected.contains(other) ==> #[trigger] destination_of(other, args, config)
                        != destination_of(realm, args, config)) ==> !dirs.contains(
                    #[trigger] destination_of(realm, args, config),
                )
        }),
{
    let all = selected_destinations(selected, args, config);
    let dirs = unique(all);
    lemma_unique(all);
    assert forall|dir: Seq<char>|
        dirs.contains(dir) <==> exists|realm: Realm|
            selected.contains(realm) && #[trigger] destination_of(realm, args, config)
                == dir by {
        if all.contains(dir) {
            let k = choose|k: int| 0 <= k < all.len() && all[k] == dir;
            assert(selected.contains(Realm::Shared) && destination_of(Realm::Shared, args, config)
                == dir || selected.contains(Realm::Server) && destination_of(
                Realm::Server,
                args,
                config,
            ) == dir || selected.contains(Realm::Dev) && destination_of(Realm::Dev, args, config)
                == dir);
        }
        if exists|realm: Realm|
            selected.contains(realm) && #[trigger] destination_of(realm, args, config) == dir {
            let realm = choose|realm: Realm|
                selected.contains(realm) && #[trigger] destination_of(realm, args, config) == dir;
            let k: int = match realm {
                Realm::Shared => 0,
                Realm::Server => if selected.shared {
                    1
                } else {
                    0
                },
                Realm::Dev => (if selected.shared {
                    1int
                } else {
                    0int
                }) + (if selected.server {
                    1int
                } else {
                    0int
                }),
            };
            assert(all[k] == dir);
        }
    }
}

/// The configuration file that is looked for first when none is named.
pub const VENDOR_CONFIG: &'static str = "wally-vendor.toml";

/// The configuration file that is looked for second when none is named.
pub const WALLY_CONFIG: &'static str = "wally.toml";

/// The lockfile.
pub const LOCKFILE: &'static str = "wally.lock";

/// The configuration file of a run, if there is one: the file named on
/// the command line, if it exists; when none is named, the first of
/// `wally-vendor.toml` and `wally.toml` that exists.
pub open spec fn config_path(
    cli_path: Option<String>,
    cli_path_exists: bool,
    vendor_config_exists: bool,
    wally_config_exists: bool,
) -> Option<Seq<char>> {
    match cli_path {
        Some(path) => if cli_path_exists {
            Some(path@)
        } else {
            None
        },
        None => if vendor_config_exists {
            Some(VENDOR_CONFIG@)
        } else if wally_config_exists {
            Some(WALLY_CONFIG@)
        } else {
            None
        },
    }
}

/// Finds the configuration file of a run, given which of the files in
/// question exist. A file named on the command line is the only one in
/// question; it is an error if it does not exist, and if no file is named
/// and neither of the two default files exists.
pub fn find_config_path(
    cli_path: &Option<String>,
    cli_path_exists: bool,
    vendor_config_exists: bool,
    wally_config_exists: bool,
) -> (r: Result<String, SyncError>)
    ensures
        match r {
            Ok(path) => config_path(
                *cli_path,
                cli_path_exists,
                vendor_config_exists,
                wally_config_exists,
            ) == Some(path@),
            Err(error) => error == SyncError::ConfigNotFound && config_path(
                *cli_path,
                cli_path_exists,
                vendor_config_exists,
                wally_config_exists,
            ).is_none(),
        },
{
    match cli_path {
        Some(path) => {
            if cli_path_exists {
                Ok(path.clone())
            } else {
                Err(SyncError::ConfigNotFound)
            }
        },
        None => {
            if vendor_config_exists {
                Ok(VENDOR_CONFIG.to_owned())
            } else if wally_config_exists {
                Ok(WALLY_CONFIG.to_owned())
            } else {
                Err(SyncError::ConfigNotFound)
            }
        },
    }
}

} // verus!
