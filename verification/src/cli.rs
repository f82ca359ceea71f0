//! The arguments of a run, as plain values.

use vstd::prelude::*;

verus! {

/// A dependency group with its own source and destination directories.
#[derive(Copy, Clone, PartialEq, Eq, PartialOrd, Ord, Debug, Structural)]
pub enum Realm {
    Shared,
    Server,
    Dev,
}

/// The command line: one command.
#[derive(Clone, Debug)]
pub struct Cli {
    pub command: Commands,
}

/// The commands of the program.
#[derive(Clone, Debug)]
pub enum Commands {
    /// Vendor the packages of the selected realms.
    Sync(SyncArgs),
}

/// The arguments of `sync`. Directories and files are given by name.
#[derive(Clone, Debug)]
pub struct SyncArgs {
    /// The dependency configuration file, when one was named.
    pub deps: Option<String>,
    /// The realms to vendor; empty to take every realm that has dependencies.
    pub realms: Vec<Realm>,
    /// The directory of installed shared packages.
    pub packages_dir: String,
    /// The destination of every realm without a directory of its own.
    pub vendor_dir: String,
    /// The destination of the shared realm.
    pub shared_dir: Option<String>,
    /// The destination of the server realm.
    pub server_dir: Option<String>,
    /// The destination of the dev realm.
    pub dev_dir: Option<String>,
    /// The number of copy jobs to run side by side.
    pub jobs: Option<usize>,
    /// Fail when a dependency is missing.
    pub strict: bool,
    /// Remove the destinations before copying.
    pub clean: bool,
    /// Fail when there is no lockfile.
    pub locked: bool,
}

/// The position of a realm in the order in which realms are processed.
pub open spec fn realm_rank(realm: Realm) -> int {
    match realm {
        Realm::Shared => 0,
        Realm::Server => 1,
        Realm::Dev => 2,
    }
}

} // verus!
