//! The dependency configuration of a project.

use crate::cli::Realm;
use crate::table::{Pairs, StringMap};
use vstd::prelude::*;

verus! {

/// The dependency groups: each maps an alias to a package spec.
#[derive(Debug)]
pub struct Manifest {
    pub dependencies: StringMap,
    pub server_dependencies: StringMap,
    pub dev_dependencies: StringMap,
}

/// Destination directories set in the configuration, one per realm.
#[derive(Clone, Debug)]
pub struct VendorConfig {
    pub shared_dir: Option<String>,
    pub server_dir: Option<String>,
    pub dev_dir: Option<String>,
}

/// A loaded configuration.
#[derive(Debug)]
pub struct Config {
    pub manifest: Manifest,
    pub wally_vendor: VendorConfig,
}

impl Manifest {
    /// The dependency group of a realm, as entries of alias and spec.
    pub open spec fn group(&self, realm: Realm) -> Pairs {
        match realm {
            Realm::Shared => self.dependencies@,
            Realm::Server => self.server_dependencies@,
            Realm::Dev => self.dev_dependencies@,
        }
    }

    /// The dependency group of a realm.
    pub fn dependencies_of(&self, realm: Realm) -> (r: &StringMap)
        ensures
            r@ == self.group(realm),
    {
        match realm {
            Realm::Shared => &self.dependencies,
            Realm::Server => &self.server_dependencies,
            Realm::Dev => &self.dev_dependencies,
        }
    }
}

} // verus!
