//! The lockfile: the exact version recorded for each package.

use crate::table::{with_entry, Pairs, StringMap};
use vstd::prelude::*;

verus! {

/// A lockfile: its package records, in file order.
#[derive(Clone, Debug)]
pub struct Lockfile {
    pub package: Vec<Package>,
}

/// One record of the lockfile.
#[derive(Clone, Debug)]
pub struct Package {
    pub name: String,
    pub version: String,
}

/// The pins that the first `n` records give: each record stores its version
/// under its name, a later record of a name replacing an earlier one.
pub open spec fn pins_of(records: Seq<Package>, n: nat) -> Pairs
    decreases n,
{
    if n == 0 || n > records.len() {
        Seq::empty()
    } else {
        with_entry(
            pins_of(records, (n - 1) as nat),
            records[n - 1].name@,
            records[n - 1].version@,
        )
    }
}

impl Lockfile {
    /// The pinned version of each package name.
    pub fn get_package_versions(&self) -> (r: StringMap)
        ensures
            r@ == pins_of(self.package@, self.package@.len()),
    {
        let mut pins = StringMap::new();
        let n: usize = self.package.len();
        let mut i: usize = 0;
        while i < n
            invariant
                n == self.package@.len(),
                i <= n,
                pins@ == pins_of(self.package@, i as nat),
            decreases n - i,
        {
            pins.insert(self.package[i].name.clone(), self.package[i].version.clone());
            i = i + 1;
        }
        pins
    }
}

} // verus!
