//! What a profile gives the policies: its make defaults and the records of its
//! configuration files, each inherited along the profile tree.
use crate::deps::atom::Atom;
use crate::deps::useflag::UseFlag;
use crate::files::linefile::LineEntries;
use crate::files::pkgfile::keywords::PackageAcceptKeywords;
use crate::files::pkgfile::useflags::PackageUseRecords;
use crate::files::pkguse::PackageUseEntries;
use crate::makenv::MakeEnv;
use crate::useflag::UseExpandConfig;
use vstd::prelude::*;

verus! {

/// The USE records of a profile.
#[derive(Debug)]
pub struct ProfileUseRecords {
    pub use_mask: LineEntries<UseFlag>,
    pub use_force: LineEntries<UseFlag>,
    pub use_stable_mask: LineEntries<UseFlag>,
    pub use_stable_force: LineEntries<UseFlag>,
    pub package_use: PackageUseRecords,
    pub package_use_mask: PackageUseRecords,
    pub package_use_force: PackageUseRecords,
    pub package_use_stable_mask: PackageUseRecords,
    pub package_use_stable_force: PackageUseRecords,
    /// The USE expansion groups of the profile's make defaults.
    pub expand_config: UseExpandConfig,
}

/// A resolved profile.
#[derive(Debug)]
pub struct Profile {
    pub make_defaults: MakeEnv,
    pub package_mask: LineEntries<Atom>,
    pub package_unmask: LineEntries<Atom>,
    pub package_accept_keywords: PackageAcceptKeywords,
    pub use_mask: LineEntries<UseFlag>,
    pub use_force: LineEntries<UseFlag>,
    pub use_stable_mask: LineEntries<UseFlag>,
    pub use_stable_force: LineEntries<UseFlag>,
    pub package_use: PackageUseEntries,
    pub package_use_mask: PackageUseEntries,
    pub package_use_force: PackageUseEntries,
    pub package_use_stable_mask: PackageUseEntries,
    pub package_use_stable_force: PackageUseEntries,
}

} // verus!
