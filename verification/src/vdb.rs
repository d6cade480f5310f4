//! Packages installed on the system.
use crate::deps::atom::Atom;
use crate::deps::useflag::UseFlag;
use crate::package::cpv::{CPV, CpvView};
use crate::package::metadata::{MetadataView, PackageMetadata};
use crate::package::{PackageView, atom_selects, package_matches};
use crate::repository::RepoName;
use vstd::prelude::*;

verus! {

/// A package installed on the system, with the USE flags it was built with.
#[derive(Debug)]
pub struct InstalledPackage {
    pub cpv: CPV,
    pub repo: RepoName,
    pub metadata: PackageMetadata,
    pub use_flags: Vec<UseFlag>,
}

impl InstalledPackage {
    /// Creates an installed package from its parts.
    pub fn from_parts(cpv: CPV, repo: RepoName, metadata: PackageMetadata, use_flags: Vec<UseFlag>) -> (r: Self)
        ensures
            r.cpv_model() == cpv@,
            r.repo_model() == repo@,
            r.metadata_model() == metadata@,
    {
        InstalledPackage { cpv, repo, metadata, use_flags }
    }
}

impl PackageView for InstalledPackage {
    open spec fn cpv_model(&self) -> CpvView {
        self.cpv@
    }

    open spec fn repo_model(&self) -> Seq<char> {
        self.repo@
    }

    open spec fn metadata_model(&self) -> MetadataView {
        self.metadata@
    }

    fn cpv(&self) -> (r: &CPV) {
        &self.cpv
    }

    fn repo(&self) -> (r: &RepoName) {
        &self.repo
    }

    fn metadata(&self) -> (r: &PackageMetadata) {
        &self.metadata
    }

    fn qualified_name(&self) -> (r: String) {
        self.cpv.qualified_name()
    }

    fn matches_atom(&self, atom: &Atom) -> (r: bool) {
        atom_selects(&self.cpv, &self.repo, &self.metadata, atom)
    }
}

} // verus!
