//! Packages: names, slots, versions and their combination.
pub mod cpv;
pub mod metadata;
pub mod names;
pub mod slot;
pub mod version;

use crate::deps::atom::{Atom, AtomView, atom_matches};
use crate::deps::atom::constraints::slot_constraint_matches;
use crate::package::cpv::{CPV, CpvView, fqn_text};
use crate::package::metadata::{MetadataView, PackageMetadata};
use crate::package::slot::SlotView;
use crate::repository::RepoName;
use crate::text::{append_str, push_char, str_eq};
use vstd::prelude::*;

verus! {

/// A package with repository `repo`, slot `slot` and name `cpv` is selected by the atom `a`:
/// the atom's repository and slot restrictions hold, and it selects the name and version.
pub open spec fn package_matches(cpv: CpvView, repo: Seq<char>, slot: SlotView, a: AtomView) -> bool {
    &&& a.repo matches Some(r) ==> r == repo
    &&& a.slot matches Some(c) ==> slot_constraint_matches(c, slot)
    &&& atom_matches(a, cpv)
}

/// What packages of a repository and installed packages have in common: a name, a
/// repository and metadata.
pub trait PackageView {
    /// The name and version.
    spec fn cpv_model(&self) -> CpvView;

    /// The repository name.
    spec fn repo_model(&self) -> Seq<char>;

    /// The metadata.
    spec fn metadata_model(&self) -> MetadataView;

    /// Returns the name and version.
    fn cpv(&self) -> (r: &CPV)
        ensures
            r@ == self.cpv_model(),
    ;

    /// Returns the repository name.
    fn repo(&self) -> (r: &RepoName)
        ensures
            r@ == self.repo_model(),
    ;

    /// Returns the metadata.
    fn metadata(&self) -> (r: &PackageMetadata)
        ensures
            r@ == self.metadata_model(),
    ;

    /// Returns the qualified name `category/name`.
    fn qualified_name(&self) -> (r: String)
        ensures
            r@ == self.cpv_model().category + seq!['/'] + self.cpv_model().package,
    ;

    /// Returns `true` if the atom selects this package.
    fn matches_atom(&self, atom: &Atom) -> (r: bool)
        ensures
            r == package_matches(self.cpv_model(), self.repo_model(), self.metadata_model().slot, atom@),
    ;
}

/// Returns `true` if `atom` selects the package with name `cpv`, repository `repo` and
/// metadata `metadata`.
pub fn atom_selects(cpv: &CPV, repo: &RepoName, metadata: &PackageMetadata, atom: &Atom) -> (r: bool)
    ensures
        r == package_matches(cpv@, repo@, metadata@.slot, atom@),
{
    match atom.repo() {
        Some(x) => {
            if !str_eq(x.as_str(), repo.as_str()) {
                return false;
            }
        },
        None => {},
    }
    match atom.slot() {
        Some(slot) => {
            if !slot.matches(metadata.slot()) {
                return false;
            }
        },
        None => {},
    }
    atom.matches(cpv)
}

/// A package of a repository, with the metadata needed to install it.
#[derive(Debug)]
pub struct Package {
    cpv: CPV,
    repo: RepoName,
    metadata: PackageMetadata,
}

impl Package {
    /// Creates a package from its name, repository and metadata.
    pub fn new(cpv: CPV, repo: RepoName, metadata: PackageMetadata) -> (r: Self)
        ensures
            r.cpv_model() == cpv@,
            r.repo_model() == repo@,
            r.metadata_model() == metadata@,
    {
        Package { cpv, repo, metadata }
    }

    /// Returns the package written as `category/name-version::repo`.
    pub fn to_string(&self) -> (r: String)
        ensures
            r@ == fqn_text(self.cpv_model()) + seq![':', ':'] + self.repo_model(),
    {
        let mut s = self.cpv.to_string();
        push_char(&mut s, ':');
        push_char(&mut s, ':');
        append_str(&mut s, self.repo.as_str());
        s
    }
}

impl PackageView for Package {
    closed spec fn cpv_model(&self) -> CpvView {
        self.cpv@
    }

    closed spec fn repo_model(&self) -> Seq<char> {
        self.repo@
    }

    closed spec fn metadata_model(&self) -> MetadataView {
        self.metadata@
    }

    fn cpv(&self) -> (r: &CPV) {
        &self.cpv
    }

    fn repo(&self) -> (r: &RepoName) {
        &self.repo
    }

    fn metadata(&self) -> (r: &PackageMetadata) {
        &self.metadata
    }

    fn qualified_name(&self) -> (r: String) {
        self.cpv.qualified_name()
    }

    fn matches_atom(&self, atom: &Atom) -> (r: bool) {
        atom_selects(&self.cpv, &self.repo, &self.metadata, atom)
    }
}

} // verus!
