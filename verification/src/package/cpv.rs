//! A package given by its category, name and version.
use crate::deps::atom::{Atom, atom_matches};
use crate::package::names::{CatName, PkgName};
use crate::package::version::{PackageVersion, VersionView, version_pv, version_text};
use crate::text::{append_str, push_char};
use vstd::prelude::*;

verus! {

/// Model of a package: category, name and version.
pub struct CpvView {
    pub category: Seq<char>,
    pub package: Seq<char>,
    pub version: VersionView,
}

/// The fully qualified name `category/package-version`.
pub open spec fn fqn_text(c: CpvView) -> Seq<char> {
    c.category + seq!['/'] + c.package + seq!['-'] + version_text(c.version)
}

/// A package with its category, name and version, e.g. `app-editors/vim-9.1.1652-r2`.
#[derive(Debug)]
pub struct CPV {
    category: CatName,
    package: PkgName,
    version: PackageVersion,
    fqn: String,
}

impl View for CPV {
    type V = CpvView;

    closed spec fn view(&self) -> CpvView {
        CpvView { category: self.category@, package: self.package@, version: self.version@ }
    }
}

impl CPV {
    /// The cached full name is that of the parts.
    #[verifier::type_invariant]
    spec fn fqn_matches(&self) -> bool {
        self.fqn@ == fqn_text(self@)
    }

    /// Creates a package from its `category`, `package` and `version`.
    pub fn new(category: CatName, package: PkgName, version: PackageVersion) -> (r: Self)
        ensures
            r@ == (CpvView { category: category@, package: package@, version: version@ }),
    {
        let mut fqn = category.to_string();
        push_char(&mut fqn, '/');
        append_str(&mut fqn, package.as_str());
        push_char(&mut fqn, '-');
        let v = version.to_string();
        append_str(&mut fqn, v.as_str());
        assert(fqn@ =~= category@ + seq!['/'] + package@ + seq!['-'] + version_text(version@));
        CPV { category, package, version, fqn }
    }

    /// Returns a copy of this package.
    pub fn copy(&self) -> (r: Self)
        ensures
            r@ == self@,
    {
        CPV::new(self.category.copy(), self.package.copy(), self.version.copy())
    }

    /// Returns `true` if `atom` selects this package.
    pub fn matches_atom(&self, atom: &Atom) -> (r: bool)
        ensures
            r == atom_matches(atom@, self@),
    {
        atom.matches(self)
    }

    /// Returns the package name, e.g. `python`.
    pub fn package(&self) -> (r: &PkgName)
        ensures
            r@ == self@.package,
    {
        &self.package
    }

    /// Returns the category, e.g. `dev-lang`.
    pub fn category(&self) -> (r: &CatName)
        ensures
            r@ == self@.category,
    {
        &self.category
    }

    /// Returns the version, e.g. `3.14.3-r1`.
    pub fn version(&self) -> (r: &PackageVersion)
        ensures
            r@ == self@.version,
    {
        &self.version
    }

    /// Returns the fully qualified name `category/package-version`.
    pub fn fqn(&self) -> (r: &str)
        ensures
            r@ == fqn_text(self@),
    {
        proof {
            use_type_invariant(self);
        }
        self.fqn.as_str()
    }

    /// Returns the fully qualified name `category/package-version`.
    pub fn to_string(&self) -> (r: String)
        ensures
            r@ == fqn_text(self@),
    {
        proof {
            use_type_invariant(self);
        }
        self.fqn.clone()
    }

    /// Returns the qualified name `category/package`, e.g. `app-editors/vim`.
    pub fn qualified_name(&self) -> (r: String)
        ensures
            r@ == self@.category + seq!['/'] + self@.package,
    {
        let mut s = self.category.to_string();
        push_char(&mut s, '/');
        append_str(&mut s, self.package.as_str());
        s
    }

    /// Returns the name and version without revision (`P`), e.g. `vim-7.0.174`.
    pub fn p(&self) -> (r: String)
        ensures
            r@ == self@.package + seq!['-'] + version_pv(self@.version),
    {
        let mut s = self.package.to_string();
        push_char(&mut s, '-');
        let pv = self.version.pv();
        append_str(&mut s, pv.as_str());
        s
    }

    /// Returns the name, version and revision as written (`PF`), e.g. `vim-7.0.174-r1`.
    pub fn pf(&self) -> (r: String)
        ensures
            r@ == self@.package + seq!['-'] + version_text(self@.version),
    {
        let mut s = self.package.to_string();
        push_char(&mut s, '-');
        let pvr = self.version.pvr();
        append_str(&mut s, pvr.as_str());
        s
    }

    /// Returns the package name (`PN`), e.g. `vim`.
    pub fn pn(&self) -> (r: &str)
        ensures
            r@ == self@.package,
    {
        self.package.as_str()
    }

    /// Returns the version without revision (`PV`), e.g. `7.0.174`.
    pub fn pv(&self) -> (r: String)
        ensures
            r@ == version_pv(self@.version),
    {
        self.version.pv()
    }

    /// Returns the revision, `r0` where there is none (`PR`).
    pub fn pr(&self) -> (r: String)
        ensures
            r@ == seq!['r'] + match self@.version.revision {
                Some(x) => x,
                None => seq!['0'],
            },
    {
        self.version.pr()
    }

    /// Returns the version and revision as written (`PVR`), e.g. `7.0.174-r1`.
    pub fn pvr(&self) -> (r: String)
        ensures
            r@ == version_text(self@.version),
    {
        self.version.pvr()
    }
}

} // verus!
