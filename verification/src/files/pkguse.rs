//! `package.use` files of profiles and of the user's configuration, as records per atom
//! that are inherited and then resolved.
use crate::deps::atom::{Atom, AtomView, atom_text};
use crate::error::Error;
use crate::files::entry::Precedence;
use crate::files::linefile::EntryModel;
use crate::files::pkgfile::useflags::{PackageUseRecords, UseFlags, UseSpec, UseSpecView, expand_records};
use crate::files::pkgfile::{inherit_policies, policy_index, policy_keys, read_policies};
use crate::deps::atom::key::atom_key;
use crate::text::{content_lines, decimal, strip_comment};
use crate::useflag::UseExpandConfig;
use vstd::prelude::*;

verus! {

/// The content of `package.use` files, to be inherited and then resolved.
#[derive(Debug)]
pub struct PackageUseEntries {
    records: PackageUseRecords,
}

impl View for PackageUseEntries {
    type V = Seq<(AtomView, UseSpecView)>;

    closed spec fn view(&self) -> Seq<(AtomView, UseSpecView)> {
        self.records@
    }
}

impl PackageUseEntries {
    /// No entries.
    pub fn new() -> (r: Self)
        ensures
            r@ == Seq::<(AtomView, UseSpecView)>::empty(),
    {
        PackageUseEntries { records: PackageUseRecords::new() }
    }

    /// Reads a `package.use` file with precedence `order`: each line an atom followed by
    /// its flags.
    pub fn from_string(content: &str, order: Precedence) -> (r: Result<Self, Error>)
        ensures
            read_policies::<UseSpec>(
                content@,
                order,
                match r {
                    Ok(x) => Ok(x@),
                    Err(e) => Err(e.text()),
                },
            ),
    {
        match PackageUseRecords::from_string(content, order) {
            Ok(records) => Ok(PackageUseEntries { records }),
            Err(e) => Err(e),
        }
    }

    /// Returns the number of atoms.
    pub fn len(&self) -> (r: usize)
        ensures
            r == self@.len(),
    {
        self.records.len()
    }

    /// Returns the flags of `atom`.
    pub fn get(&self, atom: &Atom) -> (r: Option<&UseSpec>)
        ensures
            match policy_index(policy_keys(self@), atom_key(atom@)) {
                Some(i) => r matches Some(p) && p@ == self@[i].1,
                None => r is None,
            },
    {
        self.records.get(atom)
    }

    /// Inherits the entries of `parent`.
    pub fn inherit_from(&mut self, parent: &Self)
        ensures
            final(self)@ == inherit_policies::<UseSpec>(old(self)@, parent@),
    {
        self.records.inherit_from(&parent.records);
    }

    /// Returns these entries after inheriting those of `parent`.
    pub fn inherit(self, parent: &Self) -> (r: Self)
        ensures
            r@ == inherit_policies::<UseSpec>(self@, parent@),
    {
        let mut s = self;
        s.inherit_from(parent);
        s
    }

    /// Returns a copy of these entries.
    pub fn copy(&self) -> (r: Self)
        ensures
            r@ == self@,
    {
        PackageUseEntries { records: self.records.copy() }
    }

    /// Resolves the flags of each atom with the USE expansion groups `groups`.
    pub fn expand(&self, groups: &UseExpandConfig) -> (r: Result<Vec<(Atom, UseFlags)>, Error>)
        ensures
            match expand_records(self@, groups@) {
                Some(rs) => r matches Ok(v) && v@.map_values(|p: (Atom, UseFlags)| (p.0@, p.1@)) == rs,
                None => r is Err,
            },
    {
        self.records.expand(groups)
    }
}

} // verus!
