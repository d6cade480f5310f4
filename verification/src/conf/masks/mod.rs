//! Package masks of the repository, the profile and the user, decided by precedence.
pub mod useflag;

use crate::deps::atom::{Atom, AtomView, atom_qualified_name};
use crate::files::entry::{Entry, Operation, Precedence, prec_ordinal};
use crate::files::linefile::{EntryModel, LineEntries, keep_last};
use crate::package::cpv::CpvView;
use crate::package::slot::SlotView;
use crate::package::{PackageView, package_matches};
use crate::profile::Profile;
use crate::text::str_eq;
use vstd::prelude::*;

verus! {

/// The rank of an operation among entries of equal precedence: an unset ranks above a set.
pub open spec fn op_rank(op: Operation) -> int {
    match op {
        Operation::Apply => 0,
        Operation::Unset => 1,
    }
}

/// `(p, a)` ranks above `(q, b)`: by precedence, then an unset above a set.
pub open spec fn ranks_above(p: int, a: Operation, q: int, b: Operation) -> bool {
    p > q || (p == q && op_rank(a) > op_rank(b))
}

/// The highest ranked entry of `es` that names the package's qualified name and selects
/// it: its precedence and operation.
pub open spec fn top_entry(
    es: Seq<EntryModel<AtomView>>,
    cpv: CpvView,
    repo: Seq<char>,
    slot: SlotView,
) -> Option<(int, Operation)>
    decreases es.len(),
{
    if es.len() == 0 {
        None
    } else {
        let rest = top_entry(es.drop_last(), cpv, repo, slot);
        let e = es.last();
        if atom_qualified_name(e.2) == cpv.category + seq!['/'] + cpv.package && package_matches(cpv, repo, slot, e.2) {
            match rest {
                Some((p, a)) => if ranks_above(prec_ordinal(e.0), e.1, p, a) {
                    Some((prec_ordinal(e.0), e.1))
                } else {
                    rest
                },
                None => Some((prec_ordinal(e.0), e.1)),
            }
        } else {
            rest
        }
    }
}

/// The package is masked: a mask names it, and no unmask of at least its precedence
/// lifts it (an unmask entry that unsets restores the mask).
pub open spec fn masked_with(
    mask: Seq<EntryModel<AtomView>>,
    unmask: Seq<EntryModel<AtomView>>,
    cpv: CpvView,
    repo: Seq<char>,
    slot: SlotView,
) -> bool {
    match top_entry(mask, cpv, repo, slot) {
        None => false,
        Some((m, mop)) => match top_entry(unmask, cpv, repo, slot) {
            None => true,
            Some((u, uop)) => if m <= u {
                uop == Operation::Unset
            } else {
                mop == Operation::Apply
            },
        },
    }
}

/// The masks and unmasks of a repository.
#[derive(Debug)]
pub struct RepoPackageMasks {
    pub mask: LineEntries<Atom>,
    pub unmask: LineEntries<Atom>,
}

/// The user's masks and unmasks, from `package.mask` and `package.unmask`.
#[derive(Debug)]
pub struct UserPackageMasks {
    pub mask: LineEntries<Atom>,
    pub unmask: LineEntries<Atom>,
}

impl UserPackageMasks {
    /// Creates the user's masks from the entries of both files.
    pub fn new(mask: LineEntries<Atom>, unmask: LineEntries<Atom>) -> (r: Self)
        ensures
            r.mask@ == mask@,
            r.unmask@ == unmask@,
    {
        UserPackageMasks { mask, unmask }
    }
}

/// All package masks, the one source of truth on whether a package is masked.
#[derive(Debug)]
pub struct PackageMasks {
    mask: Vec<Entry<Atom>>,
    unmask: Vec<Entry<Atom>>,
}

/// Copies the entries of `e`.
fn copy_entries(e: &LineEntries<Atom>) -> (r: LineEntries<Atom>)
    ensures
        r@ == keep_last::<Atom>(e@ + Seq::empty()),
{
    LineEntries::new().inherit(e)
}

impl PackageMasks {
    /// The masks in effect.
    pub closed spec fn masks(&self) -> Seq<EntryModel<AtomView>> {
        self.mask@.map_values(|e: Entry<Atom>| e@)
    }

    /// The unmasks in effect.
    pub closed spec fn unmasks(&self) -> Seq<EntryModel<AtomView>> {
        self.unmask@.map_values(|e: Entry<Atom>| e@)
    }

    /// Merges the masks of the profile, the repository and the user, in this order.
    pub fn new(repository: RepoPackageMasks, profile: &Profile, user: UserPackageMasks) -> (r: Self)
        ensures
            r.masks() == keep_last::<Atom>(
                user.mask@ + keep_last::<Atom>(repository.mask@ + keep_last::<Atom>(profile.package_mask@ + Seq::empty())),
            ),
            r.unmasks() == keep_last::<Atom>(
                user.unmask@ + keep_last::<Atom>(
                    repository.unmask@ + keep_last::<Atom>(profile.package_unmask@ + Seq::empty()),
                ),
            ),
    {
        let mut mask = copy_entries(&profile.package_mask);
        let mut unmask = copy_entries(&profile.package_unmask);
        mask.inherit_from(&repository.mask);
        unmask.inherit_from(&repository.unmask);
        mask.inherit_from(&user.mask);
        unmask.inherit_from(&user.unmask);
        PackageMasks { mask: mask.into_iter(), unmask: unmask.into_iter() }
    }

    /// Returns `true` if `pkg` is masked.
    pub fn is_masked<P: PackageView>(&self, pkg: &P) -> (r: bool)
        ensures
            r == masked_with(
                self.masks(),
                self.unmasks(),
                pkg.cpv_model(),
                pkg.repo_model(),
                pkg.metadata_model().slot,
            ),
    {
        match Self::find_match(pkg, &self.mask) {
            Some((m, mop)) => match Self::find_match(pkg, &self.unmask) {
                Some((u, uop)) => if m <= u {
                    !uop.as_bool()
                } else {
                    mop.as_bool()
                },
                None => true,
            },
            None => false,
        }
    }

    /// Returns the precedence and operation of the highest ranked entry of `entries` that
    /// names and selects `pkg`.
    fn find_match<P: PackageView>(pkg: &P, entries: &Vec<Entry<Atom>>) -> (r: Option<(usize, Operation)>)
        ensures
            match top_entry(
                entries@.map_values(|e: Entry<Atom>| e@),
                pkg.cpv_model(),
                pkg.repo_model(),
                pkg.metadata_model().slot,
            ) {
                Some((p, op)) => r matches Some((x, o)) && x == p && o == op,
                None => r is None,
            },
    {
        let ghost es = entries@.map_values(|e: Entry<Atom>| e@);
        let name = pkg.qualified_name();
        let mut best: Option<(usize, Operation)> = None;
        let mut i: usize = 0;
        while i < entries.len()
            invariant
                0 <= i <= entries@.len(),
                es == entries@.map_values(|e: Entry<Atom>| e@),
                name@ == pkg.cpv_model().category + seq!['/'] + pkg.cpv_model().package,
                match top_entry(
                    es.subrange(0, i as int),
                    pkg.cpv_model(),
                    pkg.repo_model(),
                    pkg.metadata_model().slot,
                ) {
                    Some((p, op)) => best matches Some((x, o)) && x == p && o == op,
                    None => best is None,
                },
            decreases entries.len() - i,
        {
            let ghost sub = es.subrange(0, i + 1);
            assert(sub.drop_last() =~= es.subrange(0, i as int));
            assert(sub.last() == entries@[i as int]@);
            let e = &entries[i];
            let qn = e.inner().qualified_name();
            if str_eq(qn.as_str(), name.as_str()) && pkg.matches_atom(e.inner()) {
                let p = e.precedence().ordinal();
                let op = e.operation();
                best = match best {
                    Some((bp, bop)) => if p > bp || (p == bp && op == Operation::Unset && bop == Operation::Apply) {
                        Some((p, op))
                    } else {
                        Some((bp, bop))
                    },
                    None => Some((p, op)),
                };
            }
            i += 1;
        }
        assert(es.subrange(0, i as int) =~= es);
        best
    }
}

} // verus!
