//! Package masks: a package is masked where a mask selects it and no unmask of at least
//! the same precedence does.
use crate::deps::atom::{Atom, AtomView};
use crate::files::entry::{Entry, Operation, Precedence, prec_ordinal};
use crate::files::linefile::{EntryModel, LineEntries, keep_last};
use crate::package::{PackageView, package_matches};
use crate::package::cpv::CpvView;
use crate::package::slot::SlotView;
use vstd::prelude::*;

verus! {

/// The highest precedence among the entries of `es` that set a mask and select the package.
pub open spec fn best_match(
    es: Seq<EntryModel<AtomView>>,
    cpv: CpvView,
    repo: Seq<char>,
    slot: SlotView,
) -> Option<int>
    decreases es.len(),
{
    if es.len() == 0 {
        None
    } else {
        let rest = best_match(es.drop_last(), cpv, repo, slot);
        let e = es.last();
        if e.1 == Operation::Apply && package_matches(cpv, repo, slot, e.2) {
            match rest {
                Some(p) => Some(if prec_ordinal(e.0) > p {
                    prec_ordinal(e.0)
                } else {
                    p
                }),
                None => Some(prec_ordinal(e.0)),
            }
        } else {
            rest
        }
    }
}

/// The entry `e` sets a mask and selects the package.
pub open spec fn selects(e: EntryModel<AtomView>, cpv: CpvView, repo: Seq<char>, slot: SlotView) -> bool {
    e.1 == Operation::Apply && package_matches(cpv, repo, slot, e.2)
}

/// `best_match` is the highest precedence of the entries that set a mask and select the
/// package, and is `None` exactly where no entry does; entries that unset never count.
pub proof fn lemma_best_match_is_max(es: Seq<EntryModel<AtomView>>, cpv: CpvView, repo: Seq<char>, slot: SlotView)
    ensures
        best_match(es, cpv, repo, slot) is None <==> forall|i: int| 0 <= i < es.len() ==> !selects(#[trigger] es[i], cpv, repo, slot),
        best_match(es, cpv, repo, slot) matches Some(p) ==> (exists|i: int|
            0 <= i < es.len() && selects(#[trigger] es[i], cpv, repo, slot) && prec_ordinal(es[i].0) == p)
            && (forall|i: int| 0 <= i < es.len() && selects(#[trigger] es[i], cpv, repo, slot) ==> prec_ordinal(es[i].0) <= p),
    decreases es.len(),
{
    if es.len() > 0 {
        let r = es.drop_last();
        lemma_best_match_is_max(r, cpv, repo, slot);
        assert forall|i: int| 0 <= i < r.len() implies r[i] == es[i] by {}
        let n = es.len() - 1;
        if best_match(r, cpv, repo, slot) is Some {
            let j = choose|i: int| 0 <= i < r.len() && selects(#[trigger] r[i], cpv, repo, slot) && prec_ordinal(r[i].0) == best_match(r, cpv, repo, slot)->0;
            assert(selects(es[j], cpv, repo, slot));
        }
        if selects(es[n], cpv, repo, slot) {
            assert(selects(es[n], cpv, repo, slot));
        }
    }
}

/// What the mask decision is: a package is masked exactly when some mask selects it and
/// either no unmask selects it or the highest selecting mask outranks the highest
/// selecting unmask.
pub proof fn lemma_masked_by_law(
    mask: Seq<EntryModel<AtomView>>,
    unmask: Seq<EntryModel<AtomView>>,
    cpv: CpvView,
    repo: Seq<char>,
    slot: SlotView,
)
    ensures
        masked_by(mask, unmask, cpv, repo, slot) <==> ((exists|i: int| 0 <= i < mask.len() && selects(#[trigger] mask[i], cpv, repo, slot))
            && ((forall|j: int| 0 <= j < unmask.len() ==> !selects(#[trigger] unmask[j], cpv, repo, slot))
            || exists|i: int| 0 <= i < mask.len() && selects(#[trigger] mask[i], cpv, repo, slot)
                && forall|j: int| 0 <= j < unmask.len() && selects(#[trigger] unmask[j], cpv, repo, slot) ==> prec_ordinal(unmask[j].0) < prec_ordinal(mask[i].0))),
{
    lemma_best_match_is_max(mask, cpv, repo, slot);
    lemma_best_match_is_max(unmask, cpv, repo, slot);
    match best_match(mask, cpv, repo, slot) {
        None => {},
        Some(m) => {
            let im = choose|i: int| 0 <= i < mask.len() && selects(#[trigger] mask[i], cpv, repo, slot) && prec_ordinal(mask[i].0) == m;
            match best_match(unmask, cpv, repo, slot) {
                None => {},
                Some(u) => {
                    let iu = choose|i: int| 0 <= i < unmask.len() && selects(#[trigger] unmask[i], cpv, repo, slot) && prec_ordinal(unmask[i].0) == u;
                    if m > u {
                        assert(selects(mask[im], cpv, repo, slot));
                    } else {
                        assert forall|i: int| 0 <= i < mask.len() && selects(#[trigger] mask[i], cpv, repo, slot)
                            implies !(forall|j: int| 0 <= j < unmask.len() && selects(#[trigger] unmask[j], cpv, repo, slot) ==> prec_ordinal(unmask[j].0) < prec_ordinal(mask[i].0)) by {
                            assert(selects(unmask[iu], cpv, repo, slot));
                        }
                    }
                },
            }
        },
    }
}

/// A package is masked where a mask selects it and no unmask of at least its precedence does.
pub open spec fn masked_by(
    mask: Seq<EntryModel<AtomView>>,
    unmask: Seq<EntryModel<AtomView>>,
    cpv: CpvView,
    repo: Seq<char>,
    slot: SlotView,
) -> bool {
    match best_match(mask, cpv, repo, slot) {
        None => false,
        Some(m) => match best_match(unmask, cpv, repo, slot) {
            None => true,
            Some(u) => m > u,
        },
    }
}

/// The package masks and unmasks of a repository.
#[derive(Debug)]
pub struct RepositorySource {
    pub mask: LineEntries<Atom>,
    pub unmask: LineEntries<Atom>,
}

/// The package masks and unmasks of the profile and of the user's configuration.
#[derive(Debug)]
pub struct PortageSource {
    pub profile_mask: LineEntries<Atom>,
    pub profile_unmask: LineEntries<Atom>,
    pub local_mask: LineEntries<Atom>,
    pub local_unmask: LineEntries<Atom>,
}

/// The masks in effect: the profile's, inheriting the repository's, then the user's.
pub open spec fn combined(
    profile: Seq<EntryModel<AtomView>>,
    repository: Seq<EntryModel<AtomView>>,
    local: Seq<EntryModel<AtomView>>,
) -> Seq<EntryModel<AtomView>> {
    keep_last::<Atom>(local + keep_last::<Atom>(repository + profile))
}

/// Decides whether packages are masked.
#[derive(Debug)]
pub struct PackageMasks {
    mask: Vec<Entry<Atom>>,
    unmask: Vec<Entry<Atom>>,
}

impl PackageMasks {
    /// The masks in effect.
    pub closed spec fn masks(&self) -> Seq<EntryModel<AtomView>> {
        self.mask@.map_values(|e: Entry<Atom>| e@)
    }

    /// The unmasks in effect.
    pub closed spec fn unmasks(&self) -> Seq<EntryModel<AtomView>> {
        self.unmask@.map_values(|e: Entry<Atom>| e@)
    }

    /// Builds the masks from the repository's and the configuration's entries: those of the
    /// profile, inheriting the repository's, then the user's.
    pub fn new(repository: RepositorySource, portage: PortageSource) -> (r: Self)
        ensures
            r.masks() == combined(portage.profile_mask@, repository.mask@, portage.local_mask@),
            r.unmasks() == combined(portage.profile_unmask@, repository.unmask@, portage.local_unmask@),
    {
        let mut mask = portage.profile_mask;
        let mut unmask = portage.profile_unmask;
        mask.inherit_from(&repository.mask);
        unmask.inherit_from(&repository.unmask);
        mask.inherit_from(&portage.local_mask);
        unmask.inherit_from(&portage.local_unmask);
        PackageMasks { mask: mask.into_iter(), unmask: unmask.into_iter() }
    }

    /// Returns `true` if `package` is masked.
    pub fn is_masked<P: PackageView>(&self, package: &P) -> (r: bool)
        ensures
            r == masked_by(
                self.masks(),
                self.unmasks(),
                package.cpv_model(),
                package.repo_model(),
                package.metadata_model().slot,
            ),
    {
        match Self::find_match(package, &self.mask) {
            Some(m) => match Self::find_match(package, &self.unmask) {
                Some(u) => m > u,
                None => true,
            },
            None => false,
        }
    }

    /// Returns the highest precedence of the masks among `entries` that select `pkg`.
    fn find_match<P: PackageView>(pkg: &P, entries: &Vec<Entry<Atom>>) -> (r: Option<usize>)
        ensures
            match best_match(
                entries@.map_values(|e: Entry<Atom>| e@),
                pkg.cpv_model(),
                pkg.repo_model(),
                pkg.metadata_model().slot,
            ) {
                Some(p) => r matches Some(x) && x == p,
                None => r is None,
            },
    {
        let ghost es = entries@.map_values(|e: Entry<Atom>| e@);
        let mut best: Option<usize> = None;
        let mut i: usize = 0;
        while i < entries.len()
            invariant
                0 <= i <= entries@.len(),
                es == entries@.map_values(|e: Entry<Atom>| e@),
                match best_match(
                    es.subrange(0, i as int),
                    pkg.cpv_model(),
                    pkg.repo_model(),
                    pkg.metadata_model().slot,
                ) {
                    Some(p) => best matches Some(x) && x == p,
                    None => best is None,
                },
            decreases entries.len() - i,
        {
            let ghost sub = es.subrange(0, i + 1);
            assert(sub.drop_last() =~= es.subrange(0, i as int));
            assert(sub.last() == entries@[i as int]@);
            let e = &entries[i];
            if e.operation().as_bool() && pkg.matches_atom(e.inner()) {
                let p = e.precedence().ordinal();
                best = match best {
                    Some(b) => Some(if p > b {
                        p
                    } else {
                        b
                    }),
                    None => Some(p),
                };
            }
            i += 1;
        }
        assert(es.subrange(0, i as int) =~= es);
        best
    }
}

} // verus!
