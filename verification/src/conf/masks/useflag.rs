//! Masked and forced USE flags: globally, and per package from `package.use.mask` and
//! `package.use.force` and their stable variants.
use crate::deps::atom::{Atom, AtomView};
use crate::deps::useflag::UseFlag;
use crate::error::Error;
use crate::files::entry::{Entry, Operation, prec_ordinal};
use crate::files::linefile::{EntryModel, LineEntries, keep_last};
use crate::files::pkgfile::useflags::{UseFlags, UseSpec, expand_records, flag_index};
use crate::files::pkgfile::inherit_policies;
use crate::files::pkguse::PackageUseEntries;
use crate::conf::masks::ranks_above;
use crate::makenv::use_expand_overlap;
use crate::package::cpv::CpvView;
use crate::package::slot::SlotView;
use crate::package::{PackageView, package_matches};
use crate::profile::Profile;
use crate::text::str_eq;
use crate::useflag::{UseExpandConfig, expand_config_of};
use vstd::prelude::*;

verus! {

/// Model of resolved package USE rules: atoms with the entries of their flags.
pub type FlagRules = Seq<(AtomView, Seq<EntryModel<Seq<char>>>)>;

/// The highest ranked entry of `f` among the rules that select the package: its
/// precedence and operation.
pub open spec fn top_flag_entry(rules: FlagRules, cpv: CpvView, repo: Seq<char>, slot: SlotView, f: Seq<char>) -> Option<
    (int, Operation),
>
    decreases rules.len(),
{
    if rules.len() == 0 {
        None
    } else {
        let rest = top_flag_entry(rules.drop_last(), cpv, repo, slot, f);
        let r = rules.last();
        if package_matches(cpv, repo, slot, r.0) && flag_index(r.1, f) is Some {
            let e = r.1[flag_index(r.1, f)->Some_0];
            match rest {
                Some((p, a)) => if ranks_above(prec_ordinal(e.0), e.1, p, a) {
                    Some((prec_ordinal(e.0), e.1))
                } else {
                    rest
                },
                None => Some((prec_ordinal(e.0), e.1)),
            }
        } else {
            rest
        }
    }
}

/// What the normal and the stable rules decide for `f`: the higher ranked entry of the
/// two sets it, where either names it.
pub open spec fn rules_decide(
    normal: FlagRules,
    stable: FlagRules,
    cpv: CpvView,
    repo: Seq<char>,
    slot: SlotView,
    f: Seq<char>,
) -> bool {
    match (top_flag_entry(normal, cpv, repo, slot, f), top_flag_entry(stable, cpv, repo, slot, f)) {
        (Some((p, a)), Some((q, b))) => if ranks_above(q, b, p, a) {
            b == Operation::Apply
        } else {
            a == Operation::Apply
        },
        (Some((_, a)), None) => a == Operation::Apply,
        (None, Some((_, b))) => b == Operation::Apply,
        (None, None) => false,
    }
}

/// Model of USE masks: the global masks, forces, stable masks and stable forces, and the
/// package USE, mask, force, stable mask and stable force rules.
pub struct UseMasksView {
    pub use_mask: Seq<Seq<char>>,
    pub use_force: Seq<Seq<char>>,
    pub use_stable_mask: Seq<Seq<char>>,
    pub use_stable_force: Seq<Seq<char>>,
    pub package_use: FlagRules,
    pub package_use_mask: FlagRules,
    pub package_use_force: FlagRules,
    pub package_use_stable_mask: FlagRules,
    pub package_use_stable_force: FlagRules,
}

/// The values of entries.
pub open spec fn entry_values(es: Seq<EntryModel<Seq<char>>>) -> Seq<Seq<char>> {
    es.map_values(|e: EntryModel<Seq<char>>| e.2)
}

/// The single source of truth on whether a USE flag is masked or forced.
#[derive(Debug)]
pub struct UseMasks {
    use_mask: Vec<UseFlag>,
    use_force: Vec<UseFlag>,
    use_stable_mask: Vec<UseFlag>,
    use_stable_force: Vec<UseFlag>,
    package_use: Vec<(Atom, UseFlags)>,
    package_use_mask: Vec<(Atom, UseFlags)>,
    package_use_force: Vec<(Atom, UseFlags)>,
    package_use_stable_mask: Vec<(Atom, UseFlags)>,
    package_use_stable_force: Vec<(Atom, UseFlags)>,
}

/// The rules of resolved records.
pub open spec fn rules_view(v: Seq<(Atom, UseFlags)>) -> FlagRules {
    v.map_values(|p: (Atom, UseFlags)| (p.0@, p.1@))
}

/// The flags of values.
pub open spec fn flags_view(v: Seq<UseFlag>) -> Seq<Seq<char>> {
    v.map_values(|f: UseFlag| f@)
}

/// Returns `true` if one of `flags` is `name`.
fn has_flag(flags: &Vec<UseFlag>, name: &str) -> (r: bool)
    ensures
        r == flags_view(flags@).contains(name@),
{
    let mut i: usize = 0;
    while i < flags.len()
        invariant
            0 <= i <= flags@.len(),
            forall|j: int| 0 <= j < i ==> flags_view(flags@)[j] != name@,
        decreases flags.len() - i,
    {
        if str_eq(flags[i].as_str(), name) {
            assert(flags_view(flags@)[i as int] == name@);
            return true;
        }
        i += 1;
    }
    false
}

/// Resolves entries with `cfg`, with `context` as the error.
fn resolve_entries(e: &PackageUseEntries, cfg: &UseExpandConfig, context: &str) -> (r: Result<Vec<(Atom, UseFlags)>, Error>)
    ensures
        match expand_records(e@, cfg@) {
            Some(rs) => r matches Ok(v) && rules_view(v@) == rs,
            None => r matches Err(x) && x.text() == context@,
        },
{
    match e.expand(cfg) {
        Ok(v) => Ok(v),
        Err(_) => Err(Error::new(context)),
    }
}

/// Returns the values of copies of the entries of `e`.
fn values_of(e: &LineEntries<UseFlag>) -> (r: Vec<UseFlag>)
    ensures
        flags_view(r@) == entry_values(keep_last::<UseFlag>(e@ + Seq::empty())),
{
    let copy = LineEntries::new().inherit(e);
    let v = copy.into_inner();
    assert(flags_view(v@) =~= entry_values(copy@));
    v
}

impl UseMasks {
    /// The model of these masks.
    pub closed spec fn model(&self) -> UseMasksView {
        UseMasksView {
            use_mask: flags_view(self.use_mask@),
            use_force: flags_view(self.use_force@),
            use_stable_mask: flags_view(self.use_stable_mask@),
            use_stable_force: flags_view(self.use_stable_force@),
            package_use: rules_view(self.package_use@),
            package_use_mask: rules_view(self.package_use_mask@),
            package_use_force: rules_view(self.package_use_force@),
            package_use_stable_mask: rules_view(self.package_use_stable_mask@),
            package_use_stable_force: rules_view(self.package_use_stable_force@),
        }
    }

    /// Builds the masks of the profile and the user's configuration: the user's USE masks
    /// inherit the profile's, the user's package USE and package USE masks inherit the
    /// profile's, and all package records are resolved with the USE expansion groups of
    /// the profile's make defaults. The first record that fails to resolve is the error.
    pub fn new(
        profile: &Profile,
        package_use: PackageUseEntries,
        use_mask: LineEntries<UseFlag>,
        package_use_mask: PackageUseEntries,
    ) -> (r: Result<Self, Error>)
        ensures
            ({
                let defaults = profile.make_defaults@;
                let cfg = expand_config_of(defaults);
                let pu = expand_records(inherit_policies::<UseSpec>(package_use@, profile.package_use@), cfg);
                let pum = expand_records(inherit_policies::<UseSpec>(package_use_mask@, profile.package_use_mask@), cfg);
                let puf = expand_records(profile.package_use_force@, cfg);
                let pusm = expand_records(profile.package_use_stable_mask@, cfg);
                let pusf = expand_records(profile.package_use_stable_force@, cfg);
                if !use_expand_overlap(defaults) && pu is Some && pum is Some && puf is Some && pusm is Some
                    && pusf is Some {
                    r matches Ok(m) && m.model() == (UseMasksView {
                        use_mask: entry_values(keep_last::<UseFlag>(profile.use_mask@ + use_mask@)),
                        use_force: entry_values(keep_last::<UseFlag>(profile.use_force@ + Seq::empty())),
                        use_stable_mask: entry_values(keep_last::<UseFlag>(profile.use_stable_mask@ + Seq::empty())),
                        use_stable_force: entry_values(keep_last::<UseFlag>(profile.use_stable_force@ + Seq::empty())),
                        package_use: pu->Some_0,
                        package_use_mask: pum->Some_0,
                        package_use_force: puf->Some_0,
                        package_use_stable_mask: pusm->Some_0,
                        package_use_stable_force: pusf->Some_0,
                    })
                } else {
                    r is Err
                }
            }),
    {
        let cfg = match UseExpandConfig::from_makenv(&profile.make_defaults) {
            Ok(c) => c,
            Err(_) => return Err(Error::new("failed to build the package USE expansion namespace")),
        };
        let ghost um = use_mask@;
        let inherited_mask = use_mask.inherit(&profile.use_mask);
        let use_mask = inherited_mask.into_inner();
        let use_force = values_of(&profile.use_force);
        let use_stable_mask = values_of(&profile.use_stable_mask);
        let use_stable_force = values_of(&profile.use_stable_force);
        let package_use = match resolve_entries(
            &package_use.inherit(&profile.package_use),
            &cfg,
            "failed to resolve package.use",
        ) {
            Ok(v) => v,
            Err(e) => return Err(e),
        };
        let package_use_mask = match resolve_entries(
            &package_use_mask.inherit(&profile.package_use_mask),
            &cfg,
            "failed to resolve package.use.mask",
        ) {
            Ok(v) => v,
            Err(e) => return Err(e),
        };
        let package_use_force = match resolve_entries(&profile.package_use_force, &cfg, "failed to resolve package.use.force") {
            Ok(v) => v,
            Err(e) => return Err(e),
        };
        let package_use_stable_mask = match resolve_entries(
            &profile.package_use_stable_mask,
            &cfg,
            "failed to resolve package.use.stable.mask",
        ) {
            Ok(v) => v,
            Err(e) => return Err(e),
        };
        let package_use_stable_force = match resolve_entries(
            &profile.package_use_stable_force,
            &cfg,
            "failed to resolve package.use.stable.force",
        ) {
            Ok(v) => v,
            Err(e) => return Err(e),
        };
        let r = UseMasks {
            use_mask,
            use_force,
            use_stable_mask,
            use_stable_force,
            package_use,
            package_use_mask,
            package_use_force,
            package_use_stable_mask,
            package_use_stable_force,
        };
        assert(r.model().use_mask =~= entry_values(keep_last::<UseFlag>(profile.use_mask@ + um)));
        Ok(r)
    }

    /// Returns `true` if `flag` is masked globally or by the stable masks.
    pub fn is_masked(&self, flag: &UseFlag) -> (r: bool)
        ensures
            r == (self.model().use_mask.contains(flag@) || self.model().use_stable_mask.contains(flag@)),
    {
        has_flag(&self.use_mask, flag.as_str()) || has_flag(&self.use_stable_mask, flag.as_str())
    }

    /// Returns `true` if `flag` is masked for `pkg`: globally, or by the higher ranked of
    /// the package masks and stable package masks that name it.
    pub fn is_masked_for_pkg<P: PackageView>(&self, pkg: &P, flag: &UseFlag) -> (r: bool)
        ensures
            r == ((self.model().use_mask.contains(flag@) || self.model().use_stable_mask.contains(flag@))
                || rules_decide(
                self.model().package_use_mask,
                self.model().package_use_stable_mask,
                pkg.cpv_model(),
                pkg.repo_model(),
                pkg.metadata_model().slot,
                flag@,
            )),
    {
        if self.is_masked(flag) {
            return true;
        }
        let mask = Self::find_pkguse_match(pkg, flag, &self.package_use_mask);
        let stable = Self::find_pkguse_match(pkg, flag, &self.package_use_stable_mask);
        Self::decide(mask, stable)
    }

    /// Returns `true` if `flag` is forced globally or by the stable forces.
    pub fn is_forced(&self, flag: &UseFlag) -> (r: bool)
        ensures
            r == (self.model().use_force.contains(flag@) || self.model().use_stable_force.contains(flag@)),
    {
        has_flag(&self.use_force, flag.as_str()) || has_flag(&self.use_stable_force, flag.as_str())
    }

    /// Returns `true` if `flag` is forced for `pkg`: globally, or by the higher ranked of
    /// the package forces and stable package forces that name it.
    pub fn is_forced_for_pkg<P: PackageView>(&self, pkg: &P, flag: &UseFlag) -> (r: bool)
        ensures
            r == ((self.model().use_force.contains(flag@) || self.model().use_stable_force.contains(flag@))
                || rules_decide(
                self.model().package_use_force,
                self.model().package_use_stable_force,
                pkg.cpv_model(),
                pkg.repo_model(),
                pkg.metadata_model().slot,
                flag@,
            )),
    {
        if self.is_forced(flag) {
            return true;
        }
        let force = Self::find_pkguse_match(pkg, flag, &self.package_use_force);
        let stable = Self::find_pkguse_match(pkg, flag, &self.package_use_stable_force);
        Self::decide(force, stable)
    }

    /// What two matches decide: the higher ranked one sets the flag.
    fn decide(a: Option<(usize, Operation)>, b: Option<(usize, Operation)>) -> (r: bool)
        ensures
            r == match (a, b) {
                (Some((p, x)), Some((q, y))) => if ranks_above(q as int, y, p as int, x) {
                    y == Operation::Apply
                } else {
                    x == Operation::Apply
                },
                (Some((_, x)), None) => x == Operation::Apply,
                (None, Some((_, y))) => y == Operation::Apply,
                (None, None) => false,
            },
    {
        match (a, b) {
            (Some((p, x)), Some((q, y))) => if q > p || (q == p && y == Operation::Unset && x == Operation::Apply) {
                y.as_bool()
            } else {
                x.as_bool()
            },
            (Some((_, x)), None) => x.as_bool(),
            (None, Some((_, y))) => y.as_bool(),
            (None, None) => false,
        }
    }

    /// Returns the precedence and operation of the highest ranked entry of `flag` among
    /// the rules that select `pkg`.
    fn find_pkguse_match<P: PackageView>(pkg: &P, flag: &UseFlag, rules: &Vec<(Atom, UseFlags)>) -> (r: Option<(usize, Operation)>)
        ensures
            match top_flag_entry(rules_view(rules@), pkg.cpv_model(), pkg.repo_model(), pkg.metadata_model().slot, flag@) {
                Some((p, op)) => r matches Some((x, o)) && x == p && o == op,
                None => r is None,
            },
    {
        let ghost rs = rules_view(rules@);
        let mut best: Option<(usize, Operation)> = None;
        let mut i: usize = 0;
        while i < rules.len()
            invariant
                0 <= i <= rules@.len(),
                rs == rules_view(rules@),
                match top_flag_entry(
                    rs.subrange(0, i as int),
                    pkg.cpv_model(),
                    pkg.repo_model(),
                    pkg.metadata_model().slot,
                    flag@,
                ) {
                    Some((p, op)) => best matches Some((x, o)) && x == p && o == op,
                    None => best is None,
                },
            decreases rules.len() - i,
        {
            let ghost sub = rs.subrange(0, i + 1);
            assert(sub.drop_last() =~= rs.subrange(0, i as int));
            assert(sub.last() == (rules@[i as int].0@, rules@[i as int].1@));
            if pkg.matches_atom(&rules[i].0) {
                match rules[i].1.get(flag) {
                    Some(e) => {
                        let p = e.precedence().ordinal();
                        let op = e.operation();
                        best = match best {
                            Some((bp, bop)) => if p > bp || (p == bp && op == Operation::Unset && bop == Operation::Apply) {
                                Some((p, op))
                            } else {
                                Some((bp, bop))
                            },
                            None => Some((p, op)),
                        };
                    },
                    None => {},
                }
            }
            i += 1;
        }
        assert(rs.subrange(0, i as int) =~= rs);
        best
    }
}

} // verus!
