//! The USE flags in effect for a package, and whether they satisfy its `REQUIRED_USE`.
use crate::deps::DepExpression;
use crate::deps::atom::{Atom, AtomView};
use crate::deps::expression::{ExprView, Expression, ExpressionNode, ExpressionNodes};
use crate::deps::useflag::{UseFlag, UseFlagPrefix};
use crate::error::Error;
use crate::files::entry::{Entry, Operation, prec_ordinal};
use crate::files::linefile::{EntryModel, LineEntries, keep_last};
use crate::files::pkgfile::useflags::{PackageUseRecords, UseFlags, UseSpec, expand_records, flag_index};
use crate::files::pkgfile::inherit_policies;
use crate::makenv::stack::{UseStates, state_index};
use crate::package::cpv::CpvView;
use crate::package::slot::SlotView;
use crate::package::{PackageView, package_matches};
use crate::profile::ProfileUseRecords;
use crate::text::{append_str, str_eq, texts};
use vstd::prelude::*;

verus! {

/// The state of a flag: `Some(enabled)` where it is available, `None` where it is not.
pub open spec fn flag_state(avail: Seq<Seq<char>>, enabled: Seq<Seq<char>>, f: Seq<char>) -> Option<bool> {
    if avail.contains(f) {
        Some(enabled.contains(f))
    } else {
        None
    }
}

/// The error for a flag that is not available.
pub open spec fn unavailable(f: Seq<char>) -> Seq<char> {
    "flag "@ + f + " is not available"@
}

/// Whether the flags satisfy a `REQUIRED_USE` expression; an error at the first flag in
/// evaluation order that is not available. Groups stop at the first node that decides.
pub open spec fn eval_tree(t: ExprView, avail: Seq<Seq<char>>, enabled: Seq<Seq<char>>) -> Result<bool, Seq<char>>
    decreases t,
{
    match t {
        ExprView::Item(f) => match flag_state(avail, enabled, f) {
            Some(b) => Ok(b),
            None => Err(unavailable(f)),
        },
        ExprView::AllOf(ns) => eval_all(ns, avail, enabled),
        ExprView::AnyOf(ns) => eval_any(ns, avail, enabled),
        ExprView::ExactlyOneOf(ns) => match count_true(ns, 0, avail, enabled) {
            Ok(c) => Ok(c == 1),
            Err(m) => Err(m),
        },
        ExprView::AtMostOneOf(ns) => match count_true(ns, 0, avail, enabled) {
            Ok(c) => Ok(c < 2),
            Err(m) => Err(m),
        },
        ExprView::Use { flag, negated, nodes } => match flag_state(avail, enabled, flag) {
            None => Err(unavailable(flag)),
            Some(b) => if b == negated {
                Ok(true)
            } else {
                eval_all(nodes, avail, enabled)
            },
        },
        ExprView::Not(b) => match eval_tree(*b, avail, enabled) {
            Ok(x) => Ok(!x),
            Err(m) => Err(m),
        },
        ExprView::Forbidden(_) => Err("strong blockers are not valid in REQUIRED_USE"@),
    }
}

/// All expressions hold, evaluated in order up to the first that does not.
pub open spec fn eval_all(ts: Seq<ExprView>, avail: Seq<Seq<char>>, enabled: Seq<Seq<char>>) -> Result<bool, Seq<char>>
    decreases ts,
{
    if ts.len() == 0 {
        Ok(true)
    } else {
        match eval_tree(ts[0], avail, enabled) {
            Err(m) => Err(m),
            Ok(false) => Ok(false),
            Ok(true) => eval_all(ts.subrange(1, ts.len() as int), avail, enabled),
        }
    }
}

/// Some expression holds, evaluated in order up to the first that does.
pub open spec fn eval_any(ts: Seq<ExprView>, avail: Seq<Seq<char>>, enabled: Seq<Seq<char>>) -> Result<bool, Seq<char>>
    decreases ts,
{
    if ts.len() == 0 {
        Ok(false)
    } else {
        match eval_tree(ts[0], avail, enabled) {
            Err(m) => Err(m),
            Ok(true) => Ok(true),
            Ok(false) => eval_any(ts.subrange(1, ts.len() as int), avail, enabled),
        }
    }
}

/// `acc` plus the number of expressions that hold, evaluated in order until the count
/// exceeds two.
pub open spec fn count_true(ts: Seq<ExprView>, acc: nat, avail: Seq<Seq<char>>, enabled: Seq<Seq<char>>) -> Result<
    nat,
    Seq<char>,
>
    decreases ts,
{
    if ts.len() == 0 {
        Ok(acc)
    } else {
        match eval_tree(ts[0], avail, enabled) {
            Err(m) => Err(m),
            Ok(b) => {
                let a = acc + if b {
                    1nat
                } else {
                    0nat
                };
                if a > 2 {
                    Ok(a)
                } else {
                    count_true(ts.subrange(1, ts.len() as int), a, avail, enabled)
                }
            },
        }
    }
}

/// The expression holds for the flags.
pub open spec fn holds(t: ExprView, avail: Seq<Seq<char>>, enabled: Seq<Seq<char>>) -> bool {
    eval_tree(t, avail, enabled) == Ok::<bool, Seq<char>>(true)
}

/// Each expression evaluates without error.
pub open spec fn all_evaluate(ts: Seq<ExprView>, avail: Seq<Seq<char>>, enabled: Seq<Seq<char>>) -> bool {
    forall|i: int| 0 <= i < ts.len() ==> (#[trigger] eval_tree(ts[i], avail, enabled)) is Ok
}

/// No expression holds.
pub open spec fn none_holds(ts: Seq<ExprView>, avail: Seq<Seq<char>>, enabled: Seq<Seq<char>>) -> bool {
    forall|i: int| 0 <= i < ts.len() ==> !holds(#[trigger] ts[i], avail, enabled)
}

/// Exactly one expression holds.
pub open spec fn one_holds(ts: Seq<ExprView>, avail: Seq<Seq<char>>, enabled: Seq<Seq<char>>) -> bool {
    exists|i: int|
        0 <= i < ts.len() && holds(#[trigger] ts[i], avail, enabled) && forall|j: int|
            0 <= j < ts.len() && j != i ==> !holds(#[trigger] ts[j], avail, enabled)
}

/// Where none of a list holds: none of its first, nor of the rest.
proof fn lemma_none_split(ts: Seq<ExprView>, avail: Seq<Seq<char>>, enabled: Seq<Seq<char>>)
    requires
        ts.len() > 0,
    ensures
        none_holds(ts, avail, enabled) <==> (!holds(ts[0], avail, enabled) && none_holds(
            ts.subrange(1, ts.len() as int),
            avail,
            enabled,
        )),
{
    let rest = ts.subrange(1, ts.len() as int);
    if none_holds(ts, avail, enabled) {
        assert(!holds(ts[0], avail, enabled));
        assert forall|i: int| 0 <= i < rest.len() implies !holds(#[trigger] rest[i], avail, enabled) by {
            assert(rest[i] == ts[i + 1]);
            assert(!holds(ts[i + 1], avail, enabled));
        }
    }
    if !holds(ts[0], avail, enabled) && none_holds(rest, avail, enabled) {
        assert forall|i: int| 0 <= i < ts.len() implies !holds(#[trigger] ts[i], avail, enabled) by {
            if i > 0 {
                assert(ts[i] == rest[i - 1]);
                assert(!holds(rest[i - 1], avail, enabled));
            }
        }
    }
}

/// Where exactly one of a list holds: the first and none of the rest, or not the first
/// and exactly one of the rest.
proof fn lemma_one_split(ts: Seq<ExprView>, avail: Seq<Seq<char>>, enabled: Seq<Seq<char>>)
    requires
        ts.len() > 0,
    ensures
        one_holds(ts, avail, enabled) <==> ((holds(ts[0], avail, enabled) && none_holds(
            ts.subrange(1, ts.len() as int),
            avail,
            enabled,
        )) || (!holds(ts[0], avail, enabled) && one_holds(ts.subrange(1, ts.len() as int), avail, enabled))),
{
    let rest = ts.subrange(1, ts.len() as int);
    let b = holds(ts[0], avail, enabled);
    if one_holds(ts, avail, enabled) {
        let i = choose|i: int|
            0 <= i < ts.len() && holds(#[trigger] ts[i], avail, enabled) && forall|j: int|
                0 <= j < ts.len() && j != i ==> !holds(#[trigger] ts[j], avail, enabled);
        if i == 0 {
            assert forall|k: int| 0 <= k < rest.len() implies !holds(#[trigger] rest[k], avail, enabled) by {
                assert(rest[k] == ts[k + 1]);
                assert(!holds(ts[k + 1], avail, enabled));
            }
        } else {
            assert(!holds(ts[0], avail, enabled));
            assert(rest[i - 1] == ts[i]);
            assert(holds(rest[i - 1], avail, enabled));
            assert forall|j: int| 0 <= j < rest.len() && j != i - 1 implies !holds(#[trigger] rest[j], avail, enabled) by {
                assert(rest[j] == ts[j + 1]);
                assert(!holds(ts[j + 1], avail, enabled));
            }
        }
    }
    if b && none_holds(rest, avail, enabled) {
        assert forall|j: int| 0 <= j < ts.len() && j != 0 implies !holds(#[trigger] ts[j], avail, enabled) by {
            assert(ts[j] == rest[j - 1]);
            assert(!holds(rest[j - 1], avail, enabled));
        }
        assert(holds(ts[0], avail, enabled));
    }
    if !b && one_holds(rest, avail, enabled) {
        let k = choose|k: int|
            0 <= k < rest.len() && holds(#[trigger] rest[k], avail, enabled) && forall|j: int|
                0 <= j < rest.len() && j != k ==> !holds(#[trigger] rest[j], avail, enabled);
        assert(ts[k + 1] == rest[k]);
        assert(holds(ts[k + 1], avail, enabled));
        assert forall|j: int| 0 <= j < ts.len() && j != k + 1 implies !holds(#[trigger] ts[j], avail, enabled) by {
            if j > 0 {
                assert(ts[j] == rest[j - 1]);
                assert(!holds(rest[j - 1], avail, enabled));
            }
        }
    }
}

/// No list has both none and exactly one of its expressions holding.
proof fn lemma_none_not_one(ts: Seq<ExprView>, avail: Seq<Seq<char>>, enabled: Seq<Seq<char>>)
    ensures
        !(none_holds(ts, avail, enabled) && one_holds(ts, avail, enabled)),
{
    if none_holds(ts, avail, enabled) && one_holds(ts, avail, enabled) {
        let k = choose|k: int|
            0 <= k < ts.len() && holds(#[trigger] ts[k], avail, enabled) && forall|j: int|
                0 <= j < ts.len() && j != k ==> !holds(#[trigger] ts[j], avail, enabled);
        assert(!holds(ts[k], avail, enabled));
    }
}

/// What the count gives, told by how many expressions hold: nothing counted beyond `acc`
/// where none holds, one where `acc` is one and none holds or `acc` is zero and exactly
/// one holds.
proof fn lemma_count_true(ts: Seq<ExprView>, acc: nat, avail: Seq<Seq<char>>, enabled: Seq<Seq<char>>)
    requires
        all_evaluate(ts, avail, enabled),
    ensures
        count_true(ts, acc, avail, enabled) is Ok,
        count_true(ts, acc, avail, enabled)->Ok_0 >= acc,
        count_true(ts, acc, avail, enabled)->Ok_0 == 0 <==> (acc == 0 && none_holds(ts, avail, enabled)),
        count_true(ts, acc, avail, enabled)->Ok_0 == 1 <==> ((acc == 1 && none_holds(ts, avail, enabled)) || (acc
            == 0 && one_holds(ts, avail, enabled))),
    decreases ts.len(),
{
    if ts.len() == 0 {
        assert(!one_holds(ts, avail, enabled));
    } else {
        let rest = ts.subrange(1, ts.len() as int);
        assert(eval_tree(ts[0], avail, enabled) is Ok);
        assert(all_evaluate(rest, avail, enabled)) by {
            assert forall|i: int| 0 <= i < rest.len() implies (#[trigger] eval_tree(rest[i], avail, enabled)) is Ok by {
                assert(rest[i] == ts[i + 1]);
                assert(eval_tree(ts[i + 1], avail, enabled) is Ok);
            }
        }
        let b = holds(ts[0], avail, enabled);
        let a: nat = acc + if b { 1nat } else { 0nat };
        lemma_none_split(ts, avail, enabled);
        lemma_one_split(ts, avail, enabled);
        lemma_none_not_one(rest, avail, enabled);
        if a <= 2 {
            lemma_count_true(rest, a, avail, enabled);
        }
    }
}

/// `^^ ( ... )` holds exactly when one of its expressions holds, and `?? ( ... )` when at
/// most one does; so both fail where two hold, and `^^` fails where none holds. (Where an
/// expression names a flag that is not available, evaluation fails instead.)
pub proof fn lemma_one_of_groups(ts: Seq<ExprView>, avail: Seq<Seq<char>>, enabled: Seq<Seq<char>>)
    requires
        all_evaluate(ts, avail, enabled),
    ensures
        eval_tree(ExprView::ExactlyOneOf(ts), avail, enabled) == Ok::<bool, Seq<char>>(one_holds(ts, avail, enabled)),
        eval_tree(ExprView::AtMostOneOf(ts), avail, enabled) == Ok::<bool, Seq<char>>(
            none_holds(ts, avail, enabled) || one_holds(ts, avail, enabled),
        ),
        none_holds(ts, avail, enabled) ==> eval_tree(ExprView::ExactlyOneOf(ts), avail, enabled) == Ok::<
            bool,
            Seq<char>,
        >(false),
{
    lemma_count_true(ts, 0, avail, enabled);
    lemma_none_not_one(ts, avail, enabled);
}

/// The USE state of one package: the flags it can have and those that are enabled.
#[derive(Debug)]
pub struct EffectiveUse {
    available: Vec<UseFlag>,
    enabled: Vec<UseFlag>,
}

impl EffectiveUse {
    /// The flags that can exist for the package (`IUSE_EFFECTIVE`).
    pub closed spec fn avail(&self) -> Seq<Seq<char>> {
        self.available@.map_values(|f: UseFlag| f@)
    }

    /// The flags that are enabled.
    pub closed spec fn on(&self) -> Seq<Seq<char>> {
        self.enabled@.map_values(|f: UseFlag| f@)
    }

    /// Creates a state from the available and the enabled flags.
    pub fn new(available: Vec<UseFlag>, enabled: Vec<UseFlag>) -> (r: Self)
        ensures
            r.avail() == available@.map_values(|f: UseFlag| f@),
            r.on() == enabled@.map_values(|f: UseFlag| f@),
    {
        EffectiveUse { available, enabled }
    }

    /// Returns the state of `flag`: `Some(enabled)` where it is available.
    pub fn state(&self, flag: &UseFlag) -> (r: Option<bool>)
        ensures
            r == flag_state(self.avail(), self.on(), flag@),
    {
        if contains_flag(&self.available, flag.as_str()) {
            Some(contains_flag(&self.enabled, flag.as_str()))
        } else {
            None
        }
    }

    /// Returns whether `flag` is enabled; an error where it is not available.
    fn is_enabled(&self, flag: &UseFlag) -> (r: Result<bool, Error>)
        ensures
            match flag_state(self.avail(), self.on(), flag@) {
                Some(b) => r matches Ok(x) && x == b,
                None => r matches Err(e) && e.text() == unavailable(flag@),
            },
    {
        match self.state(flag) {
            Some(b) => Ok(b),
            None => {
                let mut m = String::new();
                append_str(&mut m, "flag ");
                append_str(&mut m, flag.as_str());
                append_str(&mut m, " is not available");
                Err(Error::from_string(m))
            },
        }
    }

    /// Returns whether the flags satisfy the `REQUIRED_USE` expression `expr`.
    pub fn satisfies(&self, expr: &DepExpression<UseFlag>) -> (r: Result<bool, Error>)
        ensures
            match eval_all(expr.exprs(), self.avail(), self.on()) {
                Ok(b) => r matches Ok(x) && x == b,
                Err(m) => r matches Err(e) && e.text() == m,
            },
    {
        let tree = expr.view();
        let roots = tree.roots();
        eval_all_nodes(roots, self)
    }
}

/// Returns `true` if one of `flags` is `name`.
fn contains_flag(flags: &Vec<UseFlag>, name: &str) -> (r: bool)
    ensures
        r == flags@.map_values(|f: UseFlag| f@).contains(name@),
{
    let ghost fs = flags@.map_values(|f: UseFlag| f@);
    let mut i: usize = 0;
    while i < flags.len()
        invariant
            0 <= i <= flags@.len(),
            fs == flags@.map_values(|f: UseFlag| f@),
            forall|j: int| 0 <= j < i ==> fs[j] != name@,
        decreases flags.len() - i,
    {
        if str_eq(flags[i].as_str(), name) {
            assert(fs[i as int] == name@);
            return true;
        }
        i += 1;
    }
    false
}

/// Evaluates the expression of `node`.
fn eval_node<'a>(node: &ExpressionNode<'a, UseFlag>, st: &EffectiveUse) -> (r: Result<bool, Error>)
    requires
        node.wf(),
    ensures
        match eval_tree(node@, st.avail(), st.on()) {
            Ok(b) => r matches Ok(x) && x == b,
            Err(m) => r matches Err(e) && e.text() == m,
        },
    decreases node@,
{
    match node.expression() {
        Expression::Item(flag) => st.is_enabled(flag),
        Expression::AllOf(ns) => eval_all_nodes(ns, st),
        Expression::AnyOf(ns) => eval_any_nodes(ns, st),
        Expression::ExactlyOneOf(ns) => match count_nodes(ns, 0, st) {
            Ok(c) => Ok(c == 1),
            Err(e) => Err(e),
        },
        Expression::AtMostOneOf(ns) => match count_nodes(ns, 0, st) {
            Ok(c) => Ok(c < 2),
            Err(e) => Err(e),
        },
        Expression::Use { flag, negated, nodes } => match st.is_enabled(flag) {
            Err(e) => Err(e),
            Ok(b) => if b == negated {
                Ok(true)
            } else {
                eval_all_nodes(nodes, st)
            },
        },
        Expression::Not(n) => match eval_node(&n, st) {
            Ok(x) => Ok(!x),
            Err(e) => Err(e),
        },
        Expression::Forbidden(_) => Err(Error::new("strong blockers are not valid in REQUIRED_USE")),
    }
}

/// Evaluates whether all the nodes left hold.
fn eval_all_nodes<'a>(nodes: ExpressionNodes<'a, UseFlag>, st: &EffectiveUse) -> (r: Result<bool, Error>)
    requires
        nodes.wf(),
    ensures
        match eval_all(nodes.rest(), st.avail(), st.on()) {
            Ok(b) => r matches Ok(x) && x == b,
            Err(m) => r matches Err(e) && e.text() == m,
        },
    decreases nodes.rest(),
{
    let ghost rest = nodes.rest();
    let mut nodes = nodes;
    match nodes.next() {
        None => Ok(true),
        Some(first) => {
            assert(nodes.rest() == rest.subrange(1, rest.len() as int));
            match eval_node(&first, st) {
                Err(e) => Err(e),
                Ok(false) => Ok(false),
                Ok(true) => eval_all_nodes(nodes, st),
            }
        },
    }
}

/// Evaluates whether some of the nodes left holds.
fn eval_any_nodes<'a>(nodes: ExpressionNodes<'a, UseFlag>, st: &EffectiveUse) -> (r: Result<bool, Error>)
    requires
        nodes.wf(),
    ensures
        match eval_any(nodes.rest(), st.avail(), st.on()) {
            Ok(b) => r matches Ok(x) && x == b,
            Err(m) => r matches Err(e) && e.text() == m,
        },
    decreases nodes.rest(),
{
    let ghost rest = nodes.rest();
    let mut nodes = nodes;
    match nodes.next() {
        None => Ok(false),
        Some(first) => {
            assert(nodes.rest() == rest.subrange(1, rest.len() as int));
            match eval_node(&first, st) {
                Err(e) => Err(e),
                Ok(true) => Ok(true),
                Ok(false) => eval_any_nodes(nodes, st),
            }
        },
    }
}

/// Counts the nodes left that hold, from `acc`, until the count exceeds two.
fn count_nodes<'a>(nodes: ExpressionNodes<'a, UseFlag>, acc: u8, st: &EffectiveUse) -> (r: Result<u8, Error>)
    requires
        nodes.wf(),
        acc <= 2,
    ensures
        match count_true(nodes.rest(), acc as nat, st.avail(), st.on()) {
            Ok(c) => r matches Ok(x) && x == c,
            Err(m) => r matches Err(e) && e.text() == m,
        },
    decreases nodes.rest(),
{
    let ghost rest = nodes.rest();
    let mut nodes = nodes;
    match nodes.next() {
        None => Ok(acc),
        Some(first) => {
            assert(nodes.rest() == rest.subrange(1, rest.len() as int));
            match eval_node(&first, st) {
                Err(e) => Err(e),
                Ok(b) => {
                    let a = if b {
                        acc + 1
                    } else {
                        acc
                    };
                    if a > 2 {
                        Ok(a)
                    } else {
                        count_nodes(nodes, a, st)
                    }
                },
            }
        },
    }
}

/// Model of resolved package USE rules: atoms with the entries of their flags.
pub type UseRules = Seq<(AtomView, Seq<EntryModel<Seq<char>>>)>;

/// The entry of `f` that applies to a package: among the rules whose atom selects it, the
/// entry of highest precedence, the last among equals.
pub open spec fn best_entry(rules: UseRules, cpv: CpvView, repo: Seq<char>, slot: SlotView, f: Seq<char>) -> Option<
    EntryModel<Seq<char>>,
>
    decreases rules.len(),
{
    if rules.len() == 0 {
        None
    } else {
        let rest = best_entry(rules.drop_last(), cpv, repo, slot, f);
        let r = rules.last();
        if package_matches(cpv, repo, slot, r.0) && flag_index(r.1, f) is Some {
            let e = r.1[flag_index(r.1, f)->Some_0];
            match rest {
                Some(x) => if prec_ordinal(x.0) > prec_ordinal(e.0) {
                    rest
                } else {
                    Some(e)
                },
                None => Some(e),
            }
        } else {
            rest
        }
    }
}

/// The rules set `f` for the package.
pub open spec fn rules_set(rules: UseRules, cpv: CpvView, repo: Seq<char>, slot: SlotView, f: Seq<char>) -> bool {
    best_entry(rules, cpv, repo, slot, f) matches Some(e) && e.1 == Operation::Apply
}

/// The default of `f` in IUSE: the first entry of the flag decides, `+` enabled, `-`
/// disabled, none unset.
pub open spec fn iuse_default(iuse: Seq<(UseFlagPrefix, Seq<char>)>, f: Seq<char>) -> Option<bool>
    decreases iuse.len(),
{
    if iuse.len() == 0 {
        None
    } else if iuse[0].1 == f {
        match iuse[0].0 {
            UseFlagPrefix::Enable => Some(true),
            UseFlagPrefix::Disable => Some(false),
            UseFlagPrefix::Plain => None,
        }
    } else {
        iuse_default(iuse.subrange(1, iuse.len() as int), f)
    }
}

/// What the configuration wants for `f`: package USE, else the global USE, else the IUSE
/// default.
pub open spec fn desired_state(
    package_use: UseRules,
    base: UseStates,
    iuse: Seq<(UseFlagPrefix, Seq<char>)>,
    cpv: CpvView,
    repo: Seq<char>,
    slot: SlotView,
    f: Seq<char>,
) -> Option<bool> {
    match best_entry(package_use, cpv, repo, slot, f) {
        Some(e) => Some(e.1 == Operation::Apply),
        None => match state_index(base, f) {
            Some(i) => Some(base[i].1),
            None => iuse_default(iuse, f),
        },
    }
}

/// Model of a USE policy: the global USE states, the implicit flags, and the package USE,
/// mask, force, stable mask and stable force rules.
pub struct UsePolicyView {
    pub base: UseStates,
    pub implicit: Seq<Seq<char>>,
    pub package_use: UseRules,
    pub mask: UseRules,
    pub force: UseRules,
    pub stable_mask: UseRules,
    pub stable_force: UseRules,
}

/// `f` is enabled for the package: available, not masked, and forced or wanted.
pub open spec fn flag_enabled(
    p: UsePolicyView,
    iuse: Seq<(UseFlagPrefix, Seq<char>)>,
    cpv: CpvView,
    repo: Seq<char>,
    slot: SlotView,
    stable: bool,
    f: Seq<char>,
) -> bool {
    let masked = rules_set(p.mask, cpv, repo, slot, f) || (stable && rules_set(p.stable_mask, cpv, repo, slot, f));
    let forced = rules_set(p.force, cpv, repo, slot, f) || (stable && rules_set(p.stable_force, cpv, repo, slot, f));
    !masked && (forced || desired_state(p.package_use, p.base, iuse, cpv, repo, slot, f) == Some(true))
}

/// The flags of `avail` that are enabled, in order.
pub open spec fn enabled_flags(
    avail: Seq<Seq<char>>,
    p: UsePolicyView,
    iuse: Seq<(UseFlagPrefix, Seq<char>)>,
    cpv: CpvView,
    repo: Seq<char>,
    slot: SlotView,
    stable: bool,
) -> Seq<Seq<char>>
    decreases avail.len(),
{
    if avail.len() == 0 {
        Seq::empty()
    } else {
        let rest = enabled_flags(avail.drop_last(), p, iuse, cpv, repo, slot, stable);
        if flag_enabled(p, iuse, cpv, repo, slot, stable, avail.last()) {
            rest.push(avail.last())
        } else {
            rest
        }
    }
}

/// What the enabled flags of a package are, over every policy: only available flags are
/// enabled; a flag that the package USE masks select (or, for a stable package, the stable
/// masks) is never enabled, whatever USE and package USE say; an available flag that is
/// not masked is enabled where the forces select it or where the configuration wants it,
/// and otherwise not.
pub proof fn lemma_enabled_flags_law(
    avail: Seq<Seq<char>>,
    p: UsePolicyView,
    iuse: Seq<(UseFlagPrefix, Seq<char>)>,
    cpv: CpvView,
    repo: Seq<char>,
    slot: SlotView,
    stable: bool,
    f: Seq<char>,
)
    ensures
        enabled_flags(avail, p, iuse, cpv, repo, slot, stable).contains(f) ==> avail.contains(f),
        rules_set(p.mask, cpv, repo, slot, f) ==> !enabled_flags(avail, p, iuse, cpv, repo, slot, stable).contains(f),
        stable && rules_set(p.stable_mask, cpv, repo, slot, f) ==> !enabled_flags(
            avail,
            p,
            iuse,
            cpv,
            repo,
            slot,
            stable,
        ).contains(f),
        avail.contains(f) && !rules_set(p.mask, cpv, repo, slot, f) && !(stable && rules_set(
            p.stable_mask,
            cpv,
            repo,
            slot,
            f,
        )) ==> (enabled_flags(avail, p, iuse, cpv, repo, slot, stable).contains(f) <==> (rules_set(
            p.force,
            cpv,
            repo,
            slot,
            f,
        ) || (stable && rules_set(p.stable_force, cpv, repo, slot, f)) || desired_state(
            p.package_use,
            p.base,
            iuse,
            cpv,
            repo,
            slot,
            f,
        ) == Some(true))),
    decreases avail.len(),
{
    let e = enabled_flags(avail, p, iuse, cpv, repo, slot, stable);
    if avail.len() > 0 {
        let rest_avail = avail.drop_last();
        let rest = enabled_flags(rest_avail, p, iuse, cpv, repo, slot, stable);
        lemma_enabled_flags_law(rest_avail, p, iuse, cpv, repo, slot, stable, f);
        let l = avail.last();
        if e.contains(f) {
            let k = choose|k: int| 0 <= k < e.len() && e[k] == f;
            if k < rest.len() {
                assert(e[k] == rest[k]);
                assert(rest.contains(f));
                let m = choose|m: int| 0 <= m < rest_avail.len() && rest_avail[m] == f;
                assert(avail[m] == f);
            } else {
                assert(e[k] == l);
                assert(avail[avail.len() - 1] == f);
            }
        }
        if avail.contains(f) {
            if l == f {
                if flag_enabled(p, iuse, cpv, repo, slot, stable, l) {
                    assert(e[e.len() - 1] == f);
                }
            } else {
                let m = choose|m: int| 0 <= m < avail.len() && avail[m] == f;
                assert(m < rest_avail.len());
                assert(rest_avail[m] == f);
                if rest.contains(f) {
                    let k = choose|k: int| 0 <= k < rest.len() && rest[k] == f;
                    assert(e[k] == f);
                }
            }
        }
    }
}

/// The flags a package can have: those of its IUSE, then the implicit ones.
pub open spec fn available_flags(iuse: Seq<(UseFlagPrefix, Seq<char>)>, implicit: Seq<Seq<char>>) -> Seq<Seq<char>> {
    iuse.map_values(|e: (UseFlagPrefix, Seq<char>)| e.1) + implicit
}

/// Resolved package USE rules.
#[derive(Debug)]
struct PackageUse {
    rules: Vec<(Atom, UseFlags)>,
}

impl View for PackageUse {
    type V = UseRules;

    closed spec fn view(&self) -> UseRules {
        self.rules@.map_values(|r: (Atom, UseFlags)| (r.0@, r.1@))
    }
}

impl PackageUse {
    /// Returns the entry of `flag` that applies to `pkg`.
    fn entry_for<P: PackageView>(&self, pkg: &P, flag: &UseFlag) -> (r: Option<&Entry<UseFlag>>)
        ensures
            match best_entry(self@, pkg.cpv_model(), pkg.repo_model(), pkg.metadata_model().slot, flag@) {
                Some(e) => r matches Some(x) && x@ == e,
                None => r is None,
            },
    {
        let ghost rs = self@;
        let mut best: Option<&Entry<UseFlag>> = None;
        let mut i: usize = 0;
        while i < self.rules.len()
            invariant
                0 <= i <= self.rules@.len(),
                rs == self@,
                match best_entry(
                    rs.subrange(0, i as int),
                    pkg.cpv_model(),
                    pkg.repo_model(),
                    pkg.metadata_model().slot,
                    flag@,
                ) {
                    Some(e) => best matches Some(x) && x@ == e,
                    None => best is None,
                },
            decreases self.rules.len() - i,
        {
            let ghost sub = rs.subrange(0, i + 1);
            assert(sub.drop_last() =~= rs.subrange(0, i as int));
            assert(sub.last() == (self.rules@[i as int].0@, self.rules@[i as int].1@));
            if pkg.matches_atom(&self.rules[i].0) {
                match self.rules[i].1.get(flag) {
                    Some(e) => {
                        best = match best {
                            Some(x) => if x.precedence().is_above(&e.precedence()) {
                                Some(x)
                            } else {
                                Some(e)
                            },
                            None => Some(e),
                        };
                    },
                    None => {},
                }
            }
            i += 1;
        }
        assert(rs.subrange(0, i as int) =~= rs);
        best
    }

    /// Returns `true` if the rules set `flag` for `pkg`.
    fn sets<P: PackageView>(&self, pkg: &P, flag: &UseFlag) -> (r: bool)
        ensures
            r == rules_set(self@, pkg.cpv_model(), pkg.repo_model(), pkg.metadata_model().slot, flag@),
    {
        match self.entry_for(pkg, flag) {
            Some(e) => e.operation().as_bool(),
            None => false,
        }
    }
}

/// The user's USE records.
#[derive(Debug)]
pub struct LocalRecords {
    pub package_use: PackageUseRecords,
    pub use_mask: LineEntries<UseFlag>,
    pub package_use_mask: PackageUseRecords,
}

/// The USE policy in effect: global USE, implicit flags and the package rules.
#[derive(Debug)]
pub struct UsePolicy {
    base_use: Vec<(UseFlag, bool)>,
    iuse_implicit: Vec<UseFlag>,
    use_mask: Vec<UseFlag>,
    use_force: Vec<UseFlag>,
    use_stable_mask: Vec<UseFlag>,
    use_stable_force: Vec<UseFlag>,
    package_use: PackageUse,
    package_use_mask: PackageUse,
    package_use_force: PackageUse,
    package_use_stable_mask: PackageUse,
    package_use_stable_force: PackageUse,
}

/// Resolves records into rules, with `context` as the error.
fn resolve(records: &PackageUseRecords, cfg: &crate::useflag::UseExpandConfig, context: &str) -> (r: Result<PackageUse, Error>)
    ensures
        match expand_records(records@, cfg@) {
            Some(rs) => r matches Ok(p) && p@ == rs,
            None => r matches Err(e) && e.text() == context@,
        },
{
    match records.expand(cfg) {
        Ok(rules) => Ok(PackageUse { rules }),
        Err(_) => Err(Error::new(context)),
    }
}

impl UsePolicy {
    /// The model of this policy.
    pub closed spec fn model(&self) -> UsePolicyView {
        UsePolicyView {
            base: self.base_use@.map_values(|p: (UseFlag, bool)| (p.0@, p.1)),
            implicit: self.iuse_implicit@.map_values(|f: UseFlag| f@),
            package_use: self.package_use@,
            mask: self.package_use_mask@,
            force: self.package_use_force@,
            stable_mask: self.package_use_stable_mask@,
            stable_force: self.package_use_stable_force@,
        }
    }

    /// Builds the policy: the user's package USE and package USE masks inherit the
    /// profile's; all package records are resolved with the profile's USE expansion groups.
    pub fn new(
        global_use: Vec<(UseFlag, bool)>,
        iuse_implicit: Vec<UseFlag>,
        profile: ProfileUseRecords,
        local: LocalRecords,
    ) -> (r: Result<Self, Error>)
        ensures
            ({
                let cfg = profile.expand_config@;
                let pu = expand_records(inherit_policies::<UseSpec>(local.package_use@, profile.package_use@), cfg);
                let pum = expand_records(inherit_policies::<UseSpec>(local.package_use_mask@, profile.package_use_mask@), cfg);
                let puf = expand_records(profile.package_use_force@, cfg);
                let pusm = expand_records(profile.package_use_stable_mask@, cfg);
                let pusf = expand_records(profile.package_use_stable_force@, cfg);
                if pu is Some && pum is Some && puf is Some && pusm is Some && pusf is Some {
                    r matches Ok(p) && p.model() == (UsePolicyView {
                        base: global_use@.map_values(|p: (UseFlag, bool)| (p.0@, p.1)),
                        implicit: iuse_implicit@.map_values(|f: UseFlag| f@),
                        package_use: pu->Some_0,
                        mask: pum->Some_0,
                        force: puf->Some_0,
                        stable_mask: pusm->Some_0,
                        stable_force: pusf->Some_0,
                    })
                } else {
                    r is Err
                }
            }),
    {
        let cfg = &profile.expand_config;
        let use_mask = local.use_mask.inherit(&profile.use_mask).into_inner();
        let use_force = profile.use_force.into_inner();
        let use_stable_mask = profile.use_stable_mask.into_inner();
        let use_stable_force = profile.use_stable_force.into_inner();
        let package_use = match resolve(&local.package_use.inherit(&profile.package_use), cfg, "failed to resolve package.use") {
            Ok(p) => p,
            Err(e) => return Err(e),
        };
        let package_use_mask = match resolve(
            &local.package_use_mask.inherit(&profile.package_use_mask),
            cfg,
            "failed to resolve package.use.mask",
        ) {
            Ok(p) => p,
            Err(e) => return Err(e),
        };
        let package_use_force = match resolve(&profile.package_use_force, cfg, "failed to resolve package.use.force") {
            Ok(p) => p,
            Err(e) => return Err(e),
        };
        let package_use_stable_mask = match resolve(
            &profile.package_use_stable_mask,
            cfg,
            "failed to resolve package.use.stable.mask",
        ) {
            Ok(p) => p,
            Err(e) => return Err(e),
        };
        let package_use_stable_force = match resolve(
            &profile.package_use_stable_force,
            cfg,
            "failed to resolve package.use.stable.force",
        ) {
            Ok(p) => p,
            Err(e) => return Err(e),
        };
        Ok(UsePolicy {
            base_use: global_use,
            iuse_implicit,
            use_mask,
            use_force,
            use_stable_mask,
            use_stable_force,
            package_use,
            package_use_mask,
            package_use_force,
            package_use_stable_mask,
            package_use_stable_force,
        })
    }

    /// Returns the state the global USE gives `flag`, if any.
    fn base_state(&self, flag: &UseFlag) -> (r: Option<bool>)
        ensures
            match state_index(self.model().base, flag@) {
                Some(i) => r == Some(self.model().base[i].1),
                None => r is None,
            },
    {
        let ghost st = self.model().base;
        let mut i: usize = 0;
        while i < self.base_use.len()
            invariant
                0 <= i <= self.base_use@.len(),
                st == self.model().base,
                forall|j: int| 0 <= j < i ==> st[j].0 != flag@,
            decreases self.base_use.len() - i,
        {
            if str_eq(self.base_use[i].0.as_str(), flag.as_str()) {
                proof {
                    crate::makenv::stack::lemma_state_index_first(st, flag@, i as int);
                }
                return Some(self.base_use[i].1);
            }
            i += 1;
        }
        proof {
            crate::makenv::stack::lemma_state_index(st, flag@);
            match state_index(st, flag@) {
                Some(j) => {
                    assert(st[j].0 == flag@);
                },
                None => {},
            }
        }
        None
    }

    /// Returns the state that the configuration wants for `flag` in `pkg`.
    fn desired_state<P: PackageView>(&self, pkg: &P, flag: &UseFlag) -> (r: Option<bool>)
        ensures
            r == desired_state(
                self.model().package_use,
                self.model().base,
                pkg.metadata_model().iuse,
                pkg.cpv_model(),
                pkg.repo_model(),
                pkg.metadata_model().slot,
                flag@,
            ),
    {
        match self.package_use.entry_for(pkg, flag) {
            Some(e) => Some(e.operation().as_bool()),
            None => match self.base_state(flag) {
                Some(b) => Some(b),
                None => iuse_default_of(pkg.metadata().iuse(), flag),
            },
        }
    }

    /// Returns the USE state of `pkg`; `stable_in_use` adds the stable masks and forces.
    pub fn effective_for<P: PackageView>(&self, pkg: &P, stable_in_use: bool) -> (r: EffectiveUse)
        ensures
            r.avail() == available_flags(pkg.metadata_model().iuse, self.model().implicit),
            r.on() == enabled_flags(
                available_flags(pkg.metadata_model().iuse, self.model().implicit),
                self.model(),
                pkg.metadata_model().iuse,
                pkg.cpv_model(),
                pkg.repo_model(),
                pkg.metadata_model().slot,
                stable_in_use,
            ),
    {
        let iuse = pkg.metadata().iuse();
        let mut available: Vec<UseFlag> = Vec::new();
        let mut i: usize = 0;
        while i < iuse.len()
            invariant
                0 <= i <= iuse@.len(),
                available@.map_values(|f: UseFlag| f@) =~= crate::package::metadata::iuse_views(iuse@).map_values(
                    |e: (UseFlagPrefix, Seq<char>)| e.1,
                ).subrange(0, i as int),
            decreases iuse.len() - i,
        {
            let ghost before = available@.map_values(|f: UseFlag| f@);
            available.push(iuse[i].flag().copy());
            assert(available@.map_values(|f: UseFlag| f@) =~= before.push(iuse@[i as int]@.1));
            assert(crate::package::metadata::iuse_views(iuse@).map_values(|e: (UseFlagPrefix, Seq<char>)| e.1).subrange(
                0,
                i + 1,
            ) =~= crate::package::metadata::iuse_views(iuse@).map_values(|e: (UseFlagPrefix, Seq<char>)| e.1).subrange(
                0,
                i as int,
            ).push(iuse@[i as int]@.1));
            i += 1;
        }
        let mut j: usize = 0;
        let ghost base_avail = available@.map_values(|f: UseFlag| f@);
        while j < self.iuse_implicit.len()
            invariant
                0 <= j <= self.iuse_implicit@.len(),
                available@.map_values(|f: UseFlag| f@) =~= base_avail + self.model().implicit.subrange(0, j as int),
            decreases self.iuse_implicit.len() - j,
        {
            let ghost before = available@.map_values(|f: UseFlag| f@);
            available.push(self.iuse_implicit[j].copy());
            assert(available@.map_values(|f: UseFlag| f@) =~= before.push(self.iuse_implicit@[j as int]@));
            assert(self.model().implicit.subrange(0, j + 1) =~= self.model().implicit.subrange(0, j as int).push(
                self.iuse_implicit@[j as int]@,
            ));
            j += 1;
        }
        let ghost avail = available@.map_values(|f: UseFlag| f@);
        assert(avail =~= available_flags(pkg.metadata_model().iuse, self.model().implicit));
        let mut enabled: Vec<UseFlag> = Vec::new();
        let mut k: usize = 0;
        while k < available.len()
            invariant
                0 <= k <= available@.len(),
                avail == available@.map_values(|f: UseFlag| f@),
                enabled@.map_values(|f: UseFlag| f@) == enabled_flags(
                    avail.subrange(0, k as int),
                    self.model(),
                    pkg.metadata_model().iuse,
                    pkg.cpv_model(),
                    pkg.repo_model(),
                    pkg.metadata_model().slot,
                    stable_in_use,
                ),
            decreases available.len() - k,
        {
            let ghost sub = avail.subrange(0, k + 1);
            assert(sub.drop_last() =~= avail.subrange(0, k as int));
            let f = &available[k];
            assert(sub.last() == f@);
            let masked = self.package_use_mask.sets(pkg, f) || (stable_in_use && self.package_use_stable_mask.sets(pkg, f));
            let forced = self.package_use_force.sets(pkg, f) || (stable_in_use && self.package_use_stable_force.sets(pkg, f));
            let on = !masked && (forced || match self.desired_state(pkg, f) {
                Some(b) => b,
                None => false,
            });
            if on {
                let ghost before = enabled@.map_values(|f: UseFlag| f@);
                enabled.push(f.copy());
                assert(enabled@.map_values(|f: UseFlag| f@) =~= before.push(f@));
            }
            k += 1;
        }
        assert(avail.subrange(0, k as int) =~= avail);
        EffectiveUse::new(available, enabled)
    }

    /// Returns whether the USE state of `pkg` satisfies its `REQUIRED_USE`.
    pub fn required_use_satisfied<P: PackageView>(&self, pkg: &P, stable_in_use: bool) -> (r: Result<bool, Error>)
        ensures
            ({
                let avail = available_flags(pkg.metadata_model().iuse, self.model().implicit);
                let on = enabled_flags(
                    avail,
                    self.model(),
                    pkg.metadata_model().iuse,
                    pkg.cpv_model(),
                    pkg.repo_model(),
                    pkg.metadata_model().slot,
                    stable_in_use,
                );
                match eval_all(pkg.metadata_model().required_use, avail, on) {
                    Ok(b) => r matches Ok(x) && x == b,
                    Err(m) => r matches Err(e) && e.text() == m,
                }
            }),
    {
        let state = self.effective_for(pkg, stable_in_use);
        state.satisfies(pkg.metadata().required_use())
    }
}

/// Returns the IUSE default of `flag`.
fn iuse_default_of(iuse: &Vec<crate::deps::useflag::IUseEntry>, flag: &UseFlag) -> (r: Option<bool>)
    ensures
        r == iuse_default(crate::package::metadata::iuse_views(iuse@), flag@),
{
    let ghost es = crate::package::metadata::iuse_views(iuse@);
    let mut i: usize = 0;
    assert(es.subrange(0, es.len() as int) =~= es);
    while i < iuse.len()
        invariant
            0 <= i <= iuse@.len(),
            es == crate::package::metadata::iuse_views(iuse@),
            iuse_default(es, flag@) == iuse_default(es.subrange(i as int, es.len() as int), flag@),
        decreases iuse.len() - i,
    {
        let ghost s = es.subrange(i as int, es.len() as int);
        assert(s[0] == iuse@[i as int]@);
        assert(s.subrange(1, s.len() as int) =~= es.subrange(i + 1, es.len() as int));
        if str_eq(iuse[i].flag().as_str(), flag.as_str()) {
            return match iuse[i].default() {
                UseFlagPrefix::Enable => Some(true),
                UseFlagPrefix::Disable => Some(false),
                UseFlagPrefix::Plain => None,
            };
        }
        i += 1;
    }
    assert(es.subrange(i as int, es.len() as int) =~= Seq::<(UseFlagPrefix, Seq<char>)>::empty());
    None
}

} // verus!
