//! Which packages the keyword configuration accepts: `ACCEPT_KEYWORDS` and the rules of
//! `package.accept_keywords`.
use crate::deps::atom::{Atom, AtomView};
use crate::files::entry::{Operation, Precedence, prec_ordinal};
use crate::files::pkgfile::keywords::{KeywordRule, PackageAcceptKeywords, RuleView, flat_rules};
use crate::keyword::{Keyword, KeywordSelector, KeywordView, SelectorView, selector_matches};
use crate::package::cpv::CpvView;
use crate::package::slot::SlotView;
use crate::package::{PackageView, package_matches};
use crate::repository::Arch;
use vstd::prelude::*;

verus! {

/// Model of what a rule does to the acceptance of a keyword.
pub enum ActionView {
    /// Rejects every keyword.
    Reset,
    /// Accepts the keywords the selector matches.
    Accept(SelectorView),
    /// Rejects the keywords the selector matches.
    Reject(SelectorView),
}

/// What an action decides for a keyword (or its absence), if anything.
pub open spec fn action_effect(a: ActionView, k: Option<KeywordView>) -> Option<bool> {
    match a {
        ActionView::Reset => Some(false),
        ActionView::Accept(s) => if selector_matches(s, k) {
            Some(true)
        } else {
            None
        },
        ActionView::Reject(s) => if selector_matches(s, k) {
            Some(false)
        } else {
            None
        },
    }
}

/// A rule: its precedence, its atom and its action.
pub type RuleModel = (Precedence, AtomView, ActionView);

/// The decision of the rules that select the package and decide for the keyword: that of
/// the one of highest precedence, the last among equals, with its precedence.
pub open spec fn deciding_rule(
    rules: Seq<RuleModel>,
    cpv: CpvView,
    repo: Seq<char>,
    slot: SlotView,
    k: Option<KeywordView>,
) -> Option<(int, bool)>
    decreases rules.len(),
{
    if rules.len() == 0 {
        None
    } else {
        let rest = deciding_rule(rules.drop_last(), cpv, repo, slot, k);
        let r = rules.last();
        if package_matches(cpv, repo, slot, r.1) && action_effect(r.2, k) is Some {
            let v = action_effect(r.2, k)->Some_0;
            match rest {
                None => Some((prec_ordinal(r.0), v)),
                Some((p, _)) => if prec_ordinal(r.0) >= p {
                    Some((prec_ordinal(r.0), v))
                } else {
                    rest
                },
            }
        } else {
            rest
        }
    }
}

/// Some selector of `ACCEPT_KEYWORDS` accepts the keyword.
pub open spec fn globally_accepted(accept: Seq<SelectorView>, k: Option<KeywordView>) -> bool {
    exists|i: int| 0 <= i < accept.len() && selector_matches(accept[i], k)
}

/// The keyword is accepted for the package: as the deciding rule says, or else as
/// `ACCEPT_KEYWORDS` says.
pub open spec fn keyword_accepted(
    accept: Seq<SelectorView>,
    rules: Seq<RuleModel>,
    cpv: CpvView,
    repo: Seq<char>,
    slot: SlotView,
    k: Option<KeywordView>,
) -> bool {
    match deciding_rule(rules, cpv, repo, slot, k) {
        Some((_, v)) => v,
        None => globally_accepted(accept, k),
    }
}

/// The keywords of a package are accepted: some keyword is, or, without keywords, the
/// absence of keywords is.
pub open spec fn keywords_accepted(
    accept: Seq<SelectorView>,
    rules: Seq<RuleModel>,
    cpv: CpvView,
    repo: Seq<char>,
    slot: SlotView,
    ks: Seq<KeywordView>,
) -> bool {
    if ks.len() == 0 {
        keyword_accepted(accept, rules, cpv, repo, slot, None)
    } else {
        exists|i: int| 0 <= i < ks.len() && keyword_accepted(accept, rules, cpv, repo, slot, Some(ks[i]))
    }
}

/// The keywords with each stable keyword replaced by the testing one.
pub open spec fn testing_only(ks: Seq<KeywordView>) -> Seq<KeywordView> {
    ks.map_values(|k: KeywordView| if k.0 == 0 {
        (1u8, k.1)
    } else {
        k
    })
}

/// The actions that a rule of `package.accept_keywords` stands for: a selector accepts or
/// rejects, a reset rejects all, and an atom without keywords accepts the testing keyword
/// of each architecture that `ACCEPT_KEYWORDS` names.
pub open spec fn rule_actions(r: RuleView, accept: Seq<SelectorView>) -> Seq<ActionView> {
    match r {
        RuleView::Selector(_, op, s) => if op == Operation::Apply {
            seq![ActionView::Accept(s)]
        } else {
            seq![ActionView::Reject(s)]
        },
        RuleView::Reset(_) => seq![ActionView::Reset],
        RuleView::AtomOnly(_) => arch_testing(accept),
    }
}

/// Accepting the testing keyword of each architecture that the selectors name.
pub open spec fn arch_testing(accept: Seq<SelectorView>) -> Seq<ActionView>
    decreases accept.len(),
{
    if accept.len() == 0 {
        Seq::empty()
    } else {
        let s = accept.last();
        arch_testing(accept.drop_last()) + if s.0 == 0 || s.0 == 1 {
            seq![ActionView::Accept((1u8, s.1))]
        } else {
            Seq::empty()
        }
    }
}

/// The rules that the rules of `package.accept_keywords` stand for, in order.
pub open spec fn compiled_rules(rs: Seq<(AtomView, RuleView)>, accept: Seq<SelectorView>) -> Seq<RuleModel>
    decreases rs.len(),
{
    if rs.len() == 0 {
        Seq::empty()
    } else {
        let r = rs.last();
        compiled_rules(rs.drop_last(), accept) + rule_actions(r.1, accept).map_values(
            |a: ActionView| (crate::files::pkgfile::keywords::rule_precedence(r.1), r.0, a),
        )
    }
}

/// What a rule does to the acceptance of keywords.
#[derive(Debug)]
pub enum KeywordAction {
    Reset,
    Accept(KeywordSelector),
    Reject(KeywordSelector),
}

impl View for KeywordAction {
    type V = ActionView;

    open spec fn view(&self) -> ActionView {
        match self {
            KeywordAction::Reset => ActionView::Reset,
            KeywordAction::Accept(s) => ActionView::Accept(s@),
            KeywordAction::Reject(s) => ActionView::Reject(s@),
        }
    }
}

impl KeywordAction {
    /// Returns what this action decides for `keyword`, if anything.
    pub fn effect(&self, keyword: Option<&Keyword>) -> (r: Option<bool>)
        ensures
            r == action_effect(
                self@,
                match keyword {
                    Some(k) => Some(k@),
                    None => None,
                },
            ),
    {
        match self {
            KeywordAction::Reset => Some(false),
            KeywordAction::Accept(s) => if s.matches(keyword) {
                Some(true)
            } else {
                None
            },
            KeywordAction::Reject(s) => if s.matches(keyword) {
                Some(false)
            } else {
                None
            },
        }
    }
}

/// The result of evaluating a package against the keyword configuration.
#[derive(Debug, Clone, Copy, PartialEq, Eq, Structural)]
pub struct KeywordEvalResult {
    pub accepted: bool,
    pub stable_in_use: bool,
}

impl KeywordEvalResult {
    /// Creates a result.
    pub fn new(accepted: bool, stable_in_use: bool) -> (r: Self)
        ensures
            r.accepted == accepted,
            r.stable_in_use == stable_in_use,
    {
        KeywordEvalResult { accepted, stable_in_use }
    }
}

/// The keyword configuration in effect.
#[derive(Debug)]
pub struct EffectiveKeywords {
    accept_keywords: Vec<KeywordSelector>,
    rules: Vec<(Precedence, Atom, KeywordAction)>,
}

impl EffectiveKeywords {
    /// The selectors of `ACCEPT_KEYWORDS`.
    pub closed spec fn accept(&self) -> Seq<SelectorView> {
        self.accept_keywords@.map_values(|s: KeywordSelector| s@)
    }

    /// The rules.
    pub closed spec fn rules(&self) -> Seq<RuleModel> {
        self.rules@.map_values(|r: (Precedence, Atom, KeywordAction)| (r.0, r.1@, r.2@))
    }

    /// Builds the configuration from `ACCEPT_KEYWORDS` and the rules of
    /// `package.accept_keywords`; of the rules that decide for a keyword, the one of highest
    /// precedence wins, the last among equals.
    pub fn new(accept_keywords: Vec<KeywordSelector>, package_accept_keywords: PackageAcceptKeywords) -> (r: Self)
        ensures
            r.accept() == accept_keywords@.map_values(|s: KeywordSelector| s@),
            r.rules() == compiled_rules(flat_rules(package_accept_keywords@), r.accept()),
    {
        let ghost accept = accept_keywords@.map_values(|s: KeywordSelector| s@);
        let ghost flat = flat_rules(package_accept_keywords@);
        let source = package_accept_keywords.into_rules();
        let mut rules: Vec<(Precedence, Atom, KeywordAction)> = Vec::new();
        let mut i: usize = 0;
        while i < source.len()
            invariant
                0 <= i <= source@.len(),
                flat == source@.map_values(|p: (Atom, KeywordRule)| (p.0@, p.1@)),
                accept == accept_keywords@.map_values(|s: KeywordSelector| s@),
                rules@.map_values(|r: (Precedence, Atom, KeywordAction)| (r.0, r.1@, r.2@)) == compiled_rules(
                    flat.subrange(0, i as int),
                    accept,
                ),
            decreases source.len() - i,
        {
            let ghost sub = flat.subrange(0, i + 1);
            assert(sub.drop_last() =~= flat.subrange(0, i as int));
            let ghost rv = source@[i as int].1@;
            let ghost av = source@[i as int].0@;
            assert(sub.last() == (av, rv));
            let ghost start = rules@.map_values(|r: (Precedence, Atom, KeywordAction)| (r.0, r.1@, r.2@));
            let prec = source[i].1.precedence();
            let ghost acts = rule_actions(rv, accept);
            match &source[i].1 {
                KeywordRule::Selector(e) => {
                    let sel = e.inner().copy();
                    let action = if e.operation().as_bool() {
                        KeywordAction::Accept(sel)
                    } else {
                        KeywordAction::Reject(sel)
                    };
                    let ghost act = action@;
                    rules.push((prec, source[i].0.copy(), action));
                    assert(acts =~= seq![act]);
                },
                KeywordRule::Reset(_) => {
                    rules.push((prec, source[i].0.copy(), KeywordAction::Reset));
                    assert(acts =~= seq![ActionView::Reset]);
                },
                KeywordRule::AtomOnly(_) => {
                    let mut j: usize = 0;
                    while j < accept_keywords.len()
                        invariant
                            0 <= j <= accept_keywords@.len(),
                            i < source@.len(),
                            av == source@[i as int].0@,
                            prec == crate::files::pkgfile::keywords::rule_precedence(rv),
                            accept == accept_keywords@.map_values(|s: KeywordSelector| s@),
                            rules@.map_values(|r: (Precedence, Atom, KeywordAction)| (r.0, r.1@, r.2@)) =~= start
                                + arch_testing(accept.subrange(0, j as int)).map_values(|a: ActionView| (prec, av, a)),
                        decreases accept_keywords.len() - j,
                    {
                        let ghost asub = accept.subrange(0, j + 1);
                        assert(asub.drop_last() =~= accept.subrange(0, j as int));
                        assert(asub.last() == accept_keywords@[j as int]@);
                        let ghost before = rules@.map_values(|r: (Precedence, Atom, KeywordAction)| (r.0, r.1@, r.2@));
                        match &accept_keywords[j] {
                            KeywordSelector::Stable(a) | KeywordSelector::Testing(a) => {
                                let action = KeywordAction::Accept(KeywordSelector::Testing(a.copy()));
                                let ghost act = action@;
                                rules.push((prec, source[i].0.copy(), action));
                                assert(rules@.map_values(|r: (Precedence, Atom, KeywordAction)| (r.0, r.1@, r.2@)) =~= before.push(
                                    (prec, av, act),
                                ));
                                assert(arch_testing(asub) =~= arch_testing(accept.subrange(0, j as int)).push(act));
                            },
                            _ => {
                                assert(arch_testing(asub) =~= arch_testing(accept.subrange(0, j as int)));
                            },
                        }
                        j += 1;
                    }
                    assert(accept.subrange(0, j as int) =~= accept);
                },
            }
            proof {
                assert(compiled_rules(sub, accept) =~= compiled_rules(flat.subrange(0, i as int), accept) + acts.map_values(
                    |a: ActionView| (crate::files::pkgfile::keywords::rule_precedence(rv), av, a),
                ));
                assert(rules@.map_values(|r: (Precedence, Atom, KeywordAction)| (r.0, r.1@, r.2@)) =~= start
                    + acts.map_values(|a: ActionView| (prec, av, a)));
            }
            i += 1;
        }
        assert(flat.subrange(0, i as int) =~= flat);
        EffectiveKeywords { accept_keywords, rules }
    }

    /// Returns `true` if `keyword` (or its absence) is accepted for `pkg`.
    fn evaluate_keyword<P: PackageView>(&self, pkg: &P, keyword: Option<&Keyword>) -> (r: bool)
        ensures
            r == keyword_accepted(
                self.accept(),
                self.rules(),
                pkg.cpv_model(),
                pkg.repo_model(),
                pkg.metadata_model().slot,
                match keyword {
                    Some(k) => Some(k@),
                    None => None,
                },
            ),
    {
        let ghost k = match keyword {
            Some(k) => Some(k@),
            None => None,
        };
        let mut global = false;
        let mut i: usize = 0;
        while i < self.accept_keywords.len()
            invariant
                0 <= i <= self.accept_keywords@.len(),
                k == match keyword {
                    Some(k) => Some(k@),
                    None => None::<KeywordView>,
                },
                global == exists|j: int| 0 <= j < i && selector_matches(self.accept()[j], k),
            decreases self.accept_keywords.len() - i,
        {
            if self.accept_keywords[i].matches(keyword) {
                assert(selector_matches(self.accept()[i as int], k));
                global = true;
            }
            i += 1;
        }
        let ghost rs = self.rules();
        let mut best: Option<(usize, bool)> = None;
        let mut j: usize = 0;
        while j < self.rules.len()
            invariant
                0 <= j <= self.rules@.len(),
                rs == self.rules(),
                k == match keyword {
                    Some(k) => Some(k@),
                    None => None::<KeywordView>,
                },
                match deciding_rule(
                    rs.subrange(0, j as int),
                    pkg.cpv_model(),
                    pkg.repo_model(),
                    pkg.metadata_model().slot,
                    k,
                ) {
                    Some((p, v)) => best matches Some((bp, bv)) && bp == p && bv == v,
                    None => best is None,
                },
            decreases self.rules.len() - j,
        {
            let ghost sub = rs.subrange(0, j + 1);
            assert(sub.drop_last() =~= rs.subrange(0, j as int));
            assert(sub.last() == (self.rules@[j as int].0, self.rules@[j as int].1@, self.rules@[j as int].2@));
            let rule = &self.rules[j];
            if pkg.matches_atom(&rule.1) {
                match rule.2.effect(keyword) {
                    Some(v) => {
                        let p = rule.0.ordinal();
                        best = match best {
                            None => Some((p, v)),
                            Some((bp, bv)) => if p >= bp {
                                Some((p, v))
                            } else {
                                Some((bp, bv))
                            },
                        };
                    },
                    None => {},
                }
            }
            j += 1;
        }
        assert(rs.subrange(0, j as int) =~= rs);
        match best {
            Some((_, v)) => v,
            None => global,
        }
    }

    /// Returns `true` if `keywords` are accepted for `pkg`.
    fn keywords_accepted<P: PackageView>(&self, pkg: &P, keywords: &Vec<Keyword>) -> (r: bool)
        ensures
            r == keywords_accepted(
                self.accept(),
                self.rules(),
                pkg.cpv_model(),
                pkg.repo_model(),
                pkg.metadata_model().slot,
                keywords@.map_values(|k: Keyword| k@),
            ),
    {
        let ghost ks = keywords@.map_values(|k: Keyword| k@);
        if keywords.len() == 0 {
            return self.evaluate_keyword(pkg, None);
        }
        let mut i: usize = 0;
        while i < keywords.len()
            invariant
                0 <= i <= keywords@.len(),
                ks == keywords@.map_values(|k: Keyword| k@),
                forall|j: int|
                    0 <= j < i ==> !keyword_accepted(
                        self.accept(),
                        self.rules(),
                        pkg.cpv_model(),
                        pkg.repo_model(),
                        pkg.metadata_model().slot,
                        Some(#[trigger] ks[j]),
                    ),
            decreases keywords.len() - i,
        {
            if self.evaluate_keyword(pkg, Some(&keywords[i])) {
                assert(keyword_accepted(
                    self.accept(),
                    self.rules(),
                    pkg.cpv_model(),
                    pkg.repo_model(),
                    pkg.metadata_model().slot,
                    Some(ks[i as int]),
                ));
                return true;
            }
            i += 1;
        }
        false
    }

    /// Evaluates `pkg`: whether its keywords are accepted and, where they are, whether a
    /// stable keyword is in use (PMS 5.2.11): the package would not be accepted with each
    /// of its stable keywords replaced by the testing one.
    pub fn evaluate<P: PackageView>(&self, pkg: &P) -> (r: KeywordEvalResult)
        ensures
            ({
                let ks = pkg.metadata_model().keywords;
                let acc = keywords_accepted(
                    self.accept(),
                    self.rules(),
                    pkg.cpv_model(),
                    pkg.repo_model(),
                    pkg.metadata_model().slot,
                    ks,
                );
                &&& r.accepted == acc
                &&& r.stable_in_use == (acc && !keywords_accepted(
                    self.accept(),
                    self.rules(),
                    pkg.cpv_model(),
                    pkg.repo_model(),
                    pkg.metadata_model().slot,
                    testing_only(ks),
                ))
            }),
    {
        let keywords = pkg.metadata().keywords();
        if !self.keywords_accepted(pkg, keywords) {
            return KeywordEvalResult::new(false, false);
        }
        let mut testing: Vec<Keyword> = Vec::new();
        let mut i: usize = 0;
        while i < keywords.len()
            invariant
                0 <= i <= keywords@.len(),
                testing@.map_values(|k: Keyword| k@) =~= testing_only(keywords@.map_values(|k: Keyword| k@)).subrange(
                    0,
                    i as int,
                ),
            decreases keywords.len() - i,
        {
            let k = match &keywords[i] {
                Keyword::Stable(a) => Keyword::Testing(a.copy()),
                other => other.copy(),
            };
            let ghost kv = keywords@[i as int]@;
            assert(k@ == (if kv.0 == 0 {
                (1u8, kv.1)
            } else {
                kv
            }));
            let ghost before = testing@.map_values(|k: Keyword| k@);
            testing.push(k);
            assert(testing@.map_values(|k: Keyword| k@) =~= before.push(k@));
            assert(testing_only(keywords@.map_values(|k: Keyword| k@)).subrange(0, i + 1) =~= testing_only(
                keywords@.map_values(|k: Keyword| k@),
            ).subrange(0, i as int).push(k@));
            i += 1;
        }
        assert(testing_only(keywords@.map_values(|k: Keyword| k@)).subrange(0, i as int) =~= testing_only(
            keywords@.map_values(|k: Keyword| k@),
        ));
        KeywordEvalResult::new(true, !self.keywords_accepted(pkg, &testing))
    }
}

} // verus!
