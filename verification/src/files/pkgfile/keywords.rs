//! `package.accept_keywords`: for each atom, the keywords accepted beyond `ACCEPT_KEYWORDS`.
use crate::deps::atom::{Atom, AtomView};
use crate::error::Error;
use crate::files::entry::{Entry, Operation, Precedence, entry_parts};
use crate::files::pkgfile::{AtomPolicies, AtomPolicy, inherit_policies, policy_keys, read_policies};
use crate::keyword::{KeywordSelector, SelectorView, is_selector_text, selector_parts};
use crate::text::{content_lines, decimal, split_by, split_text, str_eq, strip_comment, texts};
use vstd::prelude::*;

verus! {

/// Model of a keyword rule.
pub enum RuleView {
    /// A selector with its precedence and operation.
    Selector(Precedence, Operation, SelectorView),
    /// An atom without keywords.
    AtomOnly(Precedence),
    /// `-*`: the rules before it are dropped.
    Reset(Precedence),
}

/// The precedence of a rule.
pub open spec fn rule_precedence(r: RuleView) -> Precedence {
    match r {
        RuleView::Selector(p, _, _) => p,
        RuleView::AtomOnly(p) => p,
        RuleView::Reset(p) => p,
    }
}

/// The rules that the words give, where every word is valid.
pub open spec fn rules_of(words: Seq<Seq<char>>, prec: Precedence) -> Option<Seq<RuleView>>
    decreases words.len(),
{
    if words.len() == 0 {
        Some(Seq::empty())
    } else {
        match rules_of(words.drop_last(), prec) {
            None => None,
            Some(rs) => {
                let w = words.last();
                if w == seq!['-', '*'] {
                    Some(seq![RuleView::Reset(prec)])
                } else {
                    let (op, body) = entry_parts(w);
                    if is_selector_text(body) {
                        Some(rs.push(RuleView::Selector(prec, op, selector_parts(body))))
                    } else {
                        None
                    }
                }
            },
        }
    }
}

/// Some rule is a reset.
pub open spec fn contains_reset(rs: Seq<RuleView>) -> bool {
    exists|i: int| 0 <= i < rs.len() && rs[i] is Reset
}

/// A keyword selector or a reset, e.g. `amd64`, `~arm64` or `-*`.
#[derive(Debug)]
pub enum KeywordRule {
    Selector(Entry<KeywordSelector>),
    /// An atom without keywords accepts the testing keywords of the architectures that
    /// `ACCEPT_KEYWORDS` accepts.
    AtomOnly(Precedence),
    Reset(Precedence),
}

impl View for KeywordRule {
    type V = RuleView;

    open spec fn view(&self) -> RuleView {
        match self {
            KeywordRule::Selector(e) => RuleView::Selector(e@.0, e@.1, e@.2),
            KeywordRule::AtomOnly(p) => RuleView::AtomOnly(*p),
            KeywordRule::Reset(p) => RuleView::Reset(*p),
        }
    }
}

impl KeywordRule {
    /// Returns the precedence of the file the rule came from.
    pub fn precedence(&self) -> (r: Precedence)
        ensures
            r == rule_precedence(self@),
    {
        match self {
            KeywordRule::Selector(e) => e.precedence(),
            KeywordRule::AtomOnly(p) => *p,
            KeywordRule::Reset(p) => *p,
        }
    }

    /// Returns a copy of this rule.
    pub fn copy(&self) -> (r: Self)
        ensures
            r@ == self@,
    {
        match self {
            KeywordRule::Selector(e) => KeywordRule::Selector(e.copy()),
            KeywordRule::AtomOnly(p) => KeywordRule::AtomOnly(*p),
            KeywordRule::Reset(p) => KeywordRule::Reset(*p),
        }
    }

    /// Returns `true` if this rule is a reset.
    pub fn is_reset(&self) -> (r: bool)
        ensures
            r == (self@ is Reset),
    {
        match self {
            KeywordRule::Reset(_) => true,
            _ => false,
        }
    }
}

/// The keyword rules of one atom.
#[derive(Debug)]
pub struct KeywordSpec {
    rules: Vec<KeywordRule>,
}

impl View for KeywordSpec {
    type V = Seq<RuleView>;

    closed spec fn view(&self) -> Seq<RuleView> {
        self.rules@.map_values(|r: KeywordRule| r@)
    }
}

impl KeywordSpec {
    /// Returns `true` if some rule is a reset.
    fn contains_reset(&self) -> (r: bool)
        ensures
            r == contains_reset(self@),
    {
        let mut i: usize = 0;
        while i < self.rules.len()
            invariant
                0 <= i <= self.rules@.len(),
                forall|j: int| 0 <= j < i ==> !(self@[j] is Reset),
            decreases self.rules.len() - i,
        {
            if self.rules[i].is_reset() {
                assert(self@[i as int] is Reset);
                return true;
            }
            i += 1;
        }
        false
    }

    /// Returns the rules.
    pub fn rules(&self) -> (r: &Vec<KeywordRule>)
        ensures
            r@.map_values(|x: KeywordRule| x@) == self@,
    {
        &self.rules
    }
}

/// Appends copies of `from` to `to`.
fn extend_rules(to: &mut Vec<KeywordRule>, from: &Vec<KeywordRule>)
    ensures
        final(to)@.map_values(|x: KeywordRule| x@) == old(to)@.map_values(|x: KeywordRule| x@) + from@.map_values(
            |x: KeywordRule| x@,
        ),
{
    let ghost start = to@.map_values(|x: KeywordRule| x@);
    let mut i: usize = 0;
    while i < from.len()
        invariant
            0 <= i <= from@.len(),
            to@.map_values(|x: KeywordRule| x@) =~= start + from@.map_values(|x: KeywordRule| x@).subrange(0, i as int),
        decreases from.len() - i,
    {
        let ghost before = to@.map_values(|x: KeywordRule| x@);
        to.push(from[i].copy());
        assert(to@.map_values(|x: KeywordRule| x@) =~= before.push(from@[i as int]@));
        assert(from@.map_values(|x: KeywordRule| x@).subrange(0, i + 1) =~= from@.map_values(|x: KeywordRule| x@).subrange(
            0,
            i as int,
        ).push(from@[i as int]@));
        i += 1;
    }
    assert(from@.map_values(|x: KeywordRule| x@).subrange(0, i as int) =~= from@.map_values(|x: KeywordRule| x@));
}

impl AtomPolicy for KeywordSpec {
    open spec fn parsed(value: Seq<char>, prec: Precedence) -> Option<Seq<RuleView>> {
        match rules_of(split_by(value, false), prec) {
            None => None,
            Some(rs) => if rs.len() == 0 {
                Some(seq![RuleView::AtomOnly(prec)])
            } else {
                Some(rs)
            },
        }
    }

    open spec fn empty_policy() -> Seq<RuleView> {
        Seq::empty()
    }

    open spec fn updated(a: Seq<RuleView>, b: Seq<RuleView>) -> Seq<RuleView> {
        if contains_reset(b) {
            b
        } else {
            a + b
        }
    }

    open spec fn inherited(child: Seq<RuleView>, parent: Seq<RuleView>) -> Seq<RuleView> {
        if contains_reset(child) {
            child
        } else {
            parent + child
        }
    }

    fn parse(value: &str, prec: Precedence) -> (r: Result<Self, Error>) {
        let words = split_text(value, false);
        let ghost ws = texts(words@);
        let mut rules: Vec<KeywordRule> = Vec::new();
        let mut i: usize = 0;
        while i < words.len()
            invariant
                0 <= i <= words@.len(),
                ws == texts(words@),
                ws == split_by(value@, false),
                rules_of(ws.subrange(0, i as int), prec) == Some(rules@.map_values(|x: KeywordRule| x@)),
            decreases words.len() - i,
        {
            let ghost sub = ws.subrange(0, i + 1);
            assert(sub.drop_last() =~= ws.subrange(0, i as int));
            assert(sub.last() == words@[i as int]@);
            let w = words[i].as_str();
            if str_eq(w, "-*") {
                proof {
                    reveal_strlit("-*");
                }
                assert(w@ =~= seq!['-', '*']);
                rules = Vec::new();
                rules.push(KeywordRule::Reset(prec));
                assert(rules@.map_values(|x: KeywordRule| x@) =~= seq![RuleView::Reset(prec)]);
                assert(rules_of(sub, prec) == Some(seq![RuleView::Reset(prec)]));
            } else {
                proof {
                    reveal_strlit("-*");
                    assert("-*"@ =~= seq!['-', '*']);
                }
                assert(w@ != seq!['-', '*']);
                match Entry::<KeywordSelector>::from_str(w, prec) {
                    Ok(e) => {
                        assert(e@.2 == selector_parts(entry_parts(w@).1));
                        let ghost before = rules@.map_values(|x: KeywordRule| x@);
                        rules.push(KeywordRule::Selector(e));
                        assert(rules@.map_values(|x: KeywordRule| x@) =~= before.push(
                            RuleView::Selector(e@.0, e@.1, e@.2),
                        ));
                    },
                    Err(err) => {
                        assert(!is_selector_text(entry_parts(w@).1));
                        assert(rules_of(sub, prec) is None);
                        proof {
                            lemma_rules_none(ws, i as int + 1, prec);
                        }
                        return Err(Error::with_subject("invalid keyword", w));
                    },
                }
            }
            i += 1;
        }
        assert(ws.subrange(0, i as int) =~= ws);
        if rules.len() == 0 {
            rules.push(KeywordRule::AtomOnly(prec));
            assert(rules@.map_values(|x: KeywordRule| x@) =~= seq![RuleView::AtomOnly(prec)]);
        }
        Ok(KeywordSpec { rules })
    }

    fn empty() -> (r: Self) {
        let r = KeywordSpec { rules: Vec::new() };
        assert(r@ =~= Seq::<RuleView>::empty());
        r
    }

    fn update_from(&mut self, other: Self) {
        if other.contains_reset() {
            self.rules = other.rules;
        } else {
            extend_rules(&mut self.rules, &other.rules);
        }
    }

    fn inherit_from(&mut self, parent: &Self) {
        if self.contains_reset() {
            return;
        }
        let mut rules: Vec<KeywordRule> = Vec::new();
        extend_rules(&mut rules, &parent.rules);
        extend_rules(&mut rules, &self.rules);
        assert(Seq::<RuleView>::empty() + parent@ =~= parent@);
        self.rules = rules;
    }

    fn copy_policy(&self) -> (r: Self) {
        let mut rules: Vec<KeywordRule> = Vec::new();
        extend_rules(&mut rules, &self.rules);
        assert(Seq::<RuleView>::empty() + self@ =~= self@);
        KeywordSpec { rules }
    }
}

/// An invalid word makes the rules of every longer list invalid.
proof fn lemma_rules_none(ws: Seq<Seq<char>>, n: int, prec: Precedence)
    requires
        0 < n <= ws.len(),
        rules_of(ws.subrange(0, n), prec) is None,
    ensures
        rules_of(ws, prec) is None,
    decreases ws.len(),
{
    if ws.len() > n {
        assert(ws.drop_last().subrange(0, n) =~= ws.subrange(0, n));
        lemma_rules_none(ws.drop_last(), n, prec);
    } else {
        assert(ws.subrange(0, n) =~= ws);
    }
}

/// The rules of policies, atom by atom.
pub open spec fn flat_rules(ps: Seq<(AtomView, Seq<RuleView>)>) -> Seq<(AtomView, RuleView)>
    decreases ps.len(),
{
    if ps.len() == 0 {
        Seq::empty()
    } else {
        let last = ps.last();
        flat_rules(ps.drop_last()) + last.1.map_values(|r: RuleView| (last.0, r))
    }
}

/// The content of `package.accept_keywords` files.
#[derive(Debug)]
pub struct PackageAcceptKeywords {
    policies: AtomPolicies<KeywordSpec>,
}

impl View for PackageAcceptKeywords {
    type V = Seq<(AtomView, Seq<RuleView>)>;

    closed spec fn view(&self) -> Seq<(AtomView, Seq<RuleView>)> {
        self.policies@
    }
}

impl PackageAcceptKeywords {
    /// No rules.
    pub fn new() -> (r: Self)
        ensures
            r@ == Seq::<(AtomView, Seq<RuleView>)>::empty(),
    {
        PackageAcceptKeywords { policies: AtomPolicies::new() }
    }

    /// Reads a `package.accept_keywords` file with precedence `order`.
    pub fn from_content(content: &str, order: Precedence) -> (r: Result<Self, Error>)
        ensures
            read_policies::<KeywordSpec>(
                content@,
                order,
                match r {
                    Ok(x) => Ok(x@),
                    Err(e) => Err(e.text()),
                },
            ),
    {
        match AtomPolicies::from_string(content, order) {
            Ok(policies) => Ok(PackageAcceptKeywords { policies }),
            Err(e) => Err(e),
        }
    }

    /// Reads a `package.accept_keywords` file with precedence `order`.
    pub fn from_string(content: &str, order: Precedence) -> (r: Result<Self, Error>)
        ensures
            read_policies::<KeywordSpec>(
                content@,
                order,
                match r {
                    Ok(x) => Ok(x@),
                    Err(e) => Err(e.text()),
                },
            ),
    {
        Self::from_content(content, order)
    }

    /// Inherits the rules of `parent`.
    pub fn inherit_from(&mut self, parent: &Self)
        ensures
            final(self)@ == inherit_policies::<KeywordSpec>(old(self)@, parent@),
    {
        self.policies.inherit_from(&parent.policies);
    }

    /// Returns these rules after inheriting those of `parent`.
    pub fn inherit(self, parent: &Self) -> (r: Self)
        ensures
            r@ == inherit_policies::<KeywordSpec>(self@, parent@),
    {
        let mut s = self;
        s.inherit_from(parent);
        s
    }

    /// Returns the rules of each atom, atom by atom.
    pub fn into_rules(self) -> (r: Vec<(Atom, KeywordRule)>)
        ensures
            r@.map_values(|p: (Atom, KeywordRule)| (p.0@, p.1@)) == flat_rules(self@),
    {
        let ghost ps = self@;
        let entries = self.policies.into_iter();
        let mut out: Vec<(Atom, KeywordRule)> = Vec::new();
        let mut i: usize = 0;
        while i < entries.len()
            invariant
                0 <= i <= entries@.len(),
                ps == entries@.map_values(|p: (Atom, KeywordSpec)| (p.0@, p.1@)),
                out@.map_values(|p: (Atom, KeywordRule)| (p.0@, p.1@)) == flat_rules(ps.subrange(0, i as int)),
            decreases entries.len() - i,
        {
            let ghost sub = ps.subrange(0, i + 1);
            assert(sub.drop_last() =~= ps.subrange(0, i as int));
            let ghost start = out@.map_values(|p: (Atom, KeywordRule)| (p.0@, p.1@));
            let rules = entries[i].1.rules();
            let ghost rv = entries@[i as int].1@;
            let ghost av = entries@[i as int].0@;
            assert(sub.last() == (av, rv));
            let mut j: usize = 0;
            while j < rules.len()
                invariant
                    0 <= j <= rules@.len(),
                    rules@.map_values(|x: KeywordRule| x@) == rv,
                    av == entries@[i as int].0@,
                    i < entries@.len(),
                    out@.map_values(|p: (Atom, KeywordRule)| (p.0@, p.1@)) =~= start + rv.subrange(0, j as int).map_values(
                        |r: RuleView| (av, r),
                    ),
                decreases rules.len() - j,
            {
                let ghost before = out@.map_values(|p: (Atom, KeywordRule)| (p.0@, p.1@));
                out.push((entries[i].0.copy(), rules[j].copy()));
                assert(out@.map_values(|p: (Atom, KeywordRule)| (p.0@, p.1@)) =~= before.push((av, rv[j as int])));
                assert(rv.subrange(0, j + 1).map_values(|r: RuleView| (av, r)) =~= rv.subrange(0, j as int).map_values(
                    |r: RuleView| (av, r),
                ).push((av, rv[j as int])));
                j += 1;
            }
            assert(rv.subrange(0, j as int) =~= rv);
            i += 1;
        }
        assert(ps.subrange(0, i as int) =~= ps);
        out
    }
}

} // verus!
