//! `package.use` and its relatives: for each atom, USE flags to set or unset, directly or
//! through USE expansion groups (`LLVM_TARGETS: AMDGPU`), and resets (`-*`).
use crate::deps::atom::{Atom, AtomView};
use crate::deps::useflag::UseFlag;
use crate::error::{Error, subject_message};
use crate::files::entry::{Entry, Operation, Precedence, entry_parts};
use crate::files::linefile::EntryModel;
use crate::files::pkgfile::{AtomPolicies, AtomPolicy, inherit_policies, policy_keys, read_policies};
use crate::text::{
    chars_of, content_lines, decimal, is_alnum, is_alnum_char, is_alpha, is_alpha_char, split_by,
    split_text, str_eq, string_from, strip_comment, texts,
};
use crate::useflag::{UseExpandConfig, group_flag};
use vstd::prelude::*;

verus! {

/// Model of the target of a `package.use` value: a flag, or a value of a USE expansion group.
pub enum TargetView {
    Flag(Seq<char>),
    Expand(Seq<char>, Seq<char>),
}

/// Model of a reset: of all targets, or of the targets of one group.
pub enum ResetView {
    All,
    Group(Seq<char>),
}

/// A reset drops a target: every target for `-*`, the group's values for `GROUP: -*`.
pub open spec fn reset_matches(r: ResetView, t: TargetView) -> bool {
    match r {
        ResetView::All => true,
        ResetView::Group(g) => match t {
            TargetView::Expand(tg, _) => tg == g,
            TargetView::Flag(_) => false,
        },
    }
}

/// Model of the values of one atom: its targets with their entries, and the resets it
/// applies to what it inherits.
pub type UseSpecView = (Seq<(TargetView, EntryModel<Seq<char>>)>, Seq<ResetView>);

/// The position of `t` among the targets.
pub open spec fn target_index(ts: Seq<(TargetView, EntryModel<Seq<char>>)>, t: TargetView) -> Option<int>
    decreases ts.len(),
{
    if ts.len() == 0 {
        None
    } else {
        match target_index(ts.drop_last(), t) {
            Some(i) => Some(i),
            None => if ts.last().0 == t {
                Some(ts.len() - 1)
            } else {
                None
            },
        }
    }
}

/// The targets after setting the entry of `t` to `e`.
pub open spec fn insert_target(ts: Seq<(TargetView, EntryModel<Seq<char>>)>, t: TargetView, e: EntryModel<Seq<char>>) -> Seq<
    (TargetView, EntryModel<Seq<char>>),
> {
    match target_index(ts, t) {
        Some(i) => ts.update(i, (t, e)),
        None => ts.push((t, e)),
    }
}

/// The targets that `r` does not drop.
pub open spec fn retain_targets(ts: Seq<(TargetView, EntryModel<Seq<char>>)>, r: ResetView) -> Seq<
    (TargetView, EntryModel<Seq<char>>),
>
    decreases ts.len(),
{
    if ts.len() == 0 {
        ts
    } else {
        let rest = retain_targets(ts.drop_last(), r);
        if reset_matches(r, ts.last().0) {
            rest
        } else {
            rest.push(ts.last())
        }
    }
}

/// The values after the reset `r`: the targets it drops are gone and it is recorded.
pub open spec fn apply_reset(s: UseSpecView, r: ResetView) -> UseSpecView {
    (retain_targets(s.0, r), if s.1.contains(r) {
        s.1
    } else {
        s.1.push(r)
    })
}

/// The values after the resets `rs`, in order.
pub open spec fn apply_resets(s: UseSpecView, rs: Seq<ResetView>) -> UseSpecView
    decreases rs.len(),
{
    if rs.len() == 0 {
        s
    } else {
        apply_reset(apply_resets(s, rs.drop_last()), rs.last())
    }
}

/// The targets after setting each of `new`, in order.
pub open spec fn insert_targets(
    ts: Seq<(TargetView, EntryModel<Seq<char>>)>,
    new: Seq<(TargetView, EntryModel<Seq<char>>)>,
) -> Seq<(TargetView, EntryModel<Seq<char>>)>
    decreases new.len(),
{
    if new.len() == 0 {
        ts
    } else {
        let rest = insert_targets(ts, new.drop_last());
        insert_target(rest, new.last().0, new.last().1)
    }
}

/// A name of a USE expansion group: an ASCII letter, then ASCII letters, digits and `_`.
pub open spec fn is_expand_name(s: Seq<char>) -> bool {
    &&& s.len() > 0
    &&& is_alpha(s[0])
    &&& forall|i: int| 1 <= i < s.len() ==> is_alnum(#[trigger] s[i]) || s[i] == '_'
}

/// The group that a word `GROUP:` opens, if it is one.
pub open spec fn group_opener(w: Seq<char>) -> Option<Seq<char>> {
    if w.len() > 0 && w.last() == ':' && is_expand_name(w.drop_last()) {
        Some(w.drop_last())
    } else {
        None
    }
}

/// What the words give, from the values `s` in the group `cur`; `None` at an invalid word.
pub open spec fn use_words(words: Seq<Seq<char>>, prec: Precedence) -> Option<(UseSpecView, Option<Seq<char>>)>
    decreases words.len(),
{
    if words.len() == 0 {
        Some(((Seq::empty(), Seq::empty()), None))
    } else {
        match use_words(words.drop_last(), prec) {
            None => None,
            Some((s, cur)) => {
                let w = words.last();
                match group_opener(w) {
                    Some(g) => Some((s, Some(g))),
                    None => if w == seq!['-', '*'] {
                        Some(
                            (
                                apply_reset(
                                    s,
                                    match cur {
                                        Some(g) => ResetView::Group(g),
                                        None => ResetView::All,
                                    },
                                ),
                                cur,
                            ),
                        )
                    } else {
                        let (op, body) = entry_parts(w);
                        if body.len() == 0 {
                            None
                        } else {
                            let t = match cur {
                                Some(g) => TargetView::Expand(g, body),
                                None => TargetView::Flag(body),
                            };
                            Some(((insert_target(s.0, t, (prec, op, body)), s.1), cur))
                        }
                    },
                }
            },
        }
    }
}

/// The targets of the parent that the child inherits: those its resets do not drop and
/// that it does not set itself.
pub open spec fn inherit_targets(
    child: Seq<(TargetView, EntryModel<Seq<char>>)>,
    resets: Seq<ResetView>,
    parent: Seq<(TargetView, EntryModel<Seq<char>>)>,
) -> Seq<(TargetView, EntryModel<Seq<char>>)>
    decreases parent.len(),
{
    if parent.len() == 0 {
        child
    } else {
        let rest = inherit_targets(child, resets, parent.drop_last());
        let p = parent.last();
        if exists|i: int| 0 <= i < resets.len() && reset_matches(resets[i], p.0) {
            rest
        } else if target_index(rest, p.0) is Some {
            rest
        } else {
            rest.push(p)
        }
    }
}

/// A target of `package.use`.
#[derive(Debug)]
pub enum PackageUseTarget {
    Flag(UseFlag),
    Expand { group: String, value: UseFlag },
}

impl View for PackageUseTarget {
    type V = TargetView;

    open spec fn view(&self) -> TargetView {
        match self {
            PackageUseTarget::Flag(f) => TargetView::Flag(f@),
            PackageUseTarget::Expand { group, value } => TargetView::Expand(group@, value@),
        }
    }
}

impl PackageUseTarget {
    /// Returns a copy of this target.
    pub fn copy(&self) -> (r: Self)
        ensures
            r@ == self@,
    {
        match self {
            PackageUseTarget::Flag(f) => PackageUseTarget::Flag(f.copy()),
            PackageUseTarget::Expand { group, value } => PackageUseTarget::Expand {
                group: group.clone(),
                value: value.copy(),
            },
        }
    }

    /// Returns `true` if this is the target `other`.
    pub fn same(&self, other: &Self) -> (r: bool)
        ensures
            r == (self@ == other@),
    {
        match (self, other) {
            (PackageUseTarget::Flag(a), PackageUseTarget::Flag(b)) => str_eq(a.as_str(), b.as_str()),
            (
                PackageUseTarget::Expand { group: g1, value: v1 },
                PackageUseTarget::Expand { group: g2, value: v2 },
            ) => str_eq(g1.as_str(), g2.as_str()) && str_eq(v1.as_str(), v2.as_str()),
            _ => false,
        }
    }
}

/// A reset of `package.use`.
#[derive(Debug)]
pub enum UseReset {
    All,
    Group(String),
}

impl View for UseReset {
    type V = ResetView;

    open spec fn view(&self) -> ResetView {
        match self {
            UseReset::All => ResetView::All,
            UseReset::Group(g) => ResetView::Group(g@),
        }
    }
}

impl UseReset {
    /// Returns `true` if this reset drops `target`.
    pub fn matches(&self, target: &PackageUseTarget) -> (r: bool)
        ensures
            r == reset_matches(self@, target@),
    {
        match self {
            UseReset::All => true,
            UseReset::Group(g) => match target {
                PackageUseTarget::Expand { group, .. } => str_eq(g.as_str(), group.as_str()),
                PackageUseTarget::Flag(_) => false,
            },
        }
    }

    /// Returns a copy of this reset.
    pub fn copy(&self) -> (r: Self)
        ensures
            r@ == self@,
    {
        match self {
            UseReset::All => UseReset::All,
            UseReset::Group(g) => UseReset::Group(g.clone()),
        }
    }

    /// Returns `true` if this is the reset `other`.
    pub fn same(&self, other: &Self) -> (r: bool)
        ensures
            r == (self@ == other@),
    {
        match (self, other) {
            (UseReset::All, UseReset::All) => true,
            (UseReset::Group(a), UseReset::Group(b)) => str_eq(a.as_str(), b.as_str()),
            _ => false,
        }
    }
}

/// The USE values of one atom.
#[derive(Debug)]
pub struct UseSpec {
    targets: Vec<(PackageUseTarget, Entry<UseFlag>)>,
    resets: Vec<UseReset>,
}

impl View for UseSpec {
    type V = UseSpecView;

    closed spec fn view(&self) -> UseSpecView {
        (
            self.targets@.map_values(|p: (PackageUseTarget, Entry<UseFlag>)| (p.0@, p.1@)),
            self.resets@.map_values(|r: UseReset| r@),
        )
    }
}

/// Returns `true` if `w` opens a group: its name, and whether it does.
fn opener(w: &str) -> (r: Option<String>)
    ensures
        match group_opener(w@) {
            Some(g) => r matches Some(x) && x@ == g,
            None => r is None,
        },
{
    let v = chars_of(w);
    let n = v.len();
    if n < 2 || v[n - 1] != ':' {
        proof {
            if n == 1 {
                assert(w@.drop_last().len() == 0);
            }
        }
        return None;
    }
    if !is_alpha_char(v[0]) {
        assert(w@.drop_last()[0] == v@[0]);
        return None;
    }
    let mut i: usize = 1;
    while i < n - 1
        invariant
            1 <= i <= n - 1,
            n == v@.len(),
            v@ == w@,
            forall|j: int| 1 <= j < i ==> is_alnum(#[trigger] v@[j]) || v@[j] == '_',
        decreases n - 1 - i,
    {
        if !(is_alnum_char(v[i]) || v[i] == '_') {
            assert(w@.drop_last()[i as int] == v@[i as int]);
            return None;
        }
        i += 1;
    }
    let g = string_from(&v, 0, n - 1);
    assert(g@ =~= w@.drop_last());
    Some(g)
}

impl UseSpec {
    /// Returns the position of `t` among the targets.
    fn find_target(&self, t: &PackageUseTarget) -> (r: Option<usize>)
        ensures
            match target_index(self@.0, t@) {
                Some(i) => r matches Some(x) && x == i && 0 <= i < self@.0.len(),
                None => r is None,
            },
    {
        let ghost ts = self@.0;
        let mut i: usize = 0;
        while i < self.targets.len()
            invariant
                0 <= i <= self.targets@.len(),
                ts == self@.0,
                forall|j: int| 0 <= j < i ==> ts[j].0 != t@,
            decreases self.targets.len() - i,
        {
            if self.targets[i].0.same(t) {
                proof {
                    lemma_target_index_first(ts, t@, i as int);
                }
                return Some(i);
            }
            i += 1;
        }
        proof {
            lemma_target_index(ts, t@);
            match target_index(ts, t@) {
                Some(j) => {
                    assert(ts[j].0 == t@);
                },
                None => {},
            }
        }
        None
    }

    /// Sets the entry of `t`.
    fn insert(&mut self, t: PackageUseTarget, e: Entry<UseFlag>)
        ensures
            final(self)@ == (insert_target(old(self)@.0, t@, e@), old(self)@.1),
    {
        let ghost before = self@;
        match self.find_target(&t) {
            Some(i) => {
                let ghost tv = t@;
                let ghost ev = e@;
                self.targets.set(i, (t, e));
                assert(self@.0 =~= before.0.update(i as int, (tv, ev)));
                assert(self@.1 =~= before.1);
            },
            None => {
                let ghost tv = t@;
                let ghost ev = e@;
                self.targets.push((t, e));
                assert(self@.0 =~= before.0.push((tv, ev)));
                assert(self@.1 =~= before.1);
            },
        }
    }

    /// Applies the reset `r`.
    fn reset(&mut self, r: UseReset)
        ensures
            final(self)@ == apply_reset(old(self)@, r@),
    {
        let ghost before = self@;
        let mut old_targets: Vec<(PackageUseTarget, Entry<UseFlag>)> = Vec::new();
        std::mem::swap(&mut old_targets, &mut self.targets);
        let ghost ots = old_targets@.map_values(|p: (PackageUseTarget, Entry<UseFlag>)| (p.0@, p.1@));
        assert(ots == before.0);
        let mut kept: Vec<(PackageUseTarget, Entry<UseFlag>)> = Vec::new();
        let total = old_targets.len();
        let mut rest = old_targets;
        let mut rev: Vec<(PackageUseTarget, Entry<UseFlag>)> = Vec::new();
        let ghost n = rest@.len();
        while rest.len() > 0
            invariant
                rest@.len() + rev@.len() == n,
                n == ots.len(),
                forall|k: int| 0 <= k < rest@.len() ==> ((#[trigger] rest@[k]).0@, rest@[k].1@) == ots[k],
                forall|k: int| 0 <= k < rev@.len() ==> ((#[trigger] rev@[k]).0@, rev@[k].1@) == ots[n - 1 - k],
            decreases rest@.len(),
        {
            let p = rest.pop().unwrap();
            rev.push(p);
        }
        let mut m: usize = 0;
        while rev.len() > 0
            invariant
                rev@.len() + m == n,
                n == ots.len(),
                n == total,
                forall|k: int| 0 <= k < rev@.len() ==> ((#[trigger] rev@[k]).0@, rev@[k].1@) == ots[n - 1 - k],
                kept@.map_values(|p: (PackageUseTarget, Entry<UseFlag>)| (p.0@, p.1@)) == retain_targets(
                    ots.subrange(0, m as int),
                    r@,
                ),
            decreases rev@.len(),
        {
            let p = rev.pop().unwrap();
            let ghost pv = (p.0@, p.1@);
            assert(pv == ots[m as int]);
            let ghost sub = ots.subrange(0, m + 1);
            assert(sub.drop_last() =~= ots.subrange(0, m as int));
            if !r.matches(&p.0) {
                let ghost before_k = kept@.map_values(|p: (PackageUseTarget, Entry<UseFlag>)| (p.0@, p.1@));
                kept.push(p);
                assert(kept@.map_values(|p: (PackageUseTarget, Entry<UseFlag>)| (p.0@, p.1@)) =~= before_k.push(pv));
            }
            m += 1;
        }
        assert(ots.subrange(0, m as int) =~= ots);
        self.targets = kept;
        let mut found = false;
        let mut i: usize = 0;
        while i < self.resets.len()
            invariant
                0 <= i <= self.resets@.len(),
                self.resets@.map_values(|x: UseReset| x@) == before.1,
                !found ==> forall|j: int| 0 <= j < i ==> before.1[j] != r@,
                found ==> before.1.contains(r@),
            decreases self.resets.len() - i,
        {
            if self.resets[i].same(&r) {
                assert(before.1[i as int] == r@);
                found = true;
            }
            i += 1;
        }
        if !found {
            let ghost rv = r@;
            self.resets.push(r);
            assert(self.resets@.map_values(|x: UseReset| x@) =~= before.1.push(rv));
        }
    }

    /// Returns the entries of the targets.
    pub fn targets(&self) -> (r: &Vec<(PackageUseTarget, Entry<UseFlag>)>)
        ensures
            r@.map_values(|p: (PackageUseTarget, Entry<UseFlag>)| (p.0@, p.1@)) == self@.0,
    {
        &self.targets
    }

    /// Returns the resets.
    pub fn resets(&self) -> (r: &Vec<UseReset>)
        ensures
            r@.map_values(|x: UseReset| x@) == self@.1,
    {
        &self.resets
    }

    /// Returns the entry of `target`, if it is set.
    pub fn get(&self, target: &PackageUseTarget) -> (r: Option<&Entry<UseFlag>>)
        ensures
            match target_index(self@.0, target@) {
                Some(i) => r matches Some(e) && e@ == self@.0[i].1,
                None => r is None,
            },
    {
        match self.find_target(target) {
            Some(i) => {
                assert(self@.0[i as int].1 == self.targets@[i as int].1@);
                Some(&self.targets[i].1)
            },
            None => None,
        }
    }

    /// Returns `true` if `reset` is recorded.
    pub fn has_reset(&self, reset: &UseReset) -> (r: bool)
        ensures
            r == self@.1.contains(reset@),
    {
        let mut i: usize = 0;
        while i < self.resets.len()
            invariant
                0 <= i <= self.resets@.len(),
                forall|j: int| 0 <= j < i ==> self@.1[j] != reset@,
            decreases self.resets.len() - i,
        {
            if self.resets[i].same(reset) {
                assert(self@.1[i as int] == reset@);
                return true;
            }
            i += 1;
        }
        false
    }

    /// Returns `true` if a recorded reset drops `target`.
    fn resets_match(&self, target: &PackageUseTarget) -> (r: bool)
        ensures
            r == exists|i: int| 0 <= i < self@.1.len() && reset_matches(self@.1[i], target@),
    {
        let mut i: usize = 0;
        while i < self.resets.len()
            invariant
                0 <= i <= self.resets@.len(),
                forall|j: int| 0 <= j < i ==> !reset_matches(self@.1[j], target@),
            decreases self.resets.len() - i,
        {
            if self.resets[i].matches(target) {
                assert(reset_matches(self@.1[i as int], target@));
                return true;
            }
            i += 1;
        }
        false
    }

    /// Resolves the targets to flags: a value of a group becomes the flag it stands for.
    /// An unknown group, or two targets of the same flag, is an error.
    pub fn expand(&self, groups: &UseExpandConfig) -> (r: Result<UseFlags, Error>)
        ensures
            match expand_targets(self@.0, groups@) {
                Some(fs) => r matches Ok(x) && x@ == fs,
                None => r is Err,
            },
    {
        let ghost ts = self@.0;
        let mut flags = UseFlags::new();
        let mut i: usize = 0;
        while i < self.targets.len()
            invariant
                0 <= i <= self.targets@.len(),
                ts == self@.0,
                expand_targets(ts.subrange(0, i as int), groups@) == Some(flags@),
            decreases self.targets.len() - i,
        {
            let ghost sub = ts.subrange(0, i + 1);
            assert(sub.drop_last() =~= ts.subrange(0, i as int));
            assert(sub.last() == (self.targets@[i as int].0@, self.targets@[i as int].1@));
            let entry = self.targets[i].1.copy();
            let resolved = match &self.targets[i].0 {
                PackageUseTarget::Flag(_) => Ok(entry),
                PackageUseTarget::Expand { group, .. } => groups.expand_entry(group.as_str(), entry),
            };
            match resolved {
                Ok(e) => {
                    if flags.find(e.inner().as_str()).is_some() {
                        proof {
                            lemma_expand_none(ts, i as int + 1, groups@);
                        }
                        return Err(Error::with_subject(
                            "distinct package USE targets resolve to USE flag",
                            e.inner().as_str(),
                        ));
                    }
                    flags.push(e);
                },
                Err(err) => {
                    proof {
                        lemma_expand_none(ts, i as int + 1, groups@);
                    }
                    return Err(err);
                },
            }
            i += 1;
        }
        assert(ts.subrange(0, i as int) =~= ts);
        Ok(flags)
    }
}

/// The entry a target resolves to; `None` for an unknown group.
pub open spec fn resolve_target(t: TargetView, e: EntryModel<Seq<char>>, cfg: (Seq<Seq<char>>, Seq<Seq<char>>)) -> Option<
    EntryModel<Seq<char>>,
> {
    match t {
        TargetView::Flag(_) => Some(e),
        TargetView::Expand(g, _) => match group_flag(cfg, g, e.2) {
            Some(f) => Some((e.0, e.1, f)),
            None => None,
        },
    }
}

/// The position of the entry of `flag`.
pub open spec fn flag_index(fs: Seq<EntryModel<Seq<char>>>, flag: Seq<char>) -> Option<int>
    decreases fs.len(),
{
    if fs.len() == 0 {
        None
    } else {
        match flag_index(fs.drop_last(), flag) {
            Some(i) => Some(i),
            None => if fs.last().2 == flag {
                Some(fs.len() - 1)
            } else {
                None
            },
        }
    }
}

/// The entries of the flags the targets resolve to; `None` where a group is unknown or
/// two targets resolve to the same flag.
pub open spec fn expand_targets(
    ts: Seq<(TargetView, EntryModel<Seq<char>>)>,
    cfg: (Seq<Seq<char>>, Seq<Seq<char>>),
) -> Option<Seq<EntryModel<Seq<char>>>>
    decreases ts.len(),
{
    if ts.len() == 0 {
        Some(Seq::empty())
    } else {
        match expand_targets(ts.drop_last(), cfg) {
            None => None,
            Some(fs) => match resolve_target(ts.last().0, ts.last().1, cfg) {
                None => None,
                Some(e) => if flag_index(fs, e.2) is Some {
                    None
                } else {
                    Some(fs.push(e))
                },
            },
        }
    }
}

/// A failure on a prefix of the targets is a failure on all.
proof fn lemma_expand_none(
    ts: Seq<(TargetView, EntryModel<Seq<char>>)>,
    n: int,
    cfg: (Seq<Seq<char>>, Seq<Seq<char>>),
)
    requires
        0 < n <= ts.len(),
        expand_targets(ts.subrange(0, n), cfg) is None,
    ensures
        expand_targets(ts, cfg) is None,
    decreases ts.len(),
{
    if ts.len() > n {
        assert(ts.drop_last().subrange(0, n) =~= ts.subrange(0, n));
        lemma_expand_none(ts.drop_last(), n, cfg);
    } else {
        assert(ts.subrange(0, n) =~= ts);
    }
}

/// The search for a target finds its first position.
proof fn lemma_target_index(ts: Seq<(TargetView, EntryModel<Seq<char>>)>, t: TargetView)
    ensures
        match target_index(ts, t) {
            Some(i) => 0 <= i < ts.len() && ts[i].0 == t && forall|j: int| 0 <= j < i ==> ts[j].0 != t,
            None => forall|j: int| 0 <= j < ts.len() ==> ts[j].0 != t,
        },
    decreases ts.len(),
{
    if ts.len() > 0 {
        let d = ts.drop_last();
        lemma_target_index(d, t);
        assert forall|j: int| 0 <= j < d.len() implies d[j] == ts[j] by {}
    }
}

/// The first position of a target is what the search finds.
proof fn lemma_target_index_first(ts: Seq<(TargetView, EntryModel<Seq<char>>)>, t: TargetView, i: int)
    requires
        0 <= i < ts.len(),
        ts[i].0 == t,
        forall|j: int| 0 <= j < i ==> ts[j].0 != t,
    ensures
        target_index(ts, t) == Some(i),
{
    lemma_target_index(ts, t);
    match target_index(ts, t) {
        Some(k) => {
            if k < i {
            } else if k > i {
            }
        },
        None => {
            assert(ts[i].0 == t);
        },
    }
}

/// The resolved USE flags of a package: each flag with its entry.
#[derive(Debug)]
pub struct UseFlags {
    flags: Vec<Entry<UseFlag>>,
}

impl View for UseFlags {
    type V = Seq<EntryModel<Seq<char>>>;

    closed spec fn view(&self) -> Seq<EntryModel<Seq<char>>> {
        self.flags@.map_values(|e: Entry<UseFlag>| e@)
    }
}

impl UseFlags {
    /// No flags.
    pub fn new() -> (r: Self)
        ensures
            r@ == Seq::<EntryModel<Seq<char>>>::empty(),
    {
        let r = UseFlags { flags: Vec::new() };
        assert(r@ =~= Seq::<EntryModel<Seq<char>>>::empty());
        r
    }

    /// Returns the position of the entry of `flag`.
    fn find(&self, flag: &str) -> (r: Option<usize>)
        ensures
            match flag_index(self@, flag@) {
                Some(i) => r matches Some(x) && x == i && 0 <= i < self@.len(),
                None => r is None,
            },
    {
        let ghost fs = self@;
        let mut i: usize = 0;
        while i < self.flags.len()
            invariant
                0 <= i <= self.flags@.len(),
                fs == self@,
                forall|j: int| 0 <= j < i ==> fs[j].2 != flag@,
            decreases self.flags.len() - i,
        {
            if str_eq(self.flags[i].inner().as_str(), flag) {
                proof {
                    lemma_flag_index_first(fs, flag@, i as int);
                }
                return Some(i);
            }
            i += 1;
        }
        proof {
            lemma_flag_index(fs, flag@);
            match flag_index(fs, flag@) {
                Some(j) => {
                    assert(fs[j].2 == flag@);
                },
                None => {},
            }
        }
        None
    }

    /// Adds an entry.
    fn push(&mut self, e: Entry<UseFlag>)
        ensures
            final(self)@ == old(self)@.push(e@),
    {
        let ghost before = self@;
        let ghost ev = e@;
        self.flags.push(e);
        assert(self@ =~= before.push(ev));
    }

    /// Returns the entry of `flag`, if any.
    pub fn get(&self, flag: &UseFlag) -> (r: Option<&Entry<UseFlag>>)
        ensures
            match flag_index(self@, flag@) {
                Some(i) => r matches Some(e) && e@ == self@[i],
                None => r is None,
            },
    {
        match self.find(flag.as_str()) {
            Some(i) => Some(&self.flags[i]),
            None => None,
        }
    }

    /// Returns the entries.
    pub fn iter(&self) -> (r: &Vec<Entry<UseFlag>>)
        ensures
            r@.map_values(|e: Entry<UseFlag>| e@) == self@,
    {
        &self.flags
    }
}

/// The search for a flag finds its first position.
proof fn lemma_flag_index(fs: Seq<EntryModel<Seq<char>>>, flag: Seq<char>)
    ensures
        match flag_index(fs, flag) {
            Some(i) => 0 <= i < fs.len() && fs[i].2 == flag && forall|j: int| 0 <= j < i ==> fs[j].2 != flag,
            None => forall|j: int| 0 <= j < fs.len() ==> fs[j].2 != flag,
        },
    decreases fs.len(),
{
    if fs.len() > 0 {
        let d = fs.drop_last();
        lemma_flag_index(d, flag);
        assert forall|j: int| 0 <= j < d.len() implies d[j] == fs[j] by {}
    }
}

/// The first position of a flag is what the search finds.
proof fn lemma_flag_index_first(fs: Seq<EntryModel<Seq<char>>>, flag: Seq<char>, i: int)
    requires
        0 <= i < fs.len(),
        fs[i].2 == flag,
        forall|j: int| 0 <= j < i ==> fs[j].2 != flag,
    ensures
        flag_index(fs, flag) == Some(i),
{
    lemma_flag_index(fs, flag);
    match flag_index(fs, flag) {
        Some(k) => {
            if k < i {
            } else if k > i {
            }
        },
        None => {
            assert(fs[i].2 == flag);
        },
    }
}

/// Appends copies of the entries of `from` to `to`, each set in turn.
fn copy_targets(to: &mut UseSpec, from: &Vec<(PackageUseTarget, Entry<UseFlag>)>)
    ensures
        final(to)@ == (
            insert_targets(old(to)@.0, from@.map_values(|p: (PackageUseTarget, Entry<UseFlag>)| (p.0@, p.1@))),
            old(to)@.1,
        ),
{
    let ghost start = to@;
    let ghost fs = from@.map_values(|p: (PackageUseTarget, Entry<UseFlag>)| (p.0@, p.1@));
    let mut i: usize = 0;
    while i < from.len()
        invariant
            0 <= i <= from@.len(),
            fs == from@.map_values(|p: (PackageUseTarget, Entry<UseFlag>)| (p.0@, p.1@)),
            to@ == (insert_targets(start.0, fs.subrange(0, i as int)), start.1),
        decreases from.len() - i,
    {
        let ghost sub = fs.subrange(0, i + 1);
        assert(sub.drop_last() =~= fs.subrange(0, i as int));
        assert(sub.last() == fs[i as int]);
        to.insert(from[i].0.copy(), from[i].1.copy());
        i += 1;
    }
    assert(fs.subrange(0, i as int) =~= fs);
}

impl AtomPolicy for UseSpec {
    open spec fn parsed(value: Seq<char>, prec: Precedence) -> Option<UseSpecView> {
        if value.len() == 0 {
            None
        } else {
            match use_words(split_by(value, true), prec) {
                Some((s, _)) => Some(s),
                None => None,
            }
        }
    }

    open spec fn empty_policy() -> UseSpecView {
        (Seq::empty(), Seq::empty())
    }

    open spec fn updated(a: UseSpecView, b: UseSpecView) -> UseSpecView {
        let r = apply_resets(a, b.1);
        (insert_targets(r.0, b.0), r.1)
    }

    open spec fn inherited(child: UseSpecView, parent: UseSpecView) -> UseSpecView {
        (inherit_targets(child.0, child.1, parent.0), Seq::empty())
    }

    fn parse(value: &str, prec: Precedence) -> (r: Result<Self, Error>) {
        if value.is_empty() {
            return Err(Error::new("invalid package.use definition"));
        }
        let words = split_text(value, true);
        let ghost ws = texts(words@);
        let mut spec = UseSpec::empty();
        let mut cur: Option<String> = None;
        let mut i: usize = 0;
        while i < words.len()
            invariant
                0 <= i <= words@.len(),
                ws == texts(words@),
                ws == split_by(value@, true),
                use_words(ws.subrange(0, i as int), prec) == Some(
                    (
                        spec@,
                        match cur {
                            Some(g) => Some(g@),
                            None => None::<Seq<char>>,
                        },
                    ),
                ),
            decreases words.len() - i,
        {
            let ghost sub = ws.subrange(0, i + 1);
            assert(sub.drop_last() =~= ws.subrange(0, i as int));
            assert(sub.last() == words@[i as int]@);
            let w = words[i].as_str();
            match opener(w) {
                Some(g) => {
                    cur = Some(g);
                },
                None => {
                    proof {
                        reveal_strlit("-*");
                        assert("-*"@ =~= seq!['-', '*']);
                    }
                    if str_eq(w, "-*") {
                        let reset = match &cur {
                            Some(g) => UseReset::Group(g.clone()),
                            None => UseReset::All,
                        };
                        spec.reset(reset);
                    } else {
                        assert(w@ != seq!['-', '*']);
                        match Entry::<UseFlag>::from_str(w, prec) {
                            Ok(e) => {
                                let body = e.inner().copy();
                                let target = match &cur {
                                    Some(g) => PackageUseTarget::Expand { group: g.clone(), value: body },
                                    None => PackageUseTarget::Flag(body),
                                };
                                spec.insert(target, e);
                            },
                            Err(err) => {
                                proof {
                                    lemma_use_words_none(ws, i as int + 1, prec);
                                }
                                return Err(err);
                            },
                        }
                    }
                },
            }
            i += 1;
        }
        assert(ws.subrange(0, i as int) =~= ws);
        Ok(spec)
    }

    fn empty() -> (r: Self) {
        let r = UseSpec { targets: Vec::new(), resets: Vec::new() };
        assert(r@.0 =~= Seq::<(TargetView, EntryModel<Seq<char>>)>::empty());
        assert(r@.1 =~= Seq::<ResetView>::empty());
        r
    }

    fn update_from(&mut self, other: Self) {
        let ghost rs = other@.1;
        let mut i: usize = 0;
        let ghost start = self@;
        while i < other.resets.len()
            invariant
                0 <= i <= other.resets@.len(),
                rs == other.resets@.map_values(|x: UseReset| x@),
                self@ == apply_resets(start, rs.subrange(0, i as int)),
            decreases other.resets.len() - i,
        {
            let ghost sub = rs.subrange(0, i + 1);
            assert(sub.drop_last() =~= rs.subrange(0, i as int));
            assert(sub.last() == rs[i as int]);
            self.reset(other.resets[i].copy());
            i += 1;
        }
        assert(rs.subrange(0, i as int) =~= rs);
        copy_targets(self, &other.targets);
    }

    fn inherit_from(&mut self, parent: &Self) {
        let ghost child = self@;
        let ghost ps = parent@.0;
        let mut j: usize = 0;
        while j < parent.targets.len()
            invariant
                0 <= j <= parent.targets@.len(),
                ps == parent@.0,
                self@ == (inherit_targets(child.0, child.1, ps.subrange(0, j as int)), child.1),
            decreases parent.targets.len() - j,
        {
            let ghost sub = ps.subrange(0, j + 1);
            assert(sub.drop_last() =~= ps.subrange(0, j as int));
            assert(sub.last() == ps[j as int]);
            let t = &parent.targets[j].0;
            if self.resets_match(t) {
            } else if self.find_target(t).is_some() {
            } else {
                self.insert(t.copy(), parent.targets[j].1.copy());
                assert(self@.0 =~= inherit_targets(child.0, child.1, ps.subrange(0, j as int)).push(ps[j as int]));
            }
            j += 1;
        }
        assert(ps.subrange(0, j as int) =~= ps);
        self.resets = Vec::new();
        assert(self@.1 =~= Seq::<ResetView>::empty());
    }

    fn copy_policy(&self) -> (r: Self) {
        let mut targets: Vec<(PackageUseTarget, Entry<UseFlag>)> = Vec::new();
        let mut i: usize = 0;
        while i < self.targets.len()
            invariant
                0 <= i <= self.targets@.len(),
                targets@.map_values(|p: (PackageUseTarget, Entry<UseFlag>)| (p.0@, p.1@)) =~= self@.0.subrange(0, i as int),
            decreases self.targets.len() - i,
        {
            let ghost before = targets@.map_values(|p: (PackageUseTarget, Entry<UseFlag>)| (p.0@, p.1@));
            targets.push((self.targets[i].0.copy(), self.targets[i].1.copy()));
            assert(targets@.map_values(|p: (PackageUseTarget, Entry<UseFlag>)| (p.0@, p.1@)) =~= before.push(self@.0[i as int]));
            assert(self@.0.subrange(0, i + 1) =~= self@.0.subrange(0, i as int).push(self@.0[i as int]));
            i += 1;
        }
        assert(self@.0.subrange(0, i as int) =~= self@.0);
        let mut resets: Vec<UseReset> = Vec::new();
        let mut k: usize = 0;
        while k < self.resets.len()
            invariant
                0 <= k <= self.resets@.len(),
                resets@.map_values(|x: UseReset| x@) =~= self@.1.subrange(0, k as int),
            decreases self.resets.len() - k,
        {
            resets.push(self.resets[k].copy());
            assert(self@.1.subrange(0, k + 1) =~= self@.1.subrange(0, k as int).push(self@.1[k as int]));
            k += 1;
        }
        assert(self@.1.subrange(0, k as int) =~= self@.1);
        UseSpec { targets, resets }
    }
}

/// The targets of a value have distinct targets.
pub open spec fn distinct_targets(ts: Seq<(TargetView, EntryModel<Seq<char>>)>) -> bool {
    forall|i: int, j: int| 0 <= i < j < ts.len() ==> (#[trigger] ts[i]).0 != (#[trigger] ts[j]).0
}

/// A failure on a prefix of the words is a failure on all.
proof fn lemma_use_words_none(ws: Seq<Seq<char>>, n: int, prec: Precedence)
    requires
        0 < n <= ws.len(),
        use_words(ws.subrange(0, n - 1), prec) is Some,
        entry_parts(ws[n - 1]).1.len() == 0,
        group_opener(ws[n - 1]) is None,
        ws[n - 1] != seq!['-', '*'],
    ensures
        use_words(ws, prec) is None,
    decreases ws.len(),
{
    assert(ws.subrange(0, n).drop_last() =~= ws.subrange(0, n - 1));
    assert(use_words(ws.subrange(0, n), prec) is None);
    lemma_use_words_extend(ws, n, prec);
}

/// A failure stays a failure with more words.
proof fn lemma_use_words_extend(ws: Seq<Seq<char>>, n: int, prec: Precedence)
    requires
        0 < n <= ws.len(),
        use_words(ws.subrange(0, n), prec) is None,
    ensures
        use_words(ws, prec) is None,
    decreases ws.len(),
{
    if ws.len() > n {
        assert(ws.drop_last().subrange(0, n) =~= ws.subrange(0, n));
        lemma_use_words_extend(ws.drop_last(), n, prec);
    } else {
        assert(ws.subrange(0, n) =~= ws);
    }
}

/// The flags that the records give: each atom with its resolved flags; `None` where one
/// fails to resolve.
pub open spec fn expand_records(
    ps: Seq<(AtomView, UseSpecView)>,
    cfg: (Seq<Seq<char>>, Seq<Seq<char>>),
) -> Option<Seq<(AtomView, Seq<EntryModel<Seq<char>>>)>>
    decreases ps.len(),
{
    if ps.len() == 0 {
        Some(Seq::empty())
    } else {
        match expand_records(ps.drop_last(), cfg) {
            None => None,
            Some(rs) => match expand_targets(ps.last().1.0, cfg) {
                None => None,
                Some(fs) => Some(rs.push((ps.last().0, fs))),
            },
        }
    }
}

/// Parsed `package.use` records, to be inherited and then resolved.
#[derive(Debug)]
pub struct PackageUseRecords {
    policies: AtomPolicies<UseSpec>,
}

impl View for PackageUseRecords {
    type V = Seq<(AtomView, UseSpecView)>;

    closed spec fn view(&self) -> Seq<(AtomView, UseSpecView)> {
        self.policies@
    }
}

impl PackageUseRecords {
    /// No records.
    pub fn new() -> (r: Self)
        ensures
            r@ == Seq::<(AtomView, UseSpecView)>::empty(),
    {
        PackageUseRecords { policies: AtomPolicies::new() }
    }

    /// Reads a `package.use` file with precedence `order`.
    pub fn from_string(content: &str, order: Precedence) -> (r: Result<Self, Error>)
        ensures
            read_policies::<UseSpec>(
                content@,
                order,
                match r {
                    Ok(x) => Ok(x@),
                    Err(e) => Err(e.text()),
                },
            ),
    {
        match AtomPolicies::from_string(content, order) {
            Ok(policies) => Ok(PackageUseRecords { policies }),
            Err(e) => Err(e),
        }
    }

    /// Reads a `package.use` file with precedence `order`.
    pub fn from_content(content: &str, order: Precedence) -> (r: Result<Self, Error>)
        ensures
            read_policies::<UseSpec>(
                content@,
                order,
                match r {
                    Ok(x) => Ok(x@),
                    Err(e) => Err(e.text()),
                },
            ),
    {
        Self::from_string(content, order)
    }

    /// Returns the number of atoms.
    pub fn len(&self) -> (r: usize)
        ensures
            r == self@.len(),
    {
        self.policies.entries().len()
    }

    /// Returns the values of `atom`.
    pub fn get(&self, atom: &Atom) -> (r: Option<&UseSpec>)
        ensures
            match crate::files::pkgfile::policy_index(policy_keys(self@), crate::deps::atom::key::atom_key(atom@)) {
                Some(i) => r matches Some(p) && p@ == self@[i].1,
                None => r is None,
            },
    {
        self.policies.get(atom)
    }

    /// Inherits the records of `parent`.
    pub fn inherit_from(&mut self, parent: &Self)
        ensures
            final(self)@ == inherit_policies::<UseSpec>(old(self)@, parent@),
    {
        self.policies.inherit_from(&parent.policies);
    }

    /// Returns these records after inheriting those of `parent`.
    pub fn inherit(self, parent: &Self) -> (r: Self)
        ensures
            r@ == inherit_policies::<UseSpec>(self@, parent@),
    {
        let mut s = self;
        s.inherit_from(parent);
        s
    }

    /// Returns a copy of these records.
    pub fn copy(&self) -> (r: Self)
        ensures
            r@ == self@,
    {
        PackageUseRecords { policies: self.policies.copy() }
    }

    /// Resolves the flags of each atom with the USE expansion groups `groups`.
    pub fn expand(&self, groups: &UseExpandConfig) -> (r: Result<Vec<(Atom, UseFlags)>, Error>)
        ensures
            match expand_records(self@, groups@) {
                Some(rs) => r matches Ok(v) && v@.map_values(|p: (Atom, UseFlags)| (p.0@, p.1@)) == rs,
                None => r is Err,
            },
    {
        let entries = self.policies.entries();
        let ghost ps = self@;
        let mut out: Vec<(Atom, UseFlags)> = Vec::new();
        let mut i: usize = 0;
        while i < entries.len()
            invariant
                0 <= i <= entries@.len(),
                ps == entries@.map_values(|p: (Atom, UseSpec)| (p.0@, p.1@)),
                ps == self@,
                expand_records(ps.subrange(0, i as int), groups@) == Some(
                    out@.map_values(|p: (Atom, UseFlags)| (p.0@, p.1@)),
                ),
            decreases entries.len() - i,
        {
            let ghost sub = ps.subrange(0, i + 1);
            assert(sub.drop_last() =~= ps.subrange(0, i as int));
            assert(sub.last() == (entries@[i as int].0@, entries@[i as int].1@));
            match entries[i].1.expand(groups) {
                Ok(flags) => {
                    let ghost before = out@.map_values(|p: (Atom, UseFlags)| (p.0@, p.1@));
                    let ghost fv = flags@;
                    out.push((entries[i].0.copy(), flags));
                    assert(out@.map_values(|p: (Atom, UseFlags)| (p.0@, p.1@)) =~= before.push((entries@[i as int].0@, fv)));
                },
                Err(_) => {
                    assert(expand_records(sub, groups@) is None);
                    let mut m = String::new();
                    crate::text::append_str(&mut m, "failed to process USE_EXPAND for ");
                    let a = entries[i].0.to_string();
                    crate::text::append_str(&mut m, a.as_str());
                    proof {
                        lemma_records_none(ps, i as int + 1, groups@);
                    }
                    return Err(Error::from_string(m));
                },
            }
            i += 1;
        }
        assert(ps.subrange(0, i as int) =~= ps);
        Ok(out)
    }
}

/// A failure on a prefix of the records is a failure on all.
proof fn lemma_records_none(ps: Seq<(AtomView, UseSpecView)>, n: int, cfg: (Seq<Seq<char>>, Seq<Seq<char>>))
    requires
        0 < n <= ps.len(),
        expand_records(ps.subrange(0, n), cfg) is None,
    ensures
        expand_records(ps, cfg) is None,
    decreases ps.len(),
{
    if ps.len() > n {
        assert(ps.drop_last().subrange(0, n) =~= ps.subrange(0, n));
        lemma_records_none(ps.drop_last(), n, cfg);
    } else {
        assert(ps.subrange(0, n) =~= ps);
    }
}

} // verus!
