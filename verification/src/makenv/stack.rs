//! The layers of make configuration (make.globals, the profile's make.defaults, make.conf)
//! and what their fold gives: USE flags, `ARCH`, implicit flags and `ACCEPT_KEYWORDS`.
use crate::deps::useflag::UseFlag;
use crate::error::{Error, subject_message};
use crate::grammar::{NameKind, is_name, is_name_str};
use crate::keyword::{KeywordSelector, SelectorView, is_selector_text, selector_parts};
use crate::makenv::value::EnvValue;
use crate::makenv::{EnvView, MakeEnv, env_views, expand_env, fold_envs, use_expand_names, use_expand_overlap, words_of};
use crate::repository::{Arch, is_arch_name};
use crate::text::{chars_of, join_words, str_eq, string_from, texts};
use crate::useflag::{
    UseExpandConfig, all_flags_valid, expand_config_of, implicit_of, materialized, nonempty_all,
};
use vstd::prelude::*;

verus! {

/// Model of USE states: flags with whether they are enabled, each flag once.
pub type UseStates = Seq<(Seq<char>, bool)>;

/// The position of `flag` among the states.
pub open spec fn state_index(st: UseStates, flag: Seq<char>) -> Option<int>
    decreases st.len(),
{
    if st.len() == 0 {
        None
    } else {
        match state_index(st.drop_last(), flag) {
            Some(i) => Some(i),
            None => if st.last().0 == flag {
                Some(st.len() - 1)
            } else {
                None
            },
        }
    }
}

/// The states after setting `flag` to `enabled`.
pub open spec fn set_state(st: UseStates, flag: Seq<char>, enabled: bool) -> UseStates {
    match state_index(st, flag) {
        Some(i) => st.update(i, (flag, enabled)),
        None => st.push((flag, enabled)),
    }
}

/// The states after setting each of `fs` in turn.
pub open spec fn set_states(st: UseStates, fs: UseStates) -> UseStates
    decreases fs.len(),
{
    if fs.len() == 0 {
        st
    } else {
        let rest = set_states(st, fs.drop_last());
        set_state(rest, fs.last().0, fs.last().1)
    }
}

/// The states of `fs` that are disabled.
pub open spec fn disabled(fs: UseStates) -> UseStates
    decreases fs.len(),
{
    if fs.len() == 0 {
        fs
    } else if fs.last().1 {
        disabled(fs.drop_last())
    } else {
        disabled(fs.drop_last()).push(fs.last())
    }
}

/// The states after the words of a `USE` variable: `-*` disables all before it, `-flag`
/// disables and `flag` enables; `None` at a word that names no valid flag.
pub open spec fn use_state_after(st: UseStates, words: Seq<Seq<char>>) -> Option<UseStates>
    decreases words.len(),
{
    if words.len() == 0 {
        Some(st)
    } else {
        match use_state_after(st, words.drop_last()) {
            None => None,
            Some(s) => {
                let w = words.last();
                if w == seq!['-', '*'] {
                    Some(Seq::empty())
                } else {
                    let (name, enabled) = if w.len() > 0 && w[0] == '-' {
                        (w.skip(1), false)
                    } else {
                        (w, true)
                    };
                    if is_name(NameKind::UseFlag, name) {
                        Some(set_state(s, name, enabled))
                    } else {
                        None
                    }
                }
            },
        }
    }
}

/// The USE states of a resolved environment `makenv` with the user's layer `user`: `USE`
/// of the resolved environment, then that of the user, then the values of the USE
/// expansion groups, then the flags that the user's layer disables through them.
pub open spec fn global_use_of(makenv: EnvView, user: EnvView) -> Option<UseStates> {
    if use_expand_overlap(makenv) {
        None
    } else {
        let cfg = expand_config_of(makenv);
        match use_state_after(Seq::empty(), words_of(makenv, "USE"@)) {
            None => None,
            Some(s1) => match use_state_after(s1, words_of(user, "USE"@)) {
                None => None,
                Some(s2) => {
                    let m1 = materialized(cfg, makenv);
                    let m2 = materialized(cfg, user);
                    if !all_flags_valid(m1) || !all_flags_valid(m2) {
                        None
                    } else {
                        Some(set_states(set_states(s2, m1), disabled(m2)))
                    }
                },
            },
        }
    }
}

/// The search for a flag finds its first position.
pub proof fn lemma_state_index(st: UseStates, flag: Seq<char>)
    ensures
        match state_index(st, flag) {
            Some(i) => 0 <= i < st.len() && st[i].0 == flag && forall|j: int| 0 <= j < i ==> st[j].0 != flag,
            None => forall|j: int| 0 <= j < st.len() ==> st[j].0 != flag,
        },
    decreases st.len(),
{
    if st.len() > 0 {
        let d = st.drop_last();
        lemma_state_index(d, flag);
        assert forall|j: int| 0 <= j < d.len() implies d[j] == st[j] by {}
    }
}

/// The first position of a flag is what the search finds.
pub proof fn lemma_state_index_first(st: UseStates, flag: Seq<char>, i: int)
    requires
        0 <= i < st.len(),
        st[i].0 == flag,
        forall|j: int| 0 <= j < i ==> st[j].0 != flag,
    ensures
        state_index(st, flag) == Some(i),
{
    lemma_state_index(st, flag);
    match state_index(st, flag) {
        Some(k) => {
            if k < i {
            } else if k > i {
            }
        },
        None => {
            assert(st[i].0 == flag);
        },
    }
}

/// Sets `flag` to `enabled` in `state`.
fn set_flag(state: &mut Vec<(UseFlag, bool)>, flag: UseFlag, enabled: bool)
    ensures
        final(state)@.map_values(|p: (UseFlag, bool)| (p.0@, p.1)) == set_state(
            old(state)@.map_values(|p: (UseFlag, bool)| (p.0@, p.1)),
            flag@,
            enabled,
        ),
{
    let ghost st = state@.map_values(|p: (UseFlag, bool)| (p.0@, p.1));
    let mut i: usize = 0;
    while i < state.len()
        invariant
            0 <= i <= state@.len(),
            st == state@.map_values(|p: (UseFlag, bool)| (p.0@, p.1)),
            st == old(state)@.map_values(|p: (UseFlag, bool)| (p.0@, p.1)),
            forall|j: int| 0 <= j < i ==> st[j].0 != flag@,
        decreases state.len() - i,
    {
        if str_eq(state[i].0.as_str(), flag.as_str()) {
            proof {
                lemma_state_index_first(st, flag@, i as int);
            }
            let ghost fv = flag@;
            state.set(i, (flag, enabled));
            assert(state@.map_values(|p: (UseFlag, bool)| (p.0@, p.1)) =~= st.update(i as int, (fv, enabled)));
            assert(set_state(st, fv, enabled) == st.update(i as int, (fv, enabled)));
            return;
        }
        i += 1;
    }
    proof {
        lemma_state_index(st, flag@);
        match state_index(st, flag@) {
            Some(j) => {
                assert(st[j].0 == flag@);
            },
            None => {},
        }
    }
    let ghost fv = flag@;
    state.push((flag, enabled));
    assert(state@.map_values(|p: (UseFlag, bool)| (p.0@, p.1)) =~= st.push((fv, enabled)));
}

/// Applies the words of a `USE` variable to `state`.
fn apply_use_state(state: &mut Vec<(UseFlag, bool)>, flags: Option<&EnvValue>) -> (r: Result<(), Error>)
    ensures
        ({
            let words = match flags {
                Some(v) => v@,
                None => Seq::<Seq<char>>::empty(),
            };
            match use_state_after(old(state)@.map_values(|p: (UseFlag, bool)| (p.0@, p.1)), words) {
                Some(s) => r is Ok && final(state)@.map_values(|p: (UseFlag, bool)| (p.0@, p.1)) == s,
                None => r is Err,
            }
        }),
{
    let ghost start = state@.map_values(|p: (UseFlag, bool)| (p.0@, p.1));
    let words = match flags {
        Some(v) => v.iter(),
        None => {
            assert(use_state_after(start, Seq::<Seq<char>>::empty()) == Some(start));
            return Ok(());
        },
    };
    let ghost ws = texts(words@);
    let mut i: usize = 0;
    while i < words.len()
        invariant
            0 <= i <= words@.len(),
            ws == texts(words@),
            start == old(state)@.map_values(|p: (UseFlag, bool)| (p.0@, p.1)),
            flags matches Some(x) && x@ == ws,
            use_state_after(start, ws.subrange(0, i as int)) == Some(
                state@.map_values(|p: (UseFlag, bool)| (p.0@, p.1)),
            ),
        decreases words.len() - i,
    {
        let ghost sub = ws.subrange(0, i + 1);
        assert(sub.drop_last() =~= ws.subrange(0, i as int));
        assert(sub.last() == words@[i as int]@);
        let w = words[i].as_str();
        proof {
            reveal_strlit("-*");
            assert("-*"@ =~= seq!['-', '*']);
        }
        if str_eq(w, "-*") {
            *state = Vec::new();
            assert(state@.map_values(|p: (UseFlag, bool)| (p.0@, p.1)) =~= Seq::<(Seq<char>, bool)>::empty());
        } else {
            let v = chars_of(w);
            let negative = v.len() > 0 && v[0] == '-';
            let name = if negative {
                string_from(&v, 1, v.len())
            } else {
                w.to_owned()
            };
            assert(negative ==> name@ =~= w@.skip(1));
            if !is_name_str(NameKind::UseFlag, name.as_str()) {
                proof {
                    assert(w@ != seq!['-', '*']);
                    assert(use_state_after(start, sub) is None);
                    lemma_use_state_none(start, ws, i as int + 1);
                }
                return Err(Error::with_subject("invalid USE flag", w));
            }
            proof {
                crate::grammar::lemma_name_nonempty(NameKind::UseFlag, name@);
            }
            match UseFlag::new(name) {
                Ok(f) => set_flag(state, f, !negative),
                Err(e) => return Err(e),
            }
        }
        i += 1;
    }
    assert(ws.subrange(0, i as int) =~= ws);
    assert(flags matches Some(x) && x@ == ws);
    Ok(())
}

/// A failure on a prefix of the words is a failure on all.
proof fn lemma_use_state_none(st: UseStates, ws: Seq<Seq<char>>, n: int)
    requires
        0 < n <= ws.len(),
        use_state_after(st, ws.subrange(0, n)) is None,
    ensures
        use_state_after(st, ws) is None,
    decreases ws.len(),
{
    if ws.len() > n {
        assert(ws.drop_last().subrange(0, n) =~= ws.subrange(0, n));
        lemma_use_state_none(st, ws.drop_last(), n);
    } else {
        assert(ws.subrange(0, n) =~= ws);
    }
}

/// The layers of make configuration and their fold.
#[derive(Debug)]
pub struct MakeEnvStack {
    global: MakeEnv,
    profile: MakeEnv,
    user: MakeEnv,
    makenv: MakeEnv,
}

impl MakeEnvStack {
    /// The global layer.
    pub closed spec fn global_env(&self) -> EnvView {
        self.global@
    }

    /// The profile's layer.
    pub closed spec fn profile_env(&self) -> EnvView {
        self.profile@
    }

    /// The user's layer, expanded with the layers below it.
    pub closed spec fn user_env(&self) -> EnvView {
        self.user@
    }

    /// The resolved environment.
    pub closed spec fn resolved_env(&self) -> EnvView {
        self.makenv@
    }

    /// Folds the layers: the USE expansion groups of all layers are incremental, the user's
    /// layer is expanded with the global and profile layers folded, then all three are
    /// folded. A group both prefixed and unprefixed is an error.
    pub fn new(global: MakeEnv, profile: MakeEnv, user: MakeEnv) -> (r: Result<Self, Error>)
        ensures
            ({
                let provisional = fold_envs(seq![global@, profile@, user@], Seq::empty());
                if use_expand_overlap(provisional) {
                    r is Err
                } else {
                    let names = use_expand_names(provisional);
                    let expanded = expand_env(user@, fold_envs(seq![global@, profile@], names));
                    r matches Ok(s) && s.global_env() == global@ && s.profile_env() == profile@
                        && s.user_env() == expanded && s.resolved_env() == fold_envs(
                        seq![global@, profile@, expanded],
                        names,
                    )
                }
            }),
    {
        let all = [&global, &profile, &user];
        assert(env_views(all@) =~= seq![global@, profile@, user@]);
        let vars = match MakeEnv::incremental_vars(&all) {
            Ok(v) => v,
            Err(e) => return Err(e),
        };
        let lower = [&global, &profile];
        assert(env_views(lower@) =~= seq![global@, profile@]);
        let inherited = MakeEnv::fold(&lower, &vars);
        let mut user = user;
        user.expand_from(&inherited);
        let layers = [&global, &profile, &user];
        assert(env_views(layers@) =~= seq![global@, profile@, user@]);
        let makenv = MakeEnv::fold(&layers, &vars);
        Ok(MakeEnvStack { global, profile, user, makenv })
    }

    /// Returns the USE states the configuration gives: `USE` of the resolved environment,
    /// then of the user's layer, then the USE expansion groups of the resolved
    /// environment, then the flags the user's layer disables through them.
    pub fn global_use(&self) -> (r: Result<Vec<(UseFlag, bool)>, Error>)
        ensures
            match global_use_of(self.resolved_env(), self.user_env()) {
                Some(s) => r matches Ok(v) && v@.map_values(|p: (UseFlag, bool)| (p.0@, p.1)) == s,
                None => r is Err,
            },
    {
        let cfg = match UseExpandConfig::from_makenv(&self.makenv) {
            Ok(c) => c,
            Err(e) => return Err(e),
        };
        let mut state: Vec<(UseFlag, bool)> = Vec::new();
        assert(state@.map_values(|p: (UseFlag, bool)| (p.0@, p.1)) =~= Seq::<(Seq<char>, bool)>::empty());
        match apply_use_state(&mut state, self.makenv.get("USE")) {
            Ok(()) => {},
            Err(e) => return Err(e),
        }
        match apply_use_state(&mut state, self.user.get("USE")) {
            Ok(()) => {},
            Err(e) => return Err(e),
        }
        let m1 = match cfg.materialize(&self.makenv) {
            Ok(m) => m,
            Err(e) => return Err(e),
        };
        let m2 = match cfg.materialize(&self.user) {
            Ok(m) => m,
            Err(e) => return Err(e),
        };
        let ghost s2 = state@.map_values(|p: (UseFlag, bool)| (p.0@, p.1));
        let ghost f1 = m1@.map_values(|p: (UseFlag, bool)| (p.0@, p.1));
        let mut i: usize = 0;
        while i < m1.len()
            invariant
                0 <= i <= m1@.len(),
                f1 == m1@.map_values(|p: (UseFlag, bool)| (p.0@, p.1)),
                state@.map_values(|p: (UseFlag, bool)| (p.0@, p.1)) == set_states(s2, f1.subrange(0, i as int)),
            decreases m1.len() - i,
        {
            let ghost sub = f1.subrange(0, i + 1);
            assert(sub.drop_last() =~= f1.subrange(0, i as int));
            assert(sub.last() == (m1@[i as int].0@, m1@[i as int].1));
            set_flag(&mut state, m1[i].0.copy(), m1[i].1);
            i += 1;
        }
        assert(f1.subrange(0, i as int) =~= f1);
        let ghost s3 = state@.map_values(|p: (UseFlag, bool)| (p.0@, p.1));
        let ghost f2 = m2@.map_values(|p: (UseFlag, bool)| (p.0@, p.1));
        let mut j: usize = 0;
        while j < m2.len()
            invariant
                0 <= j <= m2@.len(),
                f2 == m2@.map_values(|p: (UseFlag, bool)| (p.0@, p.1)),
                state@.map_values(|p: (UseFlag, bool)| (p.0@, p.1)) == set_states(s3, disabled(f2.subrange(0, j as int))),
            decreases m2.len() - j,
        {
            let ghost sub = f2.subrange(0, j + 1);
            assert(sub.drop_last() =~= f2.subrange(0, j as int));
            assert(sub.last() == (m2@[j as int].0@, m2@[j as int].1));
            if !m2[j].1 {
                set_flag(&mut state, m2[j].0.copy(), false);
                assert(disabled(sub) == disabled(f2.subrange(0, j as int)).push(sub.last()));
                assert(disabled(sub).drop_last() =~= disabled(f2.subrange(0, j as int)));
            } else {
                assert(disabled(sub) == disabled(f2.subrange(0, j as int)));
            }
            j += 1;
        }
        assert(f2.subrange(0, j as int) =~= f2);
        Ok(state)
    }

    /// Returns `ARCH` of the resolved environment.
    pub fn arch(&self) -> (r: Result<Arch, Error>)
        ensures
            match crate::makenv::var_index(self.resolved_env(), "ARCH"@) {
                None => r is Err,
                Some(i) => {
                    let v = join_words(self.resolved_env()[i].1);
                    if is_arch_name(v) {
                        r matches Ok(a) && a@ == v
                    } else {
                        r is Err
                    }
                },
            },
    {
        match self.makenv.get("ARCH") {
            Some(v) => {
                let s = v.to_string();
                Arch::new(s.as_str())
            },
            None => Err(Error::new("ARCH is not set")),
        }
    }

    /// Returns the implicit USE flags of the profile: `IUSE_IMPLICIT`, then the values of
    /// the groups of `USE_EXPAND_IMPLICIT`.
    pub fn iuse_implicit(&self) -> (r: Result<Vec<UseFlag>, Error>)
        ensures
            ({
                let env = self.profile_env();
                let own = words_of(env, "IUSE_IMPLICIT"@);
                let implicit = implicit_of(expand_config_of(env), env, words_of(env, "USE_EXPAND_IMPLICIT"@));
                if nonempty_all(own) && !use_expand_overlap(env) && nonempty_all(implicit) {
                    r matches Ok(v) && v@.map_values(|f: UseFlag| f@) == own + implicit
                } else {
                    r is Err
                }
            }),
    {
        let own = crate::useflag::var_words(&self.profile, "IUSE_IMPLICIT");
        let ghost ow = texts(own@);
        let mut flags: Vec<UseFlag> = Vec::new();
        let mut i: usize = 0;
        while i < own.len()
            invariant
                0 <= i <= own@.len(),
                ow == texts(own@),
                ow == words_of(self.profile@, "IUSE_IMPLICIT"@),
                flags@.map_values(|f: UseFlag| f@) =~= ow.subrange(0, i as int),
                forall|k: int| 0 <= k < i ==> (#[trigger] ow[k]).len() > 0,
            decreases own.len() - i,
        {
            match UseFlag::new(own[i].clone()) {
                Ok(f) => {
                    flags.push(f);
                    assert(ow.subrange(0, i + 1) =~= ow.subrange(0, i as int).push(ow[i as int]));
                },
                Err(e) => {
                    assert(ow[i as int].len() == 0);
                    assert(!nonempty_all(ow));
                    return Err(e);
                },
            }
            i += 1;
        }
        assert(ow.subrange(0, i as int) =~= ow);
        let cfg = match UseExpandConfig::from_makenv(&self.profile) {
            Ok(c) => c,
            Err(e) => return Err(e),
        };
        let implicit = match cfg.implicit_flags(&self.profile) {
            Ok(v) => v,
            Err(e) => return Err(e),
        };
        let ghost start = flags@.map_values(|f: UseFlag| f@);
        let mut j: usize = 0;
        while j < implicit.len()
            invariant
                0 <= j <= implicit@.len(),
                flags@.map_values(|f: UseFlag| f@) =~= start + implicit@.map_values(|f: UseFlag| f@).subrange(0, j as int),
            decreases implicit.len() - j,
        {
            let ghost before = flags@.map_values(|f: UseFlag| f@);
            flags.push(implicit[j].copy());
            assert(flags@.map_values(|f: UseFlag| f@) =~= before.push(implicit@[j as int]@));
            assert(implicit@.map_values(|f: UseFlag| f@).subrange(0, j + 1) =~= implicit@.map_values(|f: UseFlag| f@).subrange(
                0,
                j as int,
            ).push(implicit@[j as int]@));
            j += 1;
        }
        assert(implicit@.map_values(|f: UseFlag| f@).subrange(0, j as int) =~= implicit@.map_values(|f: UseFlag| f@));
        Ok(flags)
    }

    /// Returns the selectors of `ACCEPT_KEYWORDS` of the resolved environment.
    pub fn accept_keywords(&self) -> (r: Result<Vec<KeywordSelector>, Error>)
        ensures
            ({
                let ws = words_of(self.resolved_env(), "ACCEPT_KEYWORDS"@);
                if forall|i: int| 0 <= i < ws.len() ==> is_selector_text(#[trigger] ws[i]) {
                    r matches Ok(v) && v@.map_values(|s: KeywordSelector| s@) == ws.map_values(
                        |w: Seq<char>| selector_parts(w),
                    )
                } else {
                    r is Err
                }
            }),
    {
        let ws = crate::useflag::var_words(&self.makenv, "ACCEPT_KEYWORDS");
        let ghost wv = texts(ws@);
        let mut out: Vec<KeywordSelector> = Vec::new();
        let mut i: usize = 0;
        while i < ws.len()
            invariant
                0 <= i <= ws@.len(),
                wv == texts(ws@),
                wv == words_of(self.makenv@, "ACCEPT_KEYWORDS"@),
                out@.map_values(|s: KeywordSelector| s@) =~= wv.subrange(0, i as int).map_values(
                    |w: Seq<char>| selector_parts(w),
                ),
                forall|k: int| 0 <= k < i ==> is_selector_text(#[trigger] wv[k]),
            decreases ws.len() - i,
        {
            match KeywordSelector::from_str(ws[i].as_str()) {
                Ok(s) => {
                    out.push(s);
                    assert(wv.subrange(0, i + 1).map_values(|w: Seq<char>| selector_parts(w)) =~= wv.subrange(
                        0,
                        i as int,
                    ).map_values(|w: Seq<char>| selector_parts(w)).push(selector_parts(wv[i as int])));
                },
                Err(e) => {
                    assert(!is_selector_text(wv[i as int]));
                    assert(wv == words_of(self.resolved_env(), "ACCEPT_KEYWORDS"@));
                    assert(i < wv.len());
                    assert(!(forall|k: int| 0 <= k < wv.len() ==> is_selector_text(#[trigger] wv[k])));
                    return Err(e);
                },
            }
            i += 1;
        }
        assert(wv.subrange(0, i as int) =~= wv);
        Ok(out)
    }

    /// Returns the resolved environment.
    pub fn makenv(&self) -> (r: &MakeEnv)
        ensures
            r@ == self.resolved_env(),
    {
        &self.makenv
    }
}

} // verus!
