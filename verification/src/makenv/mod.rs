//! Make configuration: the variables of make.conf and make.defaults files, and how the
//! layers of configuration inherit from each other.
pub mod name;
pub mod stack;
pub mod value;

use crate::error::{Error, subject_message};
use crate::text::{chars_of, end_before, find_char, lemma_end_before, str_eq, string_from};
use name::{EnvVarName, is_env_name};
use value::{EnvValue, defs_view, expand_spec, lookup, merge_values, split_words, texts};
use vstd::prelude::*;

verus! {

/// Model of a make environment: its variables with their words, in order of first
/// definition.
pub type EnvView = Seq<(Seq<char>, Seq<Seq<char>>)>;

/// `shlex::split`: the words of `s` in POSIX shell syntax, `None` on a syntax error.
pub uninterp spec fn shlex_words(s: Seq<char>) -> Option<Seq<Seq<char>>>;

/// Splits `content` into shell words with `shlex::split`: quotes, escapes and `#` comments
/// as in a POSIX shell, and `None` for unbalanced quotes or a trailing escape.
#[verifier::external_body]
fn shlex_split(content: &str) -> (r: Option<Vec<String>>)
    ensures
        match r {
            Some(v) => shlex_words(content@) == Some(texts(v@)),
            None => shlex_words(content@) is None,
        },
{
    shlex::split(content)
}

/// The variables that are always incremental (PMS 5.3 and Portage's list).
pub open spec fn incremental_names() -> Seq<Seq<char>> {
    seq![
        "ACCEPT_KEYWORDS"@,
        "CONFIG_PROTECT"@,
        "CONFIG_PROTECT_MASK"@,
        "ENV_UNSET"@,
        "FEATURES"@,
        "IUSE_IMPLICIT"@,
        "PRELINK_PATH"@,
        "PRELINK_PATH_MASK"@,
        "PROFILE_ONLY_VARIABLES"@,
        "USE"@,
        "USE_EXPAND"@,
        "USE_EXPAND_HIDDEN"@,
        "USE_EXPAND_IMPLICIT"@,
        "USE_EXPAND_UNPREFIXED"@,
    ]
}

/// `name` is incremental: always, or as one of the `extra` names.
pub open spec fn is_incremental(extra: Seq<Seq<char>>, name: Seq<char>) -> bool {
    incremental_names().contains(name) || extra.contains(name)
}

/// Position of the variable `name` in `env`.
pub open spec fn var_index(env: EnvView, name: Seq<char>) -> Option<int>
    decreases env.len(),
{
    if env.len() == 0 {
        None
    } else {
        match var_index(env.drop_last(), name) {
            Some(i) => Some(i),
            None => if env.last().0 == name {
                Some(env.len() - 1)
            } else {
                None
            },
        }
    }
}

/// `env` with `name` set to `value`: in place where it is defined, else appended.
pub open spec fn set_var(env: EnvView, name: Seq<char>, value: Seq<Seq<char>>) -> EnvView {
    match var_index(env, name) {
        Some(i) => env.update(i, (name, value)),
        None => env.push((name, value)),
    }
}

/// No variable is defined twice.
pub open spec fn unique_names(env: EnvView) -> bool {
    forall|i: int, j: int| 0 <= i < j < env.len() ==> env[i].0 != env[j].0
}

/// The assignment `name=value` of a word: the name before the first `=` and the words
/// after it.
pub open spec fn assignment(w: Seq<char>) -> Option<(Seq<char>, Seq<Seq<char>>)> {
    let k = end_before(w, '=');
    if k < w.len() && is_env_name(w.take(k)) {
        Some((w.take(k), split_words(w.skip(k + 1))))
    } else {
        None
    }
}

/// The assignments of the words, in order; `None` where a word is not an assignment.
pub open spec fn assignments(words: Seq<Seq<char>>) -> Option<EnvView>
    decreases words.len(),
{
    if words.len() == 0 {
        Some(Seq::empty())
    } else {
        match (assignments(words.drop_last()), assignment(words.last())) {
            (Some(a), Some(x)) => Some(a.push(x)),
            _ => None,
        }
    }
}

/// Expands each assignment with the ones before it, already expanded.
pub open spec fn expand_in_order(defs: EnvView) -> EnvView
    decreases defs.len(),
{
    if defs.len() == 0 {
        Seq::empty()
    } else {
        let prev = expand_in_order(defs.drop_last());
        prev.push((defs.last().0, expand_spec(defs.last().1, prev)))
    }
}

/// Collects assignments into an environment: a later assignment replaces an earlier one.
pub open spec fn collect_defs(defs: EnvView) -> EnvView
    decreases defs.len(),
{
    if defs.len() == 0 {
        Seq::empty()
    } else {
        set_var(collect_defs(defs.drop_last()), defs.last().0, defs.last().1)
    }
}

/// The environment described by the shell words of a make file.
pub open spec fn env_of_words(words: Seq<Seq<char>>) -> Option<EnvView> {
    match assignments(words) {
        Some(a) => Some(collect_defs(expand_in_order(a))),
        None => None,
    }
}

/// Each value of `env` expanded with the variables of `parent`.
pub open spec fn expand_env(env: EnvView, parent: EnvView) -> EnvView {
    Seq::new(env.len(), |i: int| (env[i].0, expand_spec(env[i].1, parent)))
}

/// Adds the parent's variables in order: an incremental one the child also has is merged
/// (parent first), one the child lacks is taken over (merged if incremental).
pub open spec fn take_parent(env: EnvView, parent: EnvView, extra: Seq<Seq<char>>) -> EnvView
    decreases parent.len(),
{
    if parent.len() == 0 {
        env
    } else {
        let before = take_parent(env, parent.drop_last(), extra);
        let (name, pv) = parent.last();
        match var_index(before, name) {
            Some(i) => if is_incremental(extra, name) {
                before.update(i, (name, merge_values(pv + before[i].1)))
            } else {
                before
            },
            None => before.push(
                (
                    name,
                    if is_incremental(extra, name) {
                        merge_values(pv)
                    } else {
                        pv
                    },
                ),
            ),
        }
    }
}

/// Merges the incremental variables that the parent lacks.
pub open spec fn normalize_own(env: EnvView, parent: EnvView, extra: Seq<Seq<char>>) -> EnvView {
    Seq::new(
        env.len(),
        |i: int|
            if is_incremental(extra, env[i].0) && var_index(parent, env[i].0) is None {
                (env[i].0, merge_values(env[i].1))
            } else {
                env[i]
            },
    )
}

/// A child environment after inheriting from `parent`, with `extra` incremental names.
pub open spec fn inherit_env(env: EnvView, parent: EnvView, extra: Seq<Seq<char>>) -> EnvView {
    normalize_own(take_parent(expand_env(env, parent), parent, extra), parent, extra)
}

/// Holds the make variables of one or more folded make files.
#[derive(Debug)]
pub struct MakeEnv {
    vars: Vec<(EnvVarName, EnvValue)>,
}

impl View for MakeEnv {
    type V = EnvView;

    closed spec fn view(&self) -> EnvView {
        defs_view(self.vars@)
    }
}

/// [`var_index`] finds the first definition of the name.
pub proof fn lemma_var_index(env: EnvView, name: Seq<char>)
    ensures
        match var_index(env, name) {
            Some(i) => 0 <= i < env.len() && env[i].0 == name && forall|j: int|
                0 <= j < i ==> env[j].0 != name,
            None => forall|j: int| 0 <= j < env.len() ==> env[j].0 != name,
        },
    decreases env.len(),
{
    if env.len() > 0 {
        lemma_var_index(env.drop_last(), name);
        match var_index(env.drop_last(), name) {
            Some(i) => {
                assert forall|j: int| 0 <= j < i implies env[j].0 != name by {
                    assert(env[j] == env.drop_last()[j]);
                }
                assert(env[i] == env.drop_last()[i]);
            },
            None => {
                assert forall|j: int| 0 <= j < env.len() - 1 implies env[j].0 != name by {
                    assert(env[j] == env.drop_last()[j]);
                }
            },
        }
    }
}

/// Returns the position of the variable `name` in `vars`.
fn find_var(vars: &Vec<(EnvVarName, EnvValue)>, name: &str) -> (r: Option<usize>)
    ensures
        match r {
            Some(k) => var_index(defs_view(vars@), name@) == Some(k as int) && k < vars@.len()
                && defs_view(vars@)[k as int].0 == name@,
            None => var_index(defs_view(vars@), name@) is None,
        },
{
    proof {
        lemma_var_index(defs_view(vars@), name@);
    }
    let mut i: usize = 0;
    while i < vars.len()
        invariant
            0 <= i <= vars@.len(),
            forall|j: int| 0 <= j < i ==> defs_view(vars@)[j].0 != name@,
            match var_index(defs_view(vars@), name@) {
                Some(x) => 0 <= x < vars@.len() && defs_view(vars@)[x].0 == name@ && forall|j: int|
                    0 <= j < x ==> defs_view(vars@)[j].0 != name@,
                None => forall|j: int| 0 <= j < vars@.len() ==> defs_view(vars@)[j].0 != name@,
            },
        decreases vars.len() - i,
    {
        assert(defs_view(vars@)[i as int] == (vars@[i as int].0@, vars@[i as int].1@));
        if str_eq(vars[i].0.as_str(), name) {
            return Some(i);
        }
        i += 1;
    }
    None
}

/// Returns `true` if `name` is incremental: always, or as one of the `extra` names.
fn is_incremental_exec(extra: &Vec<String>, name: &str) -> (r: bool)
    ensures
        r == is_incremental(texts(extra@), name@),
{
    let fixed = [
        "ACCEPT_KEYWORDS",
        "CONFIG_PROTECT",
        "CONFIG_PROTECT_MASK",
        "ENV_UNSET",
        "FEATURES",
        "IUSE_IMPLICIT",
        "PRELINK_PATH",
        "PRELINK_PATH_MASK",
        "PROFILE_ONLY_VARIABLES",
        "USE",
        "USE_EXPAND",
        "USE_EXPAND_HIDDEN",
        "USE_EXPAND_IMPLICIT",
        "USE_EXPAND_UNPREFIXED",
    ];
    assert(fixed@.map_values(|x: &str| x@) =~= incremental_names());
    let mut i: usize = 0;
    while i < 14
        invariant
            0 <= i <= 14,
            fixed@.len() == 14,
            fixed@.map_values(|x: &str| x@) == incremental_names(),
            forall|j: int| 0 <= j < i ==> incremental_names()[j] != name@,
        decreases 14 - i,
    {
        assert(incremental_names()[i as int] == fixed@[i as int]@);
        if str_eq(fixed[i], name) {
            assert(incremental_names().contains(name@));
            return true;
        }
        i += 1;
    }
    let mut j: usize = 0;
    while j < extra.len()
        invariant
            0 <= j <= extra@.len(),
            forall|k: int| 0 <= k < incremental_names().len() ==> incremental_names()[k] != name@,
            forall|k: int| 0 <= k < j ==> texts(extra@)[k] != name@,
        decreases extra.len() - j,
    {
        if str_eq(extra[j].as_str(), name) {
            assert(texts(extra@)[j as int] == name@);
            return true;
        }
        j += 1;
    }
    false
}

/// The environment after folding the `layers` in order, each inheriting from the ones
/// before, with `extra` incremental names.
pub open spec fn fold_envs(layers: Seq<EnvView>, extra: Seq<Seq<char>>) -> EnvView
    decreases layers.len(),
{
    if layers.len() == 0 {
        Seq::empty()
    } else {
        inherit_env(layers.last(), fold_envs(layers.drop_last(), extra), extra)
    }
}

/// The views of a list of environments.
pub open spec fn env_views(layers: Seq<&MakeEnv>) -> Seq<EnvView> {
    layers.map_values(|e: &MakeEnv| e@)
}

/// The words of the variable `name` in `env`; none where it is not defined.
pub open spec fn words_of(env: EnvView, name: Seq<char>) -> Seq<Seq<char>> {
    match var_index(env, name) {
        Some(i) => env[i].1,
        None => Seq::empty(),
    }
}

/// The USE expansion groups of `env`: the prefixed ones, then the unprefixed ones.
pub open spec fn use_expand_names(env: EnvView) -> Seq<Seq<char>> {
    words_of(env, "USE_EXPAND"@) + words_of(env, "USE_EXPAND_UNPREFIXED"@)
}

/// Some group of `env` is both prefixed and unprefixed.
pub open spec fn use_expand_overlap(env: EnvView) -> bool {
    exists|w: Seq<char>|
        words_of(env, "USE_EXPAND"@).contains(w) && #[trigger] words_of(env, "USE_EXPAND_UNPREFIXED"@).contains(w)
}

impl MakeEnv {
    /// An environment without variables.
    pub fn new() -> (r: Self)
        ensures
            r@ == Seq::<(Seq<char>, Seq<Seq<char>>)>::empty(),
    {
        let r = MakeEnv { vars: Vec::new() };
        assert(r@ =~= Seq::<(Seq<char>, Seq<Seq<char>>)>::empty());
        r
    }

    /// Builds an environment from the shell words of a make file: each word an
    /// assignment `NAME=value`, expanded with the assignments before it; a later
    /// assignment of a name replaces an earlier one.
    pub fn from_words(words: &Vec<String>) -> (r: Result<Self, Error>)
        ensures
            match env_of_words(texts(words@)) {
                Some(e) => r matches Ok(m) && m@ == e,
                None => r is Err,
            },
    {
        let mut defs: Vec<(EnvVarName, EnvValue)> = Vec::new();
        let mut i: usize = 0;
        while i < words.len()
            invariant
                0 <= i <= words@.len(),
                assignments(texts(words@).subrange(0, i as int)) is Some,
                defs_view(defs@) == expand_in_order(assignments(texts(words@).subrange(0, i as int))->0),
            decreases words.len() - i,
        {
            let ghost prefix = texts(words@).subrange(0, i + 1);
            assert(prefix.drop_last() =~= texts(words@).subrange(0, i as int));
            assert(prefix.last() == words@[i as int]@);
            let w = chars_of(words[i].as_str());
            let n = w.len();
            let k = find_char(&w, 0, n, '=');
            assert(w@.subrange(0, n as int) == w@);
            proof {
                lemma_end_before(w@, '=');
            }
            if k == n {
                assert(assignment(prefix.last()) is None);
                proof {
                    lemma_assignments_prefix_none(texts(words@), i as int);
                }
                return Err(Error::with_subject("invalid assignment", words[i].as_str()));
            }
            let key = string_from(&w, 0, k);
            assert(w@.take(k as int) == w@.subrange(0, k as int));
            let name = match EnvVarName::new(key.as_str()) {
                Ok(x) => x,
                Err(e) => {
                    assert(assignment(prefix.last()) is None);
                    proof {
                        lemma_assignments_prefix_none(texts(words@), i as int);
                    }
                    return Err(e);
                },
            };
            let raw = string_from(&w, k + 1, n);
            assert(w@.skip(k + 1) == w@.subrange(k + 1, n as int));
            let value = EnvValue::new(raw.as_str()).expand_with(defs.as_slice());
            let ghost before = defs@;
            let ghost x = (name@, split_words(raw@));
            assert(assignment(prefix.last()) == Some(x));
            let ghost prev_a = assignments(texts(words@).subrange(0, i as int))->0;
            assert(assignments(prefix) == Some(prev_a.push(x)));
            assert(prev_a.push(x).drop_last() =~= prev_a);
            assert(expand_in_order(prev_a.push(x)) == expand_in_order(prev_a).push((x.0, expand_spec(x.1, expand_in_order(prev_a)))));
            defs.push((name, value));
            proof {
                assert(defs_view(defs@) =~= defs_view(before).push((defs@.last().0@, defs@.last().1@)));
            }
            i += 1;
        }
        assert(texts(words@).subrange(0, i as int) == texts(words@));
        let mut vars: Vec<(EnvVarName, EnvValue)> = Vec::new();
        let ghost all = defs_view(defs@);
        let mut j: usize = 0;
        while j < defs.len()
            invariant
                0 <= j <= defs@.len(),
                all == defs_view(defs@),
                defs_view(vars@) == collect_defs(all.subrange(0, j as int)),
            decreases defs.len() - j,
        {
            let ghost sub = all.subrange(0, j + 1);
            assert(sub.drop_last() =~= all.subrange(0, j as int));
            assert(sub.last() == (defs@[j as int].0@, defs@[j as int].1@));
            let name = defs[j].0.copy();
            let value = defs[j].1.copy();
            Self::set_in(&mut vars, name, value);
            j += 1;
        }
        assert(all.subrange(0, j as int) == all);
        Ok(MakeEnv { vars })
    }

    /// Sets `name` to `value` in `vars`: in place where it is defined, else appended.
    fn set_in(vars: &mut Vec<(EnvVarName, EnvValue)>, name: EnvVarName, value: EnvValue)
        ensures
            defs_view(final(vars)@) == set_var(defs_view(old(vars)@), name@, value@),
    {
        match find_var(vars, name.as_str()) {
            Some(i) => {
                let ghost before = vars@;
                let ghost entry = (name@, value@);
                vars.set(i, (name, value));
                assert(defs_view(vars@) =~= defs_view(before).update(i as int, entry));
            },
            None => {
                let ghost before = vars@;
                let ghost entry = (name@, value@);
                vars.push((name, value));
                assert(defs_view(vars@) =~= defs_view(before).push(entry));
            },
        }
    }

    /// Builds an environment from the content of a make.conf or make.defaults file.
    pub fn from_content(content: &str) -> (r: Result<Self, Error>)
        ensures
            match shlex_words(content@) {
                Some(w) => match env_of_words(w) {
                    Some(e) => r matches Ok(m) && m@ == e,
                    None => r is Err,
                },
                None => r is Err,
            },
    {
        match shlex_split(content) {
            Some(words) => Self::from_words(&words),
            None => Err(Error::new("unable to split make configuration into words")),
        }
    }

    /// Returns the value of the variable `name`.
    pub fn get(&self, name: &str) -> (r: Option<&EnvValue>)
        ensures
            match var_index(self@, name@) {
                Some(i) => r matches Some(v) && v@ == self@[i].1,
                None => r is None,
            },
    {
        match find_var(&self.vars, name) {
            Some(i) => {
                assert(self@ == defs_view(self.vars@));
                assert(self@[i as int] == (self.vars@[i as int].0@, self.vars@[i as int].1@));
                let v = &self.vars[i].1;
                assert(v@ == self@[i as int].1);
                Some(v)
            },
            None => None,
        }
    }

    /// Returns the variables with their values.
    pub fn vars(&self) -> (r: &Vec<(EnvVarName, EnvValue)>)
        ensures
            defs_view(r@) == self@,
    {
        &self.vars
    }

    /// Returns a copy of this environment.
    pub fn copy(&self) -> (r: Self)
        ensures
            r@ == self@,
    {
        let mut vars: Vec<(EnvVarName, EnvValue)> = Vec::new();
        let mut i: usize = 0;
        while i < self.vars.len()
            invariant
                0 <= i <= self.vars@.len(),
                defs_view(vars@) == defs_view(self.vars@).subrange(0, i as int),
            decreases self.vars.len() - i,
        {
            let ghost before = vars@;
            let entry = (self.vars[i].0.copy(), self.vars[i].1.copy());
            vars.push(entry);
            assert(defs_view(vars@) =~= defs_view(before).push((self.vars@[i as int].0@, self.vars@[i as int].1@)));
            i += 1;
        }
        assert(defs_view(self.vars@).subrange(0, i as int) == defs_view(self.vars@));
        MakeEnv { vars }
    }

    /// Expands the references in all values with the variables of `parent`.
    pub fn expand_from(&mut self, parent: &MakeEnv)
        ensures
            final(self)@ == expand_env(old(self)@, parent@),
    {
        let ghost start = self@;
        let mut i: usize = 0;
        let n = self.vars.len();
        while i < n
            invariant
                0 <= i <= n == self.vars@.len(),
                start.len() == n,
                forall|j: int| 0 <= j < i ==> defs_view(self.vars@)[j] == expand_env(start, parent@)[j],
                forall|j: int| i <= j < n ==> defs_view(self.vars@)[j] == start[j],
            decreases n - i,
        {
            assert(defs_view(self.vars@)[i as int] == (self.vars@[i as int].0@, self.vars@[i as int].1@));
            let expanded = self.vars[i].1.expand_with(parent.vars.as_slice());
            let name = self.vars[i].0.copy();
            let ghost before = self.vars@;
            self.vars.set(i, (name, expanded));
            proof {
                assert forall|j: int| 0 <= j < n && j != i implies defs_view(self.vars@)[j] == defs_view(before)[j] by {
                    assert(self.vars@[j] == before[j]);
                }
            }
            i += 1;
        }
        assert(defs_view(self.vars@) =~= expand_env(start, parent@));
    }

    /// Inherits from `parent`, with the names in `extra` incremental besides the fixed
    /// ones: values are expanded with the parent's variables, an incremental variable is
    /// merged with the parent's value (parent first), a variable only the parent has is
    /// taken over, and an incremental variable only this environment has is merged.
    fn inherit_vars(&mut self, parent: &MakeEnv, extra: &Vec<String>)
        ensures
            final(self)@ == inherit_env(old(self)@, parent@, texts(extra@)),
    {
        self.expand_from(parent);
        let ghost expanded = self@;
        let ghost ex = texts(extra@);
        let mut k: usize = 0;
        while k < parent.vars.len()
            invariant
                0 <= k <= parent.vars@.len(),
                parent@ == defs_view(parent.vars@),
                self@ == defs_view(self.vars@),
                self@ == take_parent(expanded, parent@.subrange(0, k as int), ex),
                ex == texts(extra@),
            decreases parent.vars.len() - k,
        {
            let ghost sub = parent@.subrange(0, k + 1);
            assert(sub.drop_last() =~= parent@.subrange(0, k as int));
            assert(sub.last() == (parent.vars@[k as int].0@, parent.vars@[k as int].1@));
            let ghost before = defs_view(self.vars@);
            let name = parent.vars[k].0.copy();
            let inc = is_incremental_exec(extra, name.as_str());
            match find_var(&self.vars, name.as_str()) {
                Some(i) => {
                    if inc {
                        let mut v = self.vars[i].1.copy();
                        v.inherit(&parent.vars[k].1);
                        let ghost entry = (name@, v@);
                        self.vars.set(i, (name, v));
                        assert(defs_view(self.vars@) =~= before.update(i as int, entry));
                    }
                },
                None => {
                    let mut v = parent.vars[k].1.copy();
                    if inc {
                        v.normalize();
                    }
                    let ghost entry = (name@, v@);
                    self.vars.push((name, v));
                    assert(defs_view(self.vars@) =~= before.push(entry));
                },
            }
            k += 1;
        }
        assert(parent@.subrange(0, k as int) == parent@);
        let ghost taken = self@;
        let n = self.vars.len();
        let mut i: usize = 0;
        while i < n
            invariant
                0 <= i <= n == self.vars@.len() == taken.len(),
                parent@ == defs_view(parent.vars@),
                ex == texts(extra@),
                forall|j: int| 0 <= j < i ==> defs_view(self.vars@)[j] == normalize_own(taken, parent@, ex)[j],
                forall|j: int| i <= j < n ==> defs_view(self.vars@)[j] == taken[j],
            decreases n - i,
        {
            assert(defs_view(self.vars@)[i as int] == (self.vars@[i as int].0@, self.vars@[i as int].1@));
            let name = self.vars[i].0.copy();
            if is_incremental_exec(extra, name.as_str()) && find_var(&parent.vars, name.as_str()).is_none() {
                let mut v = self.vars[i].1.copy();
                v.normalize();
                let ghost before = self.vars@;
                self.vars.set(i, (name, v));
                proof {
                    assert forall|j: int| 0 <= j < n && j != i implies defs_view(self.vars@)[j] == defs_view(before)[j] by {
                        assert(self.vars@[j] == before[j]);
                    }
                }
            }
            i += 1;
        }
        assert(defs_view(self.vars@) =~= normalize_own(taken, parent@, ex));
    }

    /// Folds the `layers` in order, each inheriting from the ones before, with the names
    /// in `extra` incremental besides the fixed ones.
    pub fn fold(layers: &[&MakeEnv], extra: &Vec<String>) -> (r: MakeEnv)
        ensures
            r@ == fold_envs(env_views(layers@), texts(extra@)),
    {
        let mut folded = MakeEnv::new();
        let mut i: usize = 0;
        while i < layers.len()
            invariant
                0 <= i <= layers@.len(),
                folded@ == fold_envs(env_views(layers@.subrange(0, i as int)), texts(extra@)),
            decreases layers.len() - i,
        {
            let ghost sub = env_views(layers@.subrange(0, i + 1));
            assert(sub.drop_last() =~= env_views(layers@.subrange(0, i as int)));
            assert(sub.last() == layers@[i as int]@);
            let mut child = layers[i].copy();
            child.inherit_vars(&folded, extra);
            folded = child;
            i += 1;
        }
        assert(layers@.subrange(0, i as int) == layers@);
        folded
    }

    /// Folds the `layers` in order with the USE expansion groups incremental: the groups
    /// named by `USE_EXPAND` and `USE_EXPAND_UNPREFIXED` after a first fold with the fixed
    /// incremental variables only. A group named by both is an error.
    pub fn fold_with_use_expand(layers: &[&MakeEnv]) -> (r: Result<MakeEnv, Error>)
        ensures
            ({
                let provisional = fold_envs(env_views(layers@), Seq::empty());
                if use_expand_overlap(provisional) {
                    r is Err
                } else {
                    r matches Ok(m) && m@ == fold_envs(env_views(layers@), use_expand_names(provisional))
                }
            }),
    {
        match Self::incremental_vars(layers) {
            Ok(extra) => Ok(Self::fold(layers, &extra)),
            Err(e) => Err(e),
        }
    }

    /// The USE expansion groups of the `layers` folded with the fixed incremental variables
    /// only: the prefixed ones, then the unprefixed ones. A group named by both is an error.
    pub fn incremental_vars(layers: &[&MakeEnv]) -> (r: Result<Vec<String>, Error>)
        ensures
            ({
                let provisional = fold_envs(env_views(layers@), Seq::empty());
                if use_expand_overlap(provisional) {
                    r is Err
                } else {
                    r matches Ok(v) && texts(v@) == use_expand_names(provisional)
                }
            }),
    {
        let none: Vec<String> = Vec::new();
        assert(texts(none@) =~= Seq::<Seq<char>>::empty());
        let provisional = Self::fold(layers, &none);
        let empty: Vec<String> = Vec::new();
        let prefixed: &Vec<String> = match provisional.get("USE_EXPAND") {
            Some(v) => v.iter(),
            None => &empty,
        };
        let unprefixed: &Vec<String> = match provisional.get("USE_EXPAND_UNPREFIXED") {
            Some(v) => v.iter(),
            None => &empty,
        };
        assert(texts(empty@) =~= Seq::<Seq<char>>::empty());
        assert(texts(prefixed@) == words_of(provisional@, "USE_EXPAND"@));
        assert(texts(unprefixed@) == words_of(provisional@, "USE_EXPAND_UNPREFIXED"@));
        let mut extra: Vec<String> = Vec::new();
        let mut a: usize = 0;
        while a < prefixed.len()
            invariant
                0 <= a <= prefixed@.len(),
                texts(extra@) == texts(prefixed@).subrange(0, a as int),
                texts(prefixed@) == words_of(provisional@, "USE_EXPAND"@),
                texts(unprefixed@) == words_of(provisional@, "USE_EXPAND_UNPREFIXED"@),
                provisional@ == fold_envs(env_views(layers@), Seq::empty()),
                forall|x: int, y: int| 0 <= x < a && 0 <= y < unprefixed@.len() ==> texts(prefixed@)[x] != texts(unprefixed@)[y],
            decreases prefixed.len() - a,
        {
            let mut b: usize = 0;
            while b < unprefixed.len()
                invariant
                    0 <= b <= unprefixed@.len(),
                    a < prefixed@.len(),
                    texts(prefixed@) == words_of(provisional@, "USE_EXPAND"@),
                    texts(unprefixed@) == words_of(provisional@, "USE_EXPAND_UNPREFIXED"@),
                    provisional@ == fold_envs(env_views(layers@), Seq::empty()),
                    forall|y: int| 0 <= y < b ==> texts(prefixed@)[a as int] != texts(unprefixed@)[y],
                decreases unprefixed.len() - b,
            {
                if str_eq(prefixed[a].as_str(), unprefixed[b].as_str()) {
                    proof {
                        let w = texts(prefixed@)[a as int];
                        assert(texts(prefixed@)[a as int] == prefixed@[a as int]@);
                        assert(texts(unprefixed@)[b as int] == unprefixed@[b as int]@);
                        assert(words_of(provisional@, "USE_EXPAND"@).contains(w));
                        assert(words_of(provisional@, "USE_EXPAND_UNPREFIXED"@).contains(w));
                    }
                    return Err(Error::with_subject(
                        "USE expansion group is both prefixed and unprefixed",
                        prefixed[a].as_str(),
                    ));
                }
                b += 1;
            }
            let ghost before = extra@;
            extra.push(prefixed[a].clone());
            assert(texts(extra@) =~= texts(before).push(prefixed@[a as int]@));
            a += 1;
        }
        assert(texts(prefixed@).subrange(0, a as int) == texts(prefixed@));
        let mut c: usize = 0;
        while c < unprefixed.len()
            invariant
                0 <= c <= unprefixed@.len(),
                texts(extra@) == texts(prefixed@) + texts(unprefixed@).subrange(0, c as int),
                texts(prefixed@) == words_of(provisional@, "USE_EXPAND"@),
                texts(unprefixed@) == words_of(provisional@, "USE_EXPAND_UNPREFIXED"@),
                forall|x: int, y: int| 0 <= x < prefixed@.len() && 0 <= y < unprefixed@.len() ==> texts(prefixed@)[x] != texts(unprefixed@)[y],
            decreases unprefixed.len() - c,
        {
            let ghost before = extra@;
            extra.push(unprefixed[c].clone());
            assert(texts(extra@) =~= texts(before).push(unprefixed@[c as int]@));
            c += 1;
        }
        assert(texts(unprefixed@).subrange(0, c as int) == texts(unprefixed@));
        proof {
            if use_expand_overlap(provisional@) {
                let w = choose|w: Seq<char>|
                    words_of(provisional@, "USE_EXPAND"@).contains(w) && #[trigger] words_of(provisional@, "USE_EXPAND_UNPREFIXED"@).contains(w);
                let x = choose|x: int| 0 <= x < texts(prefixed@).len() && texts(prefixed@)[x] == w;
                let y = choose|y: int| 0 <= y < texts(unprefixed@).len() && texts(unprefixed@)[y] == w;
                assert(false);
            }
        }
        Ok(extra)
    }

    /// Inherits from `parent` with the fixed incremental variables only.
    pub fn inherit_from(&mut self, parent: &MakeEnv)
        ensures
            final(self)@ == inherit_env(old(self)@, parent@, Seq::empty()),
    {
        let extra: Vec<String> = Vec::new();
        assert(texts(extra@) =~= Seq::<Seq<char>>::empty());
        self.inherit_vars(parent, &extra);
    }
}

/// Where the prefix of the words up to `i` holds a word that is no assignment, so do all
/// the words.
proof fn lemma_assignments_prefix_none(words: Seq<Seq<char>>, i: int)
    requires
        0 <= i < words.len(),
        assignment(words[i]) is None,
    ensures
        assignments(words) is None,
        env_of_words(words) is None,
    decreases words.len(),
{
    if i < words.len() - 1 {
        lemma_assignments_prefix_none(words.drop_last(), i);
    }
}

} // verus!
