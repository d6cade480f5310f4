//! USE expansion groups (`USE_EXPAND`, `USE_EXPAND_UNPREFIXED`): variables whose values
//! stand for USE flags, such as `VIDEO_CARDS="amdgpu"` for `video_cards_amdgpu`.
use crate::deps::useflag::UseFlag;
use crate::error::{Error, subject_message};
use crate::files::entry::{Entry, Operation, Precedence};
use crate::makenv::{EnvView, MakeEnv, words_of};
use crate::text::{append_str, chars_of, push_char, str_eq, texts};
use vstd::prelude::*;

verus! {

/// `c` in lower case, for ASCII letters.
pub open spec fn lower_char(c: char) -> char {
    match c {
        'A' => 'a',
        'B' => 'b',
        'C' => 'c',
        'D' => 'd',
        'E' => 'e',
        'F' => 'f',
        'G' => 'g',
        'H' => 'h',
        'I' => 'i',
        'J' => 'j',
        'K' => 'k',
        'L' => 'l',
        'M' => 'm',
        'N' => 'n',
        'O' => 'o',
        'P' => 'p',
        'Q' => 'q',
        'R' => 'r',
        'S' => 's',
        'T' => 't',
        'U' => 'u',
        'V' => 'v',
        'W' => 'w',
        'X' => 'x',
        'Y' => 'y',
        'Z' => 'z',
        _ => c,
    }
}

/// `s` with its ASCII letters in lower case.
pub open spec fn ascii_lower(s: Seq<char>) -> Seq<char> {
    s.map_values(|c: char| lower_char(c))
}

/// Returns `c` in lower case, for ASCII letters.
fn lower_char_exec(c: char) -> (r: char)
    ensures
        r == lower_char(c),
{
    match c {
        'A' => 'a',
        'B' => 'b',
        'C' => 'c',
        'D' => 'd',
        'E' => 'e',
        'F' => 'f',
        'G' => 'g',
        'H' => 'h',
        'I' => 'i',
        'J' => 'j',
        'K' => 'k',
        'L' => 'l',
        'M' => 'm',
        'N' => 'n',
        'O' => 'o',
        'P' => 'p',
        'Q' => 'q',
        'R' => 'r',
        'S' => 's',
        'T' => 't',
        'U' => 'u',
        'V' => 'v',
        'W' => 'w',
        'X' => 'x',
        'Y' => 'y',
        'Z' => 'z',
        _ => c,
    }
}

/// Returns `s` with its ASCII letters in lower case.
pub fn to_ascii_lower(s: &str) -> (r: String)
    ensures
        r@ == ascii_lower(s@),
{
    let v = chars_of(s);
    let mut out = String::new();
    let mut i: usize = 0;
    while i < v.len()
        invariant
            0 <= i <= v@.len(),
            v@ == s@,
            out@ =~= ascii_lower(v@.subrange(0, i as int)),
        decreases v.len() - i,
    {
        push_char(&mut out, lower_char_exec(v[i]));
        assert(ascii_lower(v@.subrange(0, i + 1)) =~= ascii_lower(v@.subrange(0, i as int)).push(lower_char(v@[i as int])));
        i += 1;
    }
    assert(v@.subrange(0, i as int) =~= v@);
    out
}

/// The USE expansion groups of an environment: the prefixed ones (`USE_EXPAND`), whose
/// values stand for `group_value` in lower case, and the unprefixed ones
/// (`USE_EXPAND_UNPREFIXED`), whose values are flags themselves.
pub open spec fn expand_config_of(env: EnvView) -> (Seq<Seq<char>>, Seq<Seq<char>>) {
    (words_of(env, "USE_EXPAND"@), words_of(env, "USE_EXPAND_UNPREFIXED"@))
}

/// The flag that `value` of `group` stands for; `None` for a group of neither kind.
pub open spec fn group_flag(cfg: (Seq<Seq<char>>, Seq<Seq<char>>), group: Seq<char>, value: Seq<char>) -> Option<
    Seq<char>,
> {
    if cfg.0.contains(group) {
        Some(prefixed_flag(group, value))
    } else if cfg.1.contains(group) {
        Some(value)
    } else {
        None
    }
}

/// The flag of `value` in the prefixed group `group`.
pub open spec fn prefixed_flag(group: Seq<char>, value: Seq<char>) -> Seq<char> {
    ascii_lower(group) + seq!['_'] + value
}

/// The flags that the words of one group give, each enabled unless written with `-`.
pub open spec fn group_states(group: Seq<char>, prefixed: bool, words: Seq<Seq<char>>) -> Seq<(Seq<char>, bool)> {
    words.map_values(
        |w: Seq<char>|
            (
                if prefixed {
                    prefixed_flag(group, entry_value(w))
                } else {
                    entry_value(w)
                },
                !(w.len() > 0 && w[0] == '-'),
            ),
    )
}

/// A word without its leading `-`.
pub open spec fn entry_value(w: Seq<char>) -> Seq<char> {
    if w.len() > 0 && w[0] == '-' {
        w.skip(1)
    } else {
        w
    }
}

/// The flags that the variables of `groups` in `env` give, group by group.
pub open spec fn groups_states(groups: Seq<Seq<char>>, prefixed: bool, env: EnvView) -> Seq<(Seq<char>, bool)>
    decreases groups.len(),
{
    if groups.len() == 0 {
        Seq::empty()
    } else {
        groups_states(groups.drop_last(), prefixed, env) + group_states(
            groups.last(),
            prefixed,
            words_of(env, groups.last()),
        )
    }
}

/// The flags that the USE expansion variables of `env` give, prefixed groups first.
pub open spec fn materialized(cfg: (Seq<Seq<char>>, Seq<Seq<char>>), env: EnvView) -> Seq<(Seq<char>, bool)> {
    groups_states(cfg.0, true, env) + groups_states(cfg.1, false, env)
}

/// All flags are valid flags.
pub open spec fn all_flags_valid(fs: Seq<(Seq<char>, bool)>) -> bool {
    forall|i: int| 0 <= i < fs.len() ==> (#[trigger] fs[i]).0.len() > 0
}

/// Returns `true` if `v` holds the text `s`.
pub fn contains_str(v: &Vec<String>, s: &str) -> (r: bool)
    ensures
        r == texts(v@).contains(s@),
{
    let mut i: usize = 0;
    while i < v.len()
        invariant
            0 <= i <= v@.len(),
            forall|j: int| 0 <= j < i ==> texts(v@)[j] != s@,
        decreases v.len() - i,
    {
        if str_eq(v[i].as_str(), s) {
            assert(texts(v@)[i as int] == s@);
            return true;
        }
        i += 1;
    }
    false
}

/// The USE expansion groups in effect.
#[derive(Debug)]
pub struct UseExpandConfig {
    prefixed: Vec<String>,
    unprefixed: Vec<String>,
}

impl View for UseExpandConfig {
    type V = (Seq<Seq<char>>, Seq<Seq<char>>);

    closed spec fn view(&self) -> (Seq<Seq<char>>, Seq<Seq<char>>) {
        (texts(self.prefixed@), texts(self.unprefixed@))
    }
}

/// Copies the words of the variable `name` of `env`.
pub fn var_words(env: &MakeEnv, name: &str) -> (r: Vec<String>)
    ensures
        texts(r@) == words_of(env@, name@),
{
    match env.get(name) {
        Some(v) => {
            let ws = v.iter();
            let mut out: Vec<String> = Vec::new();
            let mut i: usize = 0;
            while i < ws.len()
                invariant
                    0 <= i <= ws@.len(),
                    texts(out@) =~= texts(ws@).subrange(0, i as int),
                decreases ws.len() - i,
            {
                let ghost before = texts(out@);
                out.push(ws[i].clone());
                assert(texts(out@) =~= before.push(ws@[i as int]@));
                assert(texts(ws@).subrange(0, i + 1) =~= texts(ws@).subrange(0, i as int).push(ws@[i as int]@));
                i += 1;
            }
            assert(texts(ws@).subrange(0, i as int) =~= texts(ws@));
            out
        },
        None => {
            let out: Vec<String> = Vec::new();
            assert(texts(out@) =~= Seq::<Seq<char>>::empty());
            out
        },
    }
}

impl UseExpandConfig {
    /// Reads the groups of `env`; a group that is both prefixed and unprefixed is an error.
    pub fn from_makenv(env: &MakeEnv) -> (r: Result<Self, Error>)
        ensures
            crate::makenv::use_expand_overlap(env@) ==> r is Err,
            !crate::makenv::use_expand_overlap(env@) ==> (r matches Ok(c) && c@ == expand_config_of(env@)),
    {
        let prefixed = var_words(env, "USE_EXPAND");
        let unprefixed = var_words(env, "USE_EXPAND_UNPREFIXED");
        let mut a: usize = 0;
        while a < prefixed.len()
            invariant
                0 <= a <= prefixed@.len(),
                texts(prefixed@) == words_of(env@, "USE_EXPAND"@),
                texts(unprefixed@) == words_of(env@, "USE_EXPAND_UNPREFIXED"@),
                forall|x: int| 0 <= x < a ==> !texts(unprefixed@).contains(#[trigger] texts(prefixed@)[x]),
            decreases prefixed.len() - a,
        {
            if contains_str(&unprefixed, prefixed[a].as_str()) {
                proof {
                    let w = texts(prefixed@)[a as int];
                    assert(words_of(env@, "USE_EXPAND"@).contains(w));
                }
                return Err(Error::with_subject("USE expansion group is both prefixed and unprefixed", prefixed[a].as_str()));
            }
            a += 1;
        }
        proof {
            if crate::makenv::use_expand_overlap(env@) {
                let w = choose|w: Seq<char>|
                    words_of(env@, "USE_EXPAND"@).contains(w) && #[trigger] words_of(env@, "USE_EXPAND_UNPREFIXED"@).contains(w);
                let x = choose|x: int| 0 <= x < texts(prefixed@).len() && texts(prefixed@)[x] == w;
                assert(!texts(unprefixed@).contains(texts(prefixed@)[x]));
            }
        }
        Ok(UseExpandConfig { prefixed, unprefixed })
    }

    /// Returns `true` if `group` is a prefixed group.
    pub fn is_prefixed(&self, group: &str) -> (r: bool)
        ensures
            r == self@.0.contains(group@),
    {
        contains_str(&self.prefixed, group)
    }

    /// Returns `true` if `group` is an unprefixed group.
    pub fn is_unprefixed(&self, group: &str) -> (r: bool)
        ensures
            r == self@.1.contains(group@),
    {
        contains_str(&self.unprefixed, group)
    }

    /// Returns the entry of `value` of `group` as the flag it stands for: `group_value` in
    /// lower case for a prefixed group, `value` for an unprefixed one. An unknown group
    /// is an error.
    pub fn expand_entry(&self, group: &str, entry: Entry<UseFlag>) -> (r: Result<Entry<UseFlag>, Error>)
        ensures
            match group_flag(self@, group@, entry@.2) {
                Some(f) => r matches Ok(e) && e@ == (entry@.0, entry@.1, f),
                None => r matches Err(e) && e.text() == subject_message("unknown USE expansion group"@, group@),
            },
    {
        if self.is_prefixed(group) {
            let flag = prefixed_flag_string(group, entry.inner().as_str());
            let prec = entry.precedence();
            let op = entry.operation();
            match UseFlag::new(flag) {
                Ok(f) => Ok(Entry::from_parts(prec, op, f)),
                Err(e) => Err(e),
            }
        } else if self.is_unprefixed(group) {
            Ok(entry)
        } else {
            Err(Error::with_subject("unknown USE expansion group", group))
        }
    }

    /// Returns the flags that the USE expansion variables of `env` give, each enabled
    /// unless written with `-`: the prefixed groups first. An empty flag is an error.
    pub fn materialize(&self, env: &MakeEnv) -> (r: Result<Vec<(UseFlag, bool)>, Error>)
        ensures
            all_flags_valid(materialized(self@, env@)) ==> (r matches Ok(v) && v@.map_values(
                |p: (UseFlag, bool)| (p.0@, p.1),
            ) == materialized(self@, env@)),
            !all_flags_valid(materialized(self@, env@)) ==> r is Err,
    {
        let mut out: Vec<(UseFlag, bool)> = Vec::new();
        let ghost all = materialized(self@, env@);
        let mut g: usize = 0;
        while g < self.prefixed.len()
            invariant
                0 <= g <= self.prefixed@.len(),
                out@.map_values(|p: (UseFlag, bool)| (p.0@, p.1)) == groups_states(texts(self.prefixed@).subrange(0, g as int), true, env@),
                all_flags_valid(out@.map_values(|p: (UseFlag, bool)| (p.0@, p.1))),
            decreases self.prefixed.len() - g,
        {
            let ghost sub = texts(self.prefixed@).subrange(0, g + 1);
            assert(sub.drop_last() =~= texts(self.prefixed@).subrange(0, g as int));
            assert(sub.last() == self.prefixed@[g as int]@);
            let ghost before = out@.map_values(|p: (UseFlag, bool)| (p.0@, p.1));
            match push_group_states(&mut out, self.prefixed[g].as_str(), true, env) {
                Ok(()) => {
                    proof {
                        lemma_valid_concat(before, group_states(sub.last(), true, words_of(env@, sub.last())));
                    }
                },
                Err(e) => {
                    proof {
                        lemma_invalid_extends(texts(self.prefixed@), g as int + 1, true, env@, texts(self.unprefixed@));
                    }
                    return Err(e);
                },
            }
            g += 1;
        }
        assert(texts(self.prefixed@).subrange(0, g as int) =~= texts(self.prefixed@));
        let ghost first = groups_states(texts(self.prefixed@), true, env@);
        let mut h: usize = 0;
        while h < self.unprefixed.len()
            invariant
                0 <= h <= self.unprefixed@.len(),
                first == groups_states(texts(self.prefixed@), true, env@),
                out@.map_values(|p: (UseFlag, bool)| (p.0@, p.1)) == first + groups_states(
                    texts(self.unprefixed@).subrange(0, h as int),
                    false,
                    env@,
                ),
                all_flags_valid(out@.map_values(|p: (UseFlag, bool)| (p.0@, p.1))),
            decreases self.unprefixed.len() - h,
        {
            let ghost sub = texts(self.unprefixed@).subrange(0, h + 1);
            assert(sub.drop_last() =~= texts(self.unprefixed@).subrange(0, h as int));
            assert(sub.last() == self.unprefixed@[h as int]@);
            let ghost before = out@.map_values(|p: (UseFlag, bool)| (p.0@, p.1));
            match push_group_states(&mut out, self.unprefixed[h].as_str(), false, env) {
                Ok(()) => {
                    proof {
                        lemma_valid_concat(before, group_states(sub.last(), false, words_of(env@, sub.last())));
                    }
                    assert(first + groups_states(sub, false, env@) =~= before + group_states(
                        sub.last(),
                        false,
                        words_of(env@, sub.last()),
                    ));
                },
                Err(e) => {
                    proof {
                        lemma_invalid_tail(first, texts(self.unprefixed@), h as int + 1, env@);
                    }
                    return Err(e);
                },
            }
            h += 1;
        }
        assert(texts(self.unprefixed@).subrange(0, h as int) =~= texts(self.unprefixed@));
        Ok(out)
    }

    /// Returns the flags that `USE_EXPAND_IMPLICIT` of `env` makes implicit: the values
    /// in `USE_EXPAND_VALUES_<group>` of each implicit group that is a known group.
    pub fn implicit_flags(&self, env: &MakeEnv) -> (r: Result<Vec<UseFlag>, Error>)
        ensures
            nonempty_all(implicit_of(self@, env@, words_of(env@, "USE_EXPAND_IMPLICIT"@))) ==> (r matches Ok(v)
                && v@.map_values(|f: UseFlag| f@) == implicit_of(self@, env@, words_of(env@, "USE_EXPAND_IMPLICIT"@))),
            !nonempty_all(implicit_of(self@, env@, words_of(env@, "USE_EXPAND_IMPLICIT"@))) ==> r is Err,
    {
        let groups = var_words(env, "USE_EXPAND_IMPLICIT");
        let ghost gs = texts(groups@);
        let mut out: Vec<UseFlag> = Vec::new();
        let mut i: usize = 0;
        while i < groups.len()
            invariant
                0 <= i <= groups@.len(),
                gs == texts(groups@),
                gs == words_of(env@, "USE_EXPAND_IMPLICIT"@),
                out@.map_values(|f: UseFlag| f@) == implicit_of(self@, env@, gs.subrange(0, i as int)),
                nonempty_all(out@.map_values(|f: UseFlag| f@)),
            decreases groups.len() - i,
        {
            let ghost sub = gs.subrange(0, i + 1);
            assert(sub.drop_last() =~= gs.subrange(0, i as int));
            assert(gs.len() == groups@.len());
            let g = groups[i].as_str();
            assert(sub.last() == g@);
            let ghost start = out@.map_values(|f: UseFlag| f@);
            let prefixed = self.is_prefixed(g);
            if prefixed || self.is_unprefixed(g) {
                let mut name = String::new();
                append_str(&mut name, "USE_EXPAND_VALUES_");
                append_str(&mut name, g);
                assert(name@ =~= "USE_EXPAND_VALUES_"@ + g@);
                let values = var_words(env, name.as_str());
                let ghost flags = implicit_group_flags(self@, g@, texts(values@));
                let mut j: usize = 0;
                while j < values.len()
                    invariant
                        0 <= j <= values@.len(),
                        flags == implicit_group_flags(self@, g@, texts(values@)),
                        prefixed == self@.0.contains(g@),
                        out@.map_values(|f: UseFlag| f@) =~= start + flags.subrange(0, j as int),
                        nonempty_all(out@.map_values(|f: UseFlag| f@)),
                        i < gs.len(),
                        gs[i as int] == g@,
                        gs == words_of(env@, "USE_EXPAND_IMPLICIT"@),
                        self@.0.contains(g@) || self@.1.contains(g@),
                        texts(values@) == words_of(env@, "USE_EXPAND_VALUES_"@ + g@),
                    decreases values.len() - j,
                {
                    let w = values[j].as_str();
                    let text = if prefixed {
                        prefixed_flag_string(g, w)
                    } else {
                        w.to_owned()
                    };
                    assert(text@ == flags[j as int]);
                    match UseFlag::new(text) {
                        Ok(f) => {
                            let ghost before = out@.map_values(|f: UseFlag| f@);
                            out.push(f);
                            assert(out@.map_values(|f: UseFlag| f@) =~= before.push(flags[j as int]));
                            assert(flags.subrange(0, j + 1) =~= flags.subrange(0, j as int).push(flags[j as int]));
                        },
                        Err(e) => {
                            proof {
                                lemma_implicit_invalid(self@, env@, gs, i as int, j as int);
                            }
                            return Err(e);
                        },
                    }
                    j += 1;
                }
                assert(flags.subrange(0, j as int) =~= flags);
                assert(words_of(env@, "USE_EXPAND_VALUES_"@ + g@) == texts(values@));
            } else {
                assert(implicit_of(self@, env@, sub) =~= implicit_of(self@, env@, gs.subrange(0, i as int)));
            }
            i += 1;
        }
        assert(gs.subrange(0, i as int) =~= gs);
        Ok(out)
    }
}

/// The implicit flags of one known group.
pub open spec fn implicit_group_flags(cfg: (Seq<Seq<char>>, Seq<Seq<char>>), g: Seq<char>, values: Seq<Seq<char>>) -> Seq<
    Seq<char>,
> {
    values.map_values(
        |w: Seq<char>|
            if cfg.0.contains(g) {
                prefixed_flag(g, w)
            } else {
                w
            },
    )
}

/// The implicit flags of the known groups among `groups`, group by group.
pub open spec fn implicit_of(cfg: (Seq<Seq<char>>, Seq<Seq<char>>), env: EnvView, groups: Seq<Seq<char>>) -> Seq<
    Seq<char>,
>
    decreases groups.len(),
{
    if groups.len() == 0 {
        Seq::empty()
    } else {
        let g = groups.last();
        implicit_of(cfg, env, groups.drop_last()) + if cfg.0.contains(g) || cfg.1.contains(g) {
            implicit_group_flags(cfg, g, words_of(env, "USE_EXPAND_VALUES_"@ + g))
        } else {
            Seq::empty()
        }
    }
}

/// No text is empty.
pub open spec fn nonempty_all(s: Seq<Seq<char>>) -> bool {
    forall|i: int| 0 <= i < s.len() ==> (#[trigger] s[i]).len() > 0
}

/// An empty implicit flag makes the implicit flags invalid.
proof fn lemma_implicit_invalid(
    cfg: (Seq<Seq<char>>, Seq<Seq<char>>),
    env: EnvView,
    gs: Seq<Seq<char>>,
    i: int,
    j: int,
)
    requires
        0 <= i < gs.len(),
        cfg.0.contains(gs[i]) || cfg.1.contains(gs[i]),
        0 <= j < words_of(env, "USE_EXPAND_VALUES_"@ + gs[i]).len(),
        implicit_group_flags(cfg, gs[i], words_of(env, "USE_EXPAND_VALUES_"@ + gs[i]))[j].len() == 0,
    ensures
        !nonempty_all(implicit_of(cfg, env, gs)),
    decreases gs.len(),
{
    let rest = implicit_of(cfg, env, gs.drop_last());
    if i == gs.len() - 1 {
        let tail = implicit_group_flags(cfg, gs[i], words_of(env, "USE_EXPAND_VALUES_"@ + gs[i]));
        assert(implicit_of(cfg, env, gs)[rest.len() + j] == tail[j]);
    } else {
        assert(gs.drop_last()[i] == gs[i]);
        lemma_implicit_invalid(cfg, env, gs.drop_last(), i, j);
        let k = choose|k: int| 0 <= k < rest.len() && !((#[trigger] rest[k]).len() > 0);
        assert(implicit_of(cfg, env, gs)[k] == rest[k]);
    }
}

/// Returns `group_value` with the group in lower case.
fn prefixed_flag_string(group: &str, value: &str) -> (r: String)
    ensures
        r@ == prefixed_flag(group@, value@),
{
    let mut s = to_ascii_lower(group);
    push_char(&mut s, '_');
    append_str(&mut s, value);
    s
}

/// Appends the flags that the variable of `group` in `env` gives.
fn push_group_states(out: &mut Vec<(UseFlag, bool)>, group: &str, prefixed: bool, env: &MakeEnv) -> (r: Result<(), Error>)
    ensures
        all_flags_valid(group_states(group@, prefixed, words_of(env@, group@))) ==> (r is Ok
            && final(out)@.map_values(|p: (UseFlag, bool)| (p.0@, p.1)) == old(out)@.map_values(
            |p: (UseFlag, bool)| (p.0@, p.1),
        ) + group_states(group@, prefixed, words_of(env@, group@))),
        !all_flags_valid(group_states(group@, prefixed, words_of(env@, group@))) ==> r is Err,
        r is Ok ==> all_flags_valid(group_states(group@, prefixed, words_of(env@, group@))),
{
    let words = var_words(env, group);
    let ghost start = out@.map_values(|p: (UseFlag, bool)| (p.0@, p.1));
    let ghost gs = group_states(group@, prefixed, words_of(env@, group@));
    let mut i: usize = 0;
    while i < words.len()
        invariant
            0 <= i <= words@.len(),
            texts(words@) == words_of(env@, group@),
            gs == group_states(group@, prefixed, texts(words@)),
            out@.map_values(|p: (UseFlag, bool)| (p.0@, p.1)) =~= start + gs.subrange(0, i as int),
            forall|k: int| 0 <= k < i ==> (#[trigger] gs[k]).0.len() > 0,
        decreases words.len() - i,
    {
        let v = chars_of(words[i].as_str());
        let negative = v.len() > 0 && v[0] == '-';
        let body = if negative {
            crate::text::string_from(&v, 1, v.len())
        } else {
            words[i].clone()
        };
        assert(body@ == entry_value(texts(words@)[i as int])) by {
            if negative {
                assert(body@ =~= v@.skip(1));
            }
        }
        let text = if prefixed {
            prefixed_flag_string(group, body.as_str())
        } else {
            body
        };
        assert(text@ == gs[i as int].0);
        match UseFlag::new(text) {
            Ok(f) => {
                let ghost before = out@.map_values(|p: (UseFlag, bool)| (p.0@, p.1));
                out.push((f, !negative));
                assert(out@.map_values(|p: (UseFlag, bool)| (p.0@, p.1)) =~= before.push(gs[i as int]));
                assert(gs.subrange(0, i + 1) =~= gs.subrange(0, i as int).push(gs[i as int]));
            },
            Err(e) => {
                assert(!all_flags_valid(gs));
                return Err(e);
            },
        }
        i += 1;
    }
    assert(gs.subrange(0, i as int) =~= gs);
    Ok(())
}

/// Valid flags followed by valid flags are valid.
proof fn lemma_valid_concat(a: Seq<(Seq<char>, bool)>, b: Seq<(Seq<char>, bool)>)
    requires
        all_flags_valid(a),
        all_flags_valid(b),
    ensures
        all_flags_valid(a + b),
{
    assert forall|i: int| 0 <= i < (a + b).len() implies (#[trigger] (a + b)[i]).0.len() > 0 by {
        if i < a.len() {
            assert((a + b)[i] == a[i]);
        } else {
            assert((a + b)[i] == b[i - a.len()]);
        }
    }
}

/// An invalid flag of the first groups makes all flags invalid.
proof fn lemma_invalid_extends(
    groups: Seq<Seq<char>>,
    n: int,
    prefixed: bool,
    env: EnvView,
    others: Seq<Seq<char>>,
)
    requires
        0 < n <= groups.len(),
        !all_flags_valid(group_states(groups[n - 1], prefixed, words_of(env, groups[n - 1]))),
        prefixed,
    ensures
        !all_flags_valid(groups_states(groups, true, env) + groups_states(others, false, env)),
{
    let bad = group_states(groups[n - 1], prefixed, words_of(env, groups[n - 1]));
    let k = choose|k: int| 0 <= k < bad.len() && !((#[trigger] bad[k]).0.len() > 0);
    lemma_groups_states_contains(groups, n - 1, true, env, k);
    let gs = groups_states(groups, true, env);
    let j = choose|j: int| 0 <= j < gs.len() && gs[j] == bad[k];
    assert((gs + groups_states(others, false, env))[j] == bad[k]);
}

/// An invalid flag of a later group makes all flags invalid.
proof fn lemma_invalid_tail(first: Seq<(Seq<char>, bool)>, groups: Seq<Seq<char>>, n: int, env: EnvView)
    requires
        0 < n <= groups.len(),
        !all_flags_valid(group_states(groups[n - 1], false, words_of(env, groups[n - 1]))),
    ensures
        !all_flags_valid(first + groups_states(groups, false, env)),
{
    let bad = group_states(groups[n - 1], false, words_of(env, groups[n - 1]));
    let k = choose|k: int| 0 <= k < bad.len() && !((#[trigger] bad[k]).0.len() > 0);
    lemma_groups_states_contains(groups, n - 1, false, env, k);
    let gs = groups_states(groups, false, env);
    let j = choose|j: int| 0 <= j < gs.len() && gs[j] == bad[k];
    assert((first + gs)[first.len() + j] == bad[k]);
}

/// Each flag of a group is among the flags of all groups.
proof fn lemma_groups_states_contains(groups: Seq<Seq<char>>, g: int, prefixed: bool, env: EnvView, k: int)
    requires
        0 <= g < groups.len(),
        0 <= k < group_states(groups[g], prefixed, words_of(env, groups[g])).len(),
    ensures
        exists|j: int|
            0 <= j < groups_states(groups, prefixed, env).len() && groups_states(groups, prefixed, env)[j]
                == group_states(groups[g], prefixed, words_of(env, groups[g]))[k],
    decreases groups.len(),
{
    let rest = groups_states(groups.drop_last(), prefixed, env);
    let last = group_states(groups.last(), prefixed, words_of(env, groups.last()));
    let all = groups_states(groups, prefixed, env);
    assert(all == rest + last);
    let target = group_states(groups[g], prefixed, words_of(env, groups[g]))[k];
    if g == groups.len() - 1 {
        assert(all[rest.len() + k] == target);
    } else {
        assert(groups.drop_last()[g] == groups[g]);
        lemma_groups_states_contains(groups.drop_last(), g, prefixed, env, k);
        let j = choose|j: int| 0 <= j < rest.len() && rest[j] == target;
        assert(all[j] == target);
    }
}

} // verus!
