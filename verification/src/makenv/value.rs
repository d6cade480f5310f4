//! Values of make variables: whitespace separated words with incremental semantics and
//! `$VAR` / `${VAR}` expansion.
use super::name::EnvVarName;
use crate::text::{append_str, chars_of, is_alnum, is_alpha, join_words, push_char, split_by, split_text, string_from};
pub use crate::text::texts;
use vstd::prelude::*;

verus! {

/// The words of `s`: its maximal runs of characters other than ASCII whitespace.
pub open spec fn split_words(s: Seq<char>) -> Seq<Seq<char>> {
    split_by(s, false)
}

/// The values that remain of `acc` once every `x` is removed.
pub open spec fn remove_all(acc: Seq<Seq<char>>, x: Seq<char>) -> Seq<Seq<char>>
    decreases acc.len(),
{
    if acc.len() == 0 {
        Seq::empty()
    } else if acc.last() == x {
        remove_all(acc.drop_last(), x)
    } else {
        remove_all(acc.drop_last(), x).push(acc.last())
    }
}

/// One step of incremental merging: `-*` clears, `-x` removes `x`, and any other value is
/// added where it is not present yet.
pub open spec fn merge_step(acc: Seq<Seq<char>>, v: Seq<char>) -> Seq<Seq<char>> {
    if v == seq!['-', '*'] {
        Seq::empty()
    } else if v.len() > 0 && v[0] == '-' {
        remove_all(acc, v.skip(1))
    } else if acc.contains(v) {
        acc
    } else {
        acc.push(v)
    }
}

/// Incremental merging of a list of values, in order.
pub open spec fn merge_values(vals: Seq<Seq<char>>) -> Seq<Seq<char>>
    decreases vals.len(),
{
    if vals.len() == 0 {
        Seq::empty()
    } else {
        merge_step(merge_values(vals.drop_last()), vals.last())
    }
}

/// A value holds no word twice and no word starting with `-`.
pub open spec fn is_normalized(vals: Seq<Seq<char>>) -> bool {
    &&& forall|i: int, j: int| 0 <= i < j < vals.len() ==> vals[i] != vals[j]
    &&& forall|i: int| 0 <= i < vals.len() ==> !(vals[i].len() > 0 && #[trigger] vals[i][0] == '-')
}

/// Removing keeps exactly the other values, in order.
pub proof fn lemma_remove_all(acc: Seq<Seq<char>>, x: Seq<char>)
    ensures
        forall|y: Seq<char>| #[trigger] remove_all(acc, x).contains(y) <==> (acc.contains(y) && y != x),
        is_normalized(acc) ==> is_normalized(remove_all(acc, x)),
        remove_all(acc, x).len() <= acc.len(),
    decreases acc.len(),
{
    if acc.len() > 0 {
        let rest = acc.drop_last();
        lemma_remove_all(rest, x);
        let r = remove_all(rest, x);
        assert forall|y: Seq<char>| #[trigger] remove_all(acc, x).contains(y) <==> (acc.contains(y) && y != x) by {
            let t = remove_all(acc, x);
            if acc.contains(y) && y != x {
                let k = choose|k: int| 0 <= k < acc.len() && acc[k] == y;
                if k == acc.len() - 1 {
                    assert(t == r.push(acc.last()));
                    assert(t[t.len() - 1] == y);
                } else {
                    assert(rest[k] == y);
                    assert(rest.contains(y));
                    assert(r.contains(y));
                    let m = choose|m: int| 0 <= m < r.len() && r[m] == y;
                    if acc.last() == x {
                        assert(t[m] == y);
                    } else {
                        assert(t == r.push(acc.last()));
                        assert(t[m] == y);
                    }
                }
            }
            if t.contains(y) {
                let m = choose|m: int| 0 <= m < t.len() && t[m] == y;
                if acc.last() == x {
                    assert(t == r);
                    assert(r.contains(y));
                    let k = choose|k: int| 0 <= k < rest.len() && rest[k] == y;
                    assert(acc[k] == y);
                } else {
                    assert(t == r.push(acc.last()));
                    if m == r.len() {
                        assert(acc[acc.len() - 1] == y);
                    } else {
                        assert(r[m] == y);
                        assert(r.contains(y));
                        let k = choose|k: int| 0 <= k < rest.len() && rest[k] == y;
                        assert(acc[k] == y);
                    }
                }
            }
        }
        if is_normalized(acc) {
            assert(is_normalized(rest)) by {
                assert forall|i: int| 0 <= i < rest.len() implies !(rest[i].len() > 0 && #[trigger] rest[i][0] == '-') by {
                    assert(rest[i] == acc[i]);
                }
            }
            if acc.last() != x {
                assert(!r.contains(acc.last())) by {
                    if r.contains(acc.last()) {
                        let k = choose|k: int| 0 <= k < rest.len() && rest[k] == acc.last();
                        assert(acc[k] == acc[acc.len() - 1]);
                    }
                }
                let t = r.push(acc.last());
                assert forall|i: int, j: int| 0 <= i < j < t.len() implies t[i] != t[j] by {
                    if j == t.len() - 1 {
                        assert(t[j] == acc.last());
                        assert(t[i] == r[i]);
                    }
                }
                assert forall|i: int| 0 <= i < t.len() implies !(t[i].len() > 0 && #[trigger] t[i][0] == '-') by {
                    if i == t.len() - 1 {
                        assert(acc[acc.len() - 1] == t[i]);
                    } else {
                        assert(r.contains(t[i]));
                        let k = choose|k: int| 0 <= k < rest.len() && rest[k] == t[i];
                        assert(acc[k] == t[i]);
                    }
                }
            }
        }
    }
}

/// Every merged value is normalized: no word twice, none starting with `-`.
pub proof fn lemma_merge_normalized(vals: Seq<Seq<char>>)
    ensures
        is_normalized(merge_values(vals)),
    decreases vals.len(),
{
    if vals.len() > 0 {
        let acc = merge_values(vals.drop_last());
        lemma_merge_normalized(vals.drop_last());
        let v = vals.last();
        if v == seq!['-', '*'] {
        } else if v.len() > 0 && v[0] == '-' {
            lemma_remove_all(acc, v.skip(1));
        } else if acc.contains(v) {
        } else {
            let t = acc.push(v);
            assert forall|i: int, j: int| 0 <= i < j < t.len() implies t[i] != t[j] by {
                if j == t.len() - 1 {
                    assert(t[i] == acc[i]);
                }
            }
        }
    }
}

/// Merging a normalized value again changes nothing.
pub proof fn lemma_merge_of_normalized(vals: Seq<Seq<char>>)
    requires
        is_normalized(vals),
    ensures
        merge_values(vals) == vals,
    decreases vals.len(),
{
    if vals.len() > 0 {
        let rest = vals.drop_last();
        assert(is_normalized(rest)) by {
            assert forall|i: int| 0 <= i < rest.len() implies !(rest[i].len() > 0 && #[trigger] rest[i][0] == '-') by {
                assert(rest[i] == vals[i]);
            }
        }
        lemma_merge_of_normalized(rest);
        let v = vals.last();
        assert(!(v.len() > 0 && v[0] == '-')) by {
            assert(vals[vals.len() - 1] == v);
        }
        assert(v != seq!['-', '*']) by {
            if v == seq!['-', '*'] {
                assert(v[0] == '-');
            }
        }
        assert(!rest.contains(v)) by {
            if rest.contains(v) {
                let k = choose|k: int| 0 <= k < rest.len() && rest[k] == v;
                assert(vals[k] == vals[vals.len() - 1]);
            }
        }
        assert(rest.push(v) =~= vals);
    }
}

/// The value of a make variable: a list of words.
#[derive(Debug, Clone)]
pub struct EnvValue {
    words: Vec<String>,
}


impl View for EnvValue {
    type V = Seq<Seq<char>>;

    closed spec fn view(&self) -> Seq<Seq<char>> {
        texts(self.words@)
    }
}

/// Returns `true` if `acc` holds a word equal to `v`.
fn contains_word(acc: &Vec<String>, v: &str) -> (r: bool)
    ensures
        r == texts(acc@).contains(v@),
{
    let mut i: usize = 0;
    while i < acc.len()
        invariant
            0 <= i <= acc@.len(),
            forall|j: int| 0 <= j < i ==> texts(acc@)[j] != v@,
        decreases acc.len() - i,
    {
        if crate::text::str_eq(acc[i].as_str(), v) {
            assert(texts(acc@)[i as int] == v@);
            return true;
        }
        i += 1;
    }
    false
}

/// Removes every word equal to `x` from `acc`.
fn remove_word(acc: &Vec<String>, x: &[char]) -> (r: Vec<String>)
    ensures
        texts(r@) == remove_all(texts(acc@), x@),
{
    let mut out: Vec<String> = Vec::new();
    let mut i: usize = 0;
    while i < acc.len()
        invariant
            0 <= i <= acc@.len(),
            texts(out@) == remove_all(texts(acc@).subrange(0, i as int), x@),
        decreases acc.len() - i,
    {
        let w = chars_of(acc[i].as_str());
        let ghost before = out@;
        let same = w.len() == x.len() && crate::text::range_eq(&w, 0, w.len(), x);
        proof {
            assert(w@.subrange(0, w@.len() as int) == w@);
            let sub = texts(acc@).subrange(0, i + 1);
            assert(sub.drop_last() =~= texts(acc@).subrange(0, i as int));
            assert(sub.last() == acc@[i as int]@);
        }
        if !same {
            out.push(acc[i].clone());
            proof {
                assert(texts(out@) =~= texts(before).push(acc@[i as int]@));
            }
        }
        i += 1;
    }
    assert(texts(acc@).subrange(0, i as int) == texts(acc@));
    out
}

/// Merges `vals` with incremental semantics.
fn merge_words(vals: &Vec<String>) -> (r: Vec<String>)
    ensures
        texts(r@) == merge_values(texts(vals@)),
{
    let mut acc: Vec<String> = Vec::new();
    let mut i: usize = 0;
    while i < vals.len()
        invariant
            0 <= i <= vals@.len(),
            texts(acc@) == merge_values(texts(vals@).subrange(0, i as int)),
        decreases vals.len() - i,
    {
        let ghost prev = texts(acc@);
        let v = vals[i].as_str();
        let c = chars_of(v);
        proof {
            let sub = texts(vals@).subrange(0, i + 1);
            assert(sub.drop_last() =~= texts(vals@).subrange(0, i as int));
            assert(sub.last() == vals@[i as int]@);
        }
        if c.len() == 2 && c[0] == '-' && c[1] == '*' {
            assert(c@ =~= seq!['-', '*']);
            acc = Vec::new();
            assert(texts(acc@) =~= Seq::<Seq<char>>::empty());
        } else if c.len() > 0 && c[0] == '-' {
            assert(c@ != seq!['-', '*']) by {
                if c@ == seq!['-', '*'] {
                    assert(c@.len() == 2 && c@[1] == '*');
                }
            }
            let rest = string_from(&c, 1, c.len());
            let rc = chars_of(rest.as_str());
            assert(c@.skip(1) == rc@);
            acc = remove_word(&acc, rc.as_slice());
        } else {
            assert(c@ != seq!['-', '*']) by {
                if c@ == seq!['-', '*'] {
                    assert(c@[0] == '-');
                }
            }
            if !contains_word(&acc, v) {
                let ghost before = acc@;
                acc.push(vals[i].clone());
                assert(texts(acc@) =~= texts(before).push(vals@[i as int]@));
            }
        }
        i += 1;
    }
    assert(texts(vals@).subrange(0, i as int) == texts(vals@));
    acc
}

/// The words of `text`.
fn split_into_words(text: &str) -> (r: Vec<String>)
    ensures
        texts(r@) == split_words(text@),
{
    split_text(text, false)
}

impl EnvValue {
    /// Creates a value from the whitespace separated words of `value`.
    pub fn new(value: &str) -> (r: Self)
        ensures
            r@ == split_words(value@),
    {
        EnvValue { words: split_into_words(value) }
    }

    /// Returns the words.
    pub fn iter(&self) -> (r: &Vec<String>)
        ensures
            texts(r@) == self@,
    {
        &self.words
    }

    /// Applies incremental semantics to the words: `-*` clears what came before, `-x`
    /// removes `x`, and repeated words are kept once.
    pub fn normalize(&mut self)
        ensures
            final(self)@ == merge_values(old(self)@),
    {
        self.words = merge_words(&self.words);
    }

    /// Inherits the words of `parent` with incremental semantics: the result is the merge
    /// of the parent's words followed by this value's words.
    pub fn inherit(&mut self, parent: &Self)
        ensures
            final(self)@ == merge_values(parent@ + old(self)@),
    {
        let mut all: Vec<String> = Vec::new();
        let mut i: usize = 0;
        while i < parent.words.len()
            invariant
                0 <= i <= parent.words@.len(),
                texts(all@) == texts(parent.words@).subrange(0, i as int),
            decreases parent.words.len() - i,
        {
            let ghost before = all@;
            all.push(parent.words[i].clone());
            assert(texts(all@) =~= texts(before).push(parent.words@[i as int]@));
            i += 1;
        }
        let mut j: usize = 0;
        while j < self.words.len()
            invariant
                0 <= j <= self.words@.len(),
                texts(all@) == texts(parent.words@) + texts(self.words@).subrange(0, j as int),
            decreases self.words.len() - j,
        {
            let ghost before = all@;
            all.push(self.words[j].clone());
            assert(texts(all@) =~= texts(before).push(self.words@[j as int]@));
            j += 1;
        }
        assert(texts(self.words@).subrange(0, j as int) == texts(self.words@));
        self.words = merge_words(&all);
    }

    /// Returns the words joined by single spaces.
    pub fn to_string(&self) -> (r: String)
        ensures
            r@ == join_words(self@),
    {
        let mut s = String::new();
        let mut i: usize = 0;
        while i < self.words.len()
            invariant
                0 <= i <= self.words@.len(),
                s@ == join_words(texts(self.words@).subrange(0, i as int)),
            decreases self.words.len() - i,
        {
            if i > 0 {
                push_char(&mut s, ' ');
            }
            append_str(&mut s, self.words[i].as_str());
            proof {
                let sub = texts(self.words@).subrange(0, i + 1);
                assert(sub.drop_last() =~= texts(self.words@).subrange(0, i as int));
                assert(sub.last() == self.words@[i as int]@);
                assert(s@ =~= join_words(sub));
            }
            i += 1;
        }
        assert(texts(self.words@).subrange(0, i as int) == texts(self.words@));
        s
    }

    /// Returns a copy of this value.
    pub fn copy(&self) -> (r: Self)
        ensures
            r@ == self@,
    {
        let mut words: Vec<String> = Vec::new();
        let mut i: usize = 0;
        while i < self.words.len()
            invariant
                0 <= i <= self.words@.len(),
                texts(words@) == texts(self.words@).subrange(0, i as int),
            decreases self.words.len() - i,
        {
            let ghost before = words@;
            words.push(self.words[i].clone());
            assert(texts(words@) =~= texts(before).push(self.words@[i as int]@));
            i += 1;
        }
        assert(texts(self.words@).subrange(0, i as int) == texts(self.words@));
        EnvValue { words }
    }
}

impl Default for EnvValue {
    /// A value without words.
    fn default() -> (r: Self)
        ensures
            r@ == Seq::<Seq<char>>::empty(),
    {
        let r = EnvValue { words: Vec::new() };
        assert(r@ =~= Seq::<Seq<char>>::empty());
        r
    }
}

/// Normalizing twice is normalizing once.
pub proof fn lemma_normalize_idempotent(vals: Seq<Seq<char>>)
    ensures
        merge_values(merge_values(vals)) == merge_values(vals),
        is_normalized(merge_values(vals)),
{
    lemma_merge_normalized(vals);
    lemma_merge_of_normalized(merge_values(vals));
}

/// Characters of a variable name after its first letter.
pub open spec fn is_name_char(c: char) -> bool {
    is_alnum(c) || c == '_'
}

/// Length of the run of name characters at the start of `s`.
pub open spec fn name_run(s: Seq<char>) -> nat
    decreases s.len(),
{
    if s.len() > 0 && is_name_char(s[0]) {
        1 + name_run(s.drop_first())
    } else {
        0
    }
}

/// Bounds of [`name_run`].
proof fn lemma_name_run(s: Seq<char>)
    ensures
        name_run(s) <= s.len(),
        name_run(s) < s.len() ==> !is_name_char(s[name_run(s) as int]),
    decreases s.len(),
{
    if s.len() > 0 && is_name_char(s[0]) {
        lemma_name_run(s.drop_first());
    }
}

/// The reference `$VAR`, `${VAR}` (either brace optional) that starts at `s[i]`, if any:
/// where it ends, and the variable name.
pub open spec fn ref_at(s: Seq<char>, i: int) -> Option<(int, Seq<char>)> {
    if 0 <= i < s.len() && s[i] == '$' {
        let start = if i + 2 < s.len() + 1 && i + 1 < s.len() && s[i + 1] == '{' && i + 2 < s.len()
            && is_alpha(s[i + 2]) {
            i + 2
        } else {
            i + 1
        };
        if start < s.len() && is_alpha(s[start]) {
            let k = start + name_run(s.skip(start));
            let end = if k < s.len() && s[k] == '}' {
                k + 1
            } else {
                k
            };
            Some((end, s.subrange(start, k)))
        } else {
            None
        }
    } else {
        None
    }
}

/// The references in `s` from position `i` on, scanned left to right without overlap: the
/// text of each and its variable.
pub open spec fn var_refs(s: Seq<char>, i: int) -> Seq<(Seq<char>, Seq<char>)>
    decreases s.len() - i,
{
    if i < 0 || i >= s.len() {
        Seq::empty()
    } else {
        match ref_at(s, i) {
            Some((end, var)) => if i < end <= s.len() {
                seq![(s.subrange(i, end), var)] + var_refs(s, end)
            } else {
                Seq::empty()
            },
            None => var_refs(s, i + 1),
        }
    }
}

/// `s` with every non-overlapping occurrence of `p` (scanned left to right) replaced by `r`.
pub open spec fn replace_all(s: Seq<char>, p: Seq<char>, r: Seq<char>) -> Seq<char>
    recommends
        p.len() > 0,
    decreases s.len(),
{
    if p.len() == 0 || s.len() < p.len() {
        s
    } else if s.take(p.len() as int) == p {
        r + replace_all(s.skip(p.len() as int), p, r)
    } else {
        seq![s[0]] + replace_all(s.skip(1), p, r)
    }
}

/// The value of the variable `name` in a list of definitions: the last one.
pub open spec fn lookup(vars: Seq<(Seq<char>, Seq<Seq<char>>)>, name: Seq<char>) -> Option<Seq<Seq<char>>>
    decreases vars.len(),
{
    if vars.len() == 0 {
        None
    } else if vars.last().0 == name {
        Some(vars.last().1)
    } else {
        lookup(vars.drop_last(), name)
    }
}

/// Replaces the references in turn, each everywhere in the text, where the variable is
/// defined.
pub open spec fn apply_refs(
    cur: Seq<char>,
    refs: Seq<(Seq<char>, Seq<char>)>,
    vars: Seq<(Seq<char>, Seq<Seq<char>>)>,
) -> Seq<char>
    decreases refs.len(),
{
    if refs.len() == 0 {
        cur
    } else {
        apply_refs(
            match lookup(vars, refs[0].1) {
                Some(v) => replace_all(cur, refs[0].0, join_words(v)),
                None => cur,
            },
            refs.skip(1),
            vars,
        )
    }
}

/// Some word holds a `$`.
pub open spec fn has_dollar(words: Seq<Seq<char>>) -> bool {
    exists|i: int, j: int| 0 <= i < words.len() && 0 <= j < words[i].len() && words[i][j] == '$'
}

/// The words of a value after expansion with the definitions `vars`.
pub open spec fn expand_spec(words: Seq<Seq<char>>, vars: Seq<(Seq<char>, Seq<Seq<char>>)>) -> Seq<Seq<char>> {
    if has_dollar(words) {
        let text = join_words(words);
        split_words(apply_refs(text, var_refs(text, 0), vars))
    } else {
        words
    }
}

/// The views of a list of definitions.
pub open spec fn defs_view(vars: Seq<(EnvVarName, EnvValue)>) -> Seq<(Seq<char>, Seq<Seq<char>>)> {
    vars.map_values(|d: (EnvVarName, EnvValue)| (d.0@, d.1@))
}

/// Returns the reference starting at `v[i]`, if any: its end and the range of its name.
fn ref_at_exec(v: &Vec<char>, i: usize) -> (r: Option<(usize, usize, usize)>)
    requires
        i < v.len(),
    ensures
        match ref_at(v@, i as int) {
            Some((end, var)) => r matches Some((e, a, b)) && e == end && a <= b <= v.len()
                && v@.subrange(a as int, b as int) == var && i < e <= v.len(),
            None => r is None,
        },
{
    let n = v.len();
    if v[i] != '$' {
        return None;
    }
    let start = if n - i > 2 && v[i + 1] == '{' && crate::text::is_alpha_char(v[i + 2]) {
        i + 2
    } else {
        i + 1
    };
    if !(start < n && crate::text::is_alpha_char(v[start])) {
        return None;
    }
    let mut k = start;
    proof {
        lemma_name_run(v@.skip(start as int));
    }
    while k < n && (crate::text::is_alnum_char(v[k]) || v[k] == '_')
        invariant
            start <= k <= n == v@.len(),
            k - start <= name_run(v@.skip(start as int)),
            name_run(v@.skip(start as int)) <= v@.skip(start as int).len(),
            name_run(v@.skip(start as int)) < v@.skip(start as int).len() ==> !is_name_char(
                v@.skip(start as int)[name_run(v@.skip(start as int)) as int],
            ),
            forall|j: int| start <= j < k ==> is_name_char(#[trigger] v@[j]),
        decreases n - k,
    {
        proof {
            lemma_name_run_prefix(v@.skip(start as int), k - start);
        }
        k += 1;
    }
    proof {
        lemma_name_run_prefix(v@.skip(start as int), k - start);
        if k < n {
            assert(v@.skip(start as int)[k - start] == v@[k as int]);
        }
    }
    let end = if k < n && v[k] == '}' {
        k + 1
    } else {
        k
    };
    Some((end, start, k))
}

/// A prefix of name characters is part of the run.
proof fn lemma_name_run_prefix(s: Seq<char>, m: int)
    requires
        0 <= m <= s.len(),
        forall|j: int| 0 <= j < m ==> is_name_char(#[trigger] s[j]),
    ensures
        name_run(s) >= m,
        m < s.len() && is_name_char(s[m]) ==> name_run(s) >= m + 1,
        m < s.len() && !is_name_char(s[m]) ==> name_run(s) == m,
    decreases m,
{
    if m > 0 {
        assert forall|j: int| 0 <= j < m - 1 implies is_name_char(#[trigger] s.drop_first()[j]) by {
            assert(s.drop_first()[j] == s[j + 1]);
        }
        lemma_name_run_prefix(s.drop_first(), m - 1);
        if m < s.len() {
            assert(s.drop_first()[m - 1] == s[m]);
        }
    }
}

/// Returns `s` with every occurrence of `p` replaced by `r`.
fn replace_text(s: &Vec<char>, p: &Vec<char>, r: &str) -> (out: String)
    requires
        p@.len() > 0,
    ensures
        out@ == replace_all(s@, p@, r@),
{
    let mut out = String::new();
    let mut i: usize = 0;
    let n = s.len();
    let m = p.len();
    assert(s@.skip(0) == s@);
    while i < n
        invariant
            0 <= i <= n == s@.len(),
            m == p@.len() > 0,
            replace_all(s@, p@, r@) == out@ + replace_all(s@.skip(i as int), p@, r@),
        decreases n - i,
    {
        let ghost rest = s@.skip(i as int);
        if n - i >= m && crate::text::range_eq(s, i, i + m, p.as_slice()) {
            assert(rest.take(m as int) == s@.subrange(i as int, i + m));
            assert(rest.skip(m as int) == s@.skip(i + m));
            append_str(&mut out, r);
            proof {
                assert(replace_all(s@, p@, r@) =~= out@ + replace_all(s@.skip(i + m), p@, r@));
            }
            i = i + m;
        } else {
            proof {
                if rest.len() >= p@.len() {
                    assert(rest.take(m as int) == s@.subrange(i as int, i + m));
                }
                assert(rest[0] == s@[i as int]);
                assert(rest.skip(1) == s@.skip(i + 1));
            }
            push_char(&mut out, s[i]);
            proof {
                if rest.len() < p@.len() {
                    assert(replace_all(rest, p@, r@) == rest);
                    assert(replace_all(s@.skip(i + 1), p@, r@) == s@.skip(i + 1)) by {
                        assert(s@.skip(i + 1).len() < p@.len());
                    }
                }
                assert(replace_all(s@, p@, r@) =~= out@ + replace_all(s@.skip(i + 1), p@, r@));
            }
            i = i + 1;
        }
    }
    assert(s@.skip(n as int) =~= Seq::<char>::empty());
    assert(out@ + Seq::<char>::empty() =~= out@);
    out
}

/// Returns the value of the last definition of `name` in `vars`.
fn lookup_exec<'a>(vars: &'a [(EnvVarName, EnvValue)], name: &Vec<char>) -> (r: Option<&'a EnvValue>)
    ensures
        match lookup(defs_view(vars@), name@) {
            Some(x) => r matches Some(y) && y@ == x,
            None => r is None,
        },
{
    let mut i = vars.len();
    assert(defs_view(vars@).subrange(0, i as int) == defs_view(vars@));
    while i > 0
        invariant
            i <= vars@.len(),
            lookup(defs_view(vars@), name@) == lookup(defs_view(vars@).subrange(0, i as int), name@),
        decreases i,
    {
        let ghost sub = defs_view(vars@).subrange(0, i as int);
        assert(sub.last() == (vars@[i - 1].0@, vars@[i - 1].1@));
        assert(sub.drop_last() =~= defs_view(vars@).subrange(0, i - 1));
        let c = chars_of(vars[i - 1].0.as_str());
        if crate::text::seq_eq(&c, name) {
            return Some(&vars[i - 1].1);
        }
        i -= 1;
    }
    None
}

/// Returns `true` if some word holds a `$`.
fn has_dollar_exec(words: &Vec<String>) -> (r: bool)
    ensures
        r == has_dollar(texts(words@)),
{
    let mut i: usize = 0;
    while i < words.len()
        invariant
            0 <= i <= words@.len(),
            forall|a: int, b: int| 0 <= a < i && 0 <= b < texts(words@)[a].len() ==> texts(words@)[a][b] != '$',
        decreases words.len() - i,
    {
        let w = chars_of(words[i].as_str());
        let k = crate::text::find_char(&w, 0, w.len(), '$');
        assert(w@.subrange(0, w@.len() as int) == w@);
        proof {
            crate::text::lemma_end_before(w@, '$');
        }
        if k < w.len() {
            assert(texts(words@)[i as int][k as int] == '$');
            return true;
        }
        i += 1;
    }
    false
}

impl EnvValue {
    /// Expands `$VAR`, `${VAR}` and the forms with one brace by the values of the last
    /// definitions in `vars`; references to undefined variables are kept as written.
    pub fn expand_with(&self, vars: &[(EnvVarName, EnvValue)]) -> (r: Self)
        ensures
            r@ == expand_spec(self@, defs_view(vars@)),
    {
        if !has_dollar_exec(&self.words) {
            return self.copy();
        }
        let text = self.to_string();
        let v = chars_of(text.as_str());
        let n = v.len();
        let mut cur = chars_of(text.as_str());
        let mut i: usize = 0;
        let ghost defs = defs_view(vars@);
        let ghost all = var_refs(v@, 0);
        let ghost done: Seq<(Seq<char>, Seq<char>)> = Seq::empty();
        while i < n
            invariant
                0 <= i <= n == v@.len(),
                v@ == join_words(self@),
                defs == defs_view(vars@),
                all == var_refs(v@, 0),
                apply_refs(v@, all, defs) == apply_refs(cur@, var_refs(v@, i as int), defs),
            decreases n - i,
        {
            match ref_at_exec(&v, i) {
                Some((end, a, b)) => {
                    let name = crate::text::string_from(&v, a, b);
                    let name_chars = chars_of(name.as_str());
                    let expr = crate::text::string_from(&v, i, end);
                    let expr_chars = chars_of(expr.as_str());
                    let ghost refs_here = var_refs(v@, i as int);
                    assert(refs_here == seq![(v@.subrange(i as int, end as int), v@.subrange(a as int, b as int))] + var_refs(v@, end as int));
                    assert(refs_here[0] == (expr_chars@, name_chars@));
                    assert(refs_here.skip(1) =~= var_refs(v@, end as int));
                    match lookup_exec(vars, &name_chars) {
                        Some(value) => {
                            let replacement = value.to_string();
                            let next = replace_text(&cur, &expr_chars, replacement.as_str());
                            cur = chars_of(next.as_str());
                        },
                        None => {},
                    }
                    i = end;
                },
                None => {
                    i += 1;
                },
            }
        }
        let result = crate::text::string_of(&cur);
        EnvValue::new(result.as_str())
    }
}

} // verus!
