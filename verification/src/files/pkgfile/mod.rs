//! Files that give each atom a list of values, such as `package.use` or
//! `package.accept_keywords`: one atom per line, followed by its values.
pub mod keywords;
pub mod useflags;

use crate::deps::atom::grammar::is_atom_text;
use crate::deps::atom::key::atom_key;
use crate::deps::atom::{Atom, AtomKindView, AtomView, atom_text, atom_wf};
use crate::error::Error;
use crate::files::entry::Precedence;
use crate::text::{
    append_str, content_lines, decimal, split_lines, str_eq, string_from, strip_comment,
    strip_line_comment, texts, usize_string, word_len, lemma_word_len, chars_of,
};
use crate::files::linefile::code_lines;
use vstd::prelude::*;

verus! {

/// The values given for one atom, which later lines of the same atom update and which a
/// file inherits from the file before it.
pub trait AtomPolicy: View + Sized {
    /// What the written values `value` read as with precedence `prec`; `None` if invalid.
    spec fn parsed(value: Seq<char>, prec: Precedence) -> Option<Self::V>;

    /// The values of an atom that no line has given yet.
    spec fn empty_policy() -> Self::V;

    /// The values after a later line `b` of the same atom.
    spec fn updated(a: Self::V, b: Self::V) -> Self::V;

    /// The values of `child` after inheriting those of `parent`.
    spec fn inherited(child: Self::V, parent: Self::V) -> Self::V;

    /// Reads the values written as `value`.
    fn parse(value: &str, prec: Precedence) -> (r: Result<Self, Error>)
        ensures
            match Self::parsed(value@, prec) {
                Some(v) => r matches Ok(x) && x@ == v,
                None => r is Err,
            },
    ;

    /// No values.
    fn empty() -> (r: Self)
        ensures
            r@ == Self::empty_policy(),
    ;

    /// Updates these values with those of a later line.
    fn update_from(&mut self, other: Self)
        ensures
            final(self)@ == Self::updated(old(self)@, other@),
    ;

    /// Inherits the values of `parent`.
    fn inherit_from(&mut self, parent: &Self)
        ensures
            final(self)@ == Self::inherited(old(self)@, parent@),
    ;

    /// Returns a copy of these values.
    fn copy_policy(&self) -> (r: Self)
        ensures
            r@ == self@,
    ;
}

/// A line split at its first whitespace: the atom and the values.
pub open spec fn line_split(line: Seq<char>) -> (Seq<char>, Seq<char>) {
    let k = word_len(line, true);
    if k < line.len() {
        (line.take(k as int), line.skip(k as int + 1))
    } else {
        (line, Seq::empty())
    }
}

/// The index of the entry of the atom written as `key`, if any.
pub open spec fn policy_index<V>(ps: Seq<(Seq<char>, V)>, key: Seq<char>) -> Option<int>
    decreases ps.len(),
{
    if ps.len() == 0 {
        None
    } else {
        match policy_index(ps.drop_last(), key) {
            Some(i) => Some(i),
            None => if ps.last().0 == key {
                Some(ps.len() - 1)
            } else {
                None
            },
        }
    }
}

/// The values of each atom after a line gives the atom `a` the values `v`: an atom with
/// the same key keeps its place and is updated, otherwise `a` is added.
pub open spec fn upsert<T: AtomPolicy>(ps: Seq<(AtomView, T::V)>, a: AtomView, v: T::V) -> Seq<(AtomView, T::V)> {
    match policy_index(policy_keys(ps), atom_key(a)) {
        Some(i) => ps.update(i, (ps[i].0, T::updated(ps[i].1, v))),
        None => ps.push((a, T::updated(T::empty_policy(), v))),
    }
}

/// `atoms` holds, for each of `lines` that holds an entry with a valid atom, the atom
/// that it reads as.
pub open spec fn atoms_read(lines: Seq<Seq<char>>, atoms: Seq<AtomView>) -> bool {
    &&& atoms.len() == lines.len()
    &&& forall|i: int|
        0 <= i < lines.len() && strip_comment(lines[i]).len() > 0 && is_atom_text(
            line_split(strip_comment(lines[i])).0,
        ) ==> atom_wf(#[trigger] atoms[i]) && atom_text(atoms[i]) == line_split(strip_comment(lines[i])).0
}

/// The number, counted from 1, of the first line whose atom or values are invalid, if any.
pub open spec fn policy_error<T: AtomPolicy>(lines: Seq<Seq<char>>, prec: Precedence) -> Option<int>
    decreases lines.len(),
{
    if lines.len() == 0 {
        None
    } else {
        match policy_error::<T>(lines.drop_last(), prec) {
            Some(n) => Some(n),
            None => {
                let c = strip_comment(lines.last());
                let (a, value) = line_split(c);
                if c.len() > 0 && (!is_atom_text(a) || T::parsed(value, prec) is None) {
                    Some(lines.len() as int)
                } else {
                    None
                }
            },
        }
    }
}

/// What the lines with entries give, where `atoms` holds the atom each line reads as:
/// each atom with its values, in the order the atoms first appear, atoms with the same
/// key counting as one.
pub open spec fn policies_of<T: AtomPolicy>(lines: Seq<Seq<char>>, atoms: Seq<AtomView>, prec: Precedence) -> Seq<
    (AtomView, T::V),
>
    decreases lines.len(),
{
    if lines.len() == 0 {
        Seq::empty()
    } else {
        let ps = policies_of::<T>(lines.drop_last(), atoms.drop_last(), prec);
        let c = strip_comment(lines.last());
        let (a, value) = line_split(c);
        if c.len() > 0 && is_atom_text(a) && T::parsed(value, prec) is Some {
            upsert::<T>(ps, atoms.last(), T::parsed(value, prec)->0)
        } else {
            ps
        }
    }
}

/// `r` is what reading `content` with precedence `prec` gives: the error of the first
/// invalid line, naming it; otherwise the atoms with their values, for the atoms that the
/// lines read as.
pub open spec fn read_policies<T: AtomPolicy>(
    content: Seq<char>,
    prec: Precedence,
    r: Result<Seq<(AtomView, T::V)>, Seq<char>>,
) -> bool {
    let lines = content_lines(content);
    match policy_error::<T>(lines, prec) {
        Some(n) => r == Err::<Seq<(AtomView, T::V)>, Seq<char>>(
            "error in line "@ + decimal(n as nat) + ": "@ + strip_comment(lines[n - 1]),
        ),
        None => r matches Ok(ps) && exists|atoms: Seq<AtomView>|
            #![trigger atoms_read(lines, atoms)]
            atoms_read(lines, atoms) && ps == policies_of::<T>(lines, atoms, prec),
    }
}

/// The keys of the atoms of policies, with their values.
pub open spec fn policy_keys<V>(ps: Seq<(AtomView, V)>) -> Seq<(Seq<char>, V)> {
    ps.map_values(|p: (AtomView, V)| (atom_key(p.0), p.1))
}

/// The policies of `child` after inheriting those of `parent`: an atom of both inherits
/// the parent's values; an atom of the parent alone is added after those of the child.
pub open spec fn inherit_policies<T: AtomPolicy>(child: Seq<(AtomView, T::V)>, parent: Seq<(AtomView, T::V)>) -> Seq<
    (AtomView, T::V),
>
    decreases parent.len(),
{
    if parent.len() == 0 {
        child
    } else {
        let rest = inherit_policies::<T>(child, parent.drop_last());
        let p = parent.last();
        match policy_index(policy_keys(rest), atom_key(p.0)) {
            Some(i) => rest.update(i, (rest[i].0, T::inherited(rest[i].1, p.1))),
            None => rest.push(p),
        }
    }
}

/// The atoms of a file with their values.
///
/// The atoms are held in a `Vec` in the order they first appear rather than in a hash map:
/// the order in which a hash map is walked is not specified, and the rules of equal
/// precedence take effect in file order. An atom is found by its key, the text with the
/// version in canonical form, so that equal atoms share one entry.
#[derive(Debug)]
pub struct AtomPolicies<T: AtomPolicy> {
    policies: Vec<(Atom, T)>,
}

impl<T: AtomPolicy> View for AtomPolicies<T> {
    type V = Seq<(AtomView, T::V)>;

    closed spec fn view(&self) -> Seq<(AtomView, T::V)> {
        self.policies@.map_values(|p: (Atom, T)| (p.0@, p.1@))
    }
}

/// The index of `key` found by a search from the front is the first.
proof fn lemma_policy_index<V>(ps: Seq<(Seq<char>, V)>, key: Seq<char>)
    ensures
        match policy_index(ps, key) {
            Some(i) => 0 <= i < ps.len() && ps[i].0 == key && forall|j: int| 0 <= j < i ==> ps[j].0 != key,
            None => forall|j: int| 0 <= j < ps.len() ==> ps[j].0 != key,
        },
    decreases ps.len(),
{
    if ps.len() > 0 {
        let d = ps.drop_last();
        lemma_policy_index(d, key);
        assert forall|j: int| 0 <= j < d.len() implies d[j] == ps[j] by {}
    }
}

/// The search finds the first entry with `key`.
proof fn lemma_policy_index_first<V>(ps: Seq<(Seq<char>, V)>, key: Seq<char>, i: int)
    requires
        0 <= i < ps.len(),
        ps[i].0 == key,
        forall|j: int| 0 <= j < i ==> ps[j].0 != key,
    ensures
        policy_index(ps, key) == Some(i),
{
    lemma_policy_index(ps, key);
    match policy_index(ps, key) {
        Some(k) => {
            if k < i {
            } else if k > i {
            }
        },
        None => {
            assert(ps[i].0 == key);
        },
    }
}

impl<T: AtomPolicy> AtomPolicies<T> {
    /// No atoms.
    pub fn new() -> (r: Self)
        ensures
            r@ == Seq::<(AtomView, T::V)>::empty(),
    {
        let r = AtomPolicies { policies: Vec::new() };
        assert(r@ =~= Seq::<(AtomView, T::V)>::empty());
        r
    }

    /// Returns the position of the atom with the key `key`.
    fn find(&self, key: &str) -> (r: Option<usize>)
        ensures
            match policy_index(policy_keys(self@), key@) {
                Some(i) => r matches Some(x) && x == i && 0 <= i < self@.len(),
                None => r is None,
            },
    {
        let ghost pt = policy_keys(self@);
        let mut i: usize = 0;
        while i < self.policies.len()
            invariant
                0 <= i <= self.policies@.len(),
                pt == policy_keys(self@),
                forall|j: int| 0 <= j < i ==> pt[j].0 != key@,
            decreases self.policies.len() - i,
        {
            let k = self.policies[i].0.key_string();
            assert(pt[i as int].0 == atom_key(self.policies@[i as int].0@));
            if str_eq(k.as_str(), key) {
                proof {
                    lemma_policy_index_first(pt, key@, i as int);
                }
                return Some(i);
            }
            i += 1;
        }
        proof {
            lemma_policy_index(pt, key@);
            match policy_index(pt, key@) {
                Some(j) => {
                    assert(pt[j].0 == key@);
                },
                None => {},
            }
        }
        None
    }

    /// Gives the atom `atom` the values `policy`: updates the values of the atom with the
    /// same key, or adds it.
    fn upsert(&mut self, atom: Atom, policy: T)
        ensures
            final(self)@ == upsert::<T>(old(self)@, atom@, policy@),
    {
        let key = atom.key_string();
        let ghost pt = policy_keys(self@);
        match self.find(key.as_str()) {
            Some(i) => {
                let ghost before = self@;
                let (a, mut p) = self.policies.remove(i);
                p.update_from(policy);
                self.policies.insert(i, (a, p));
                proof {
                    let nv = (before[i as int].0, T::updated(before[i as int].1, policy@));
                    assert(self@ =~= before.update(i as int, nv));
                }
            },
            None => {
                let ghost before = self@;
                let mut p = T::empty();
                p.update_from(policy);
                self.policies.push((atom, p));
                proof {
                    assert(self@ =~= before.push((atom@, T::updated(T::empty_policy(), policy@))));
                }
            },
        }
    }

    /// Reads a file with precedence `precedence`: each line an atom and its values; later
    /// lines of an atom, or of an equal atom, update its values. Fails at the first invalid
    /// line, naming it.
    pub fn from_string(content: &str, precedence: Precedence) -> (r: Result<Self, Error>)
        ensures
            read_policies::<T>(
                content@,
                precedence,
                match r {
                    Ok(x) => Ok(x@),
                    Err(e) => Err(e.text()),
                },
            ),
    {
        let lines = split_lines(content);
        let ghost ls = texts(lines@);
        let ghost mut atoms: Seq<AtomView> = Seq::empty();
        let mut out = Self::new();
        let mut i: usize = 0;
        assert(ls.subrange(0, 0) =~= Seq::<Seq<char>>::empty());
        while i < lines.len()
            invariant
                0 <= i <= lines@.len(),
                ls == texts(lines@),
                ls == content_lines(content@),
                atoms_read(ls.subrange(0, i as int), atoms),
                policy_error::<T>(ls.subrange(0, i as int), precedence) is None,
                policies_of::<T>(ls.subrange(0, i as int), atoms, precedence) == out@,
            decreases lines.len() - i,
        {
            let ghost sub = ls.subrange(0, i + 1);
            assert(sub.drop_last() =~= ls.subrange(0, i as int));
            assert(sub.last() == lines@[i as int]@);
            assert forall|k: int| 0 <= k < sub.len() implies #[trigger] sub[k] == ls[k] by {}
            let line = strip_line_comment(lines[i].as_str());
            let ghost old_atoms = atoms;
            if !line.as_str().is_empty() {
                let (atom_part, value) = split_line(line.as_str());
                let parsed = match Atom::new(atom_part.as_str()) {
                    Ok(a) => match T::parse(value.as_str(), precedence) {
                        Ok(p) => Some((a, p)),
                        Err(_) => None,
                    },
                    Err(_) => None,
                };
                match parsed {
                    Some((a, p)) => {
                        proof {
                            atoms = atoms.push(a@);
                            assert(atoms.drop_last() =~= old_atoms);
                            assert forall|k: int| 0 <= k < i implies #[trigger] atoms[k] == old_atoms[k] by {}
                        }
                        out.upsert(a, p);
                    },
                    None => {
                        let mut m = String::new();
                        append_str(&mut m, "error in line ");
                        let num = usize_string(i + 1);
                        append_str(&mut m, num.as_str());
                        append_str(&mut m, ": ");
                        append_str(&mut m, line.as_str());
                        proof {
                            lemma_policy_error_prefix::<T>(ls, i + 1, precedence);
                        }
                        return Err(Error::from_string(m));
                    },
                }
            } else {
                proof {
                    let filler = AtomView { kind: AtomKindView::Basic(None, None), slot: None, repo: None, use_deps: Seq::empty() };
                    atoms = atoms.push(filler);
                    assert(atoms.drop_last() =~= old_atoms);
                    assert forall|k: int| 0 <= k < i implies #[trigger] atoms[k] == old_atoms[k] by {}
                }
            }
            i += 1;
        }
        assert(ls.subrange(0, i as int) =~= ls);
        Ok(out)
    }

    /// Returns the values of `atom`, matched by its key.
    pub fn get(&self, atom: &Atom) -> (r: Option<&T>)
        ensures
            match policy_index(policy_keys(self@), atom_key(atom@)) {
                Some(i) => r matches Some(p) && p@ == self@[i].1,
                None => r is None,
            },
    {
        let key = atom.key_string();
        let found = self.find(key.as_str());
        match found {
            Some(i) => {
                assert(self@[i as int].1 == self.policies@[i as int].1@);
                let p = &self.policies[i].1;
                assert(policy_index(policy_keys(self@), atom_key(atom@)) == Some(i as int));
                Some(p)
            },
            None => None,
        }
    }

    /// Returns the atoms with their values.
    pub fn into_iter(self) -> (r: Vec<(Atom, T)>)
        ensures
            r@.map_values(|p: (Atom, T)| (p.0@, p.1@)) == self@,
    {
        self.policies
    }

    /// Returns the atoms with their values.
    pub fn entries(&self) -> (r: &Vec<(Atom, T)>)
        ensures
            r@.map_values(|p: (Atom, T)| (p.0@, p.1@)) == self@,
    {
        &self.policies
    }

    /// Returns a copy of these policies.
    pub fn copy(&self) -> (r: Self)
        ensures
            r@ == self@,
    {
        let mut policies: Vec<(Atom, T)> = Vec::new();
        let mut i: usize = 0;
        while i < self.policies.len()
            invariant
                0 <= i <= self.policies@.len(),
                policies@.map_values(|p: (Atom, T)| (p.0@, p.1@)) =~= self@.subrange(0, i as int),
            decreases self.policies.len() - i,
        {
            let ghost before = policies@.map_values(|p: (Atom, T)| (p.0@, p.1@));
            let entry = (self.policies[i].0.copy(), self.policies[i].1.copy_policy());
            policies.push(entry);
            assert(policies@.map_values(|p: (Atom, T)| (p.0@, p.1@)) =~= before.push(self@[i as int]));
            assert(self@.subrange(0, i + 1) =~= self@.subrange(0, i as int).push(self@[i as int]));
            i += 1;
        }
        assert(self@.subrange(0, i as int) =~= self@);
        AtomPolicies { policies }
    }

    /// Inherits the policies of `parent`: an atom of both inherits the parent's values,
    /// an atom of the parent alone is added.
    pub fn inherit_from(&mut self, parent: &Self)
        ensures
            final(self)@ == inherit_policies::<T>(old(self)@, parent@),
    {
        let ghost child = self@;
        let mut j: usize = 0;
        while j < parent.policies.len()
            invariant
                0 <= j <= parent.policies@.len(),
                self@ == inherit_policies::<T>(child, parent@.subrange(0, j as int)),
            decreases parent.policies.len() - j,
        {
            let ghost sub = parent@.subrange(0, j + 1);
            assert(sub.drop_last() =~= parent@.subrange(0, j as int));
            assert(sub.last() == parent@[j as int]);
            let key = parent.policies[j].0.key_string();
            let ghost rest = self@;
            match self.find(key.as_str()) {
                Some(i) => {
                    let (a, mut p) = self.policies.remove(i);
                    p.inherit_from(&parent.policies[j].1);
                    self.policies.insert(i, (a, p));
                    assert(self@ =~= rest.update(i as int, (rest[i as int].0, T::inherited(rest[i as int].1, parent@[j as int].1))));
                    assert(self@ == inherit_policies::<T>(child, sub));
                },
                None => {
                    let entry = (parent.policies[j].0.copy(), parent.policies[j].1.copy_policy());
                    self.policies.push(entry);
                    assert(self@ =~= rest.push(parent@[j as int]));
                    assert(self@ == inherit_policies::<T>(child, sub));
                },
            }
            j += 1;
        }
        assert(parent@.subrange(0, j as int) =~= parent@);
    }
}

/// An invalid line stays the first error when more lines follow.
proof fn lemma_policy_error_prefix<T: AtomPolicy>(ls: Seq<Seq<char>>, n: int, prec: Precedence)
    requires
        0 < n <= ls.len(),
        policy_error::<T>(ls.subrange(0, n - 1), prec) is None,
        policy_error::<T>(ls.subrange(0, n), prec) is Some,
    ensures
        policy_error::<T>(ls, prec) == Some(n),
        strip_comment(ls[n - 1]) == strip_comment(ls.subrange(0, n).last()),
    decreases ls.len(),
{
    assert(ls.subrange(0, n).drop_last() =~= ls.subrange(0, n - 1));
    if ls.len() > n {
        assert(ls.drop_last().subrange(0, n) =~= ls.subrange(0, n));
        assert(ls.drop_last().subrange(0, n - 1) =~= ls.subrange(0, n - 1));
        lemma_policy_error_prefix::<T>(ls.drop_last(), n, prec);
    } else {
        assert(ls.subrange(0, n) =~= ls);
    }
}

/// Splits `line` at its first whitespace into the atom and the values.
fn split_line(line: &str) -> (r: (String, String))
    ensures
        r.0@ == line_split(line@).0,
        r.1@ == line_split(line@).1,
{
    let v = chars_of(line);
    let n = v.len();
    let mut k: usize = 0;
    proof {
        lemma_word_len(v@, true);
    }
    while k < n && !crate::text::is_unicode_ws_char(v[k])
        invariant
            0 <= k <= n == v@.len(),
            forall|j: int| 0 <= j < k ==> !crate::text::is_unicode_ws(#[trigger] v@[j]),
        decreases n - k,
    {
        k += 1;
    }
    proof {
        lemma_word_len_exact(v@, k as int);
    }
    if k < n {
        let a = string_from(&v, 0, k);
        let b = string_from(&v, k + 1, n);
        assert(a@ =~= line@.take(k as int));
        assert(b@ =~= line@.skip(k + 1));
        (a, b)
    } else {
        let a = string_from(&v, 0, n);
        assert(a@ =~= line@);
        (a, String::new())
    }
}

/// The first separator ends the first word.
proof fn lemma_word_len_exact(s: Seq<char>, k: int)
    requires
        0 <= k <= s.len(),
        forall|j: int| 0 <= j < k ==> !crate::text::is_unicode_ws(#[trigger] s[j]),
        k < s.len() ==> crate::text::is_unicode_ws(s[k]),
    ensures
        word_len(s, true) == k,
    decreases k,
{
    if k > 0 {
        assert forall|j: int| 0 <= j < k - 1 implies !crate::text::is_unicode_ws(#[trigger] s.drop_first()[j]) by {
            assert(s.drop_first()[j] == s[j + 1]);
        }
        lemma_word_len_exact(s.drop_first(), k - 1);
    }
}

} // verus!
