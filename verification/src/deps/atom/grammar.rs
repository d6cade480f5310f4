//! The textual shape of atoms: where the operator, names, version, slot, repository and
//! USE dependencies stand, and which of their texts are accepted.
use crate::grammar::{NameKind, is_name, is_name_range};
use crate::package::names::{is_category_name, is_package_name};
use crate::package::version::{PackageVersion, is_version_text};
use crate::repository::is_repo_name;
use crate::text::{end_before, find_char, is_alnum, is_alnum_char, lemma_end_before};
use super::constraints::is_slot_constraint_text;
use super::usedep::is_use_dep_text;
use vstd::prelude::*;

verus! {

/// Characters the atom syntax allows in a slot restriction.
pub open spec fn is_slot_char(c: char) -> bool {
    is_alnum(c) || c == '_' || c == '+' || c == '.' || c == '/' || c == '*' || c == '=' || c == '-'
}

/// A non-empty run of slot characters.
pub open spec fn is_slot_lex(s: Seq<char>) -> bool {
    s.len() > 0 && forall|i: int| 0 <= i < s.len() ==> is_slot_char(#[trigger] s[i])
}

/// Start of the USE dependencies: the first `[`, or the end.
pub open spec fn deps_start(s: Seq<char>) -> int {
    end_before(s, '[')
}

/// The USE dependencies, if any, are enclosed in `[` and a final `]` on one line.
pub open spec fn uses_shape(s: Seq<char>) -> bool {
    let b = deps_start(s);
    b == s.len() || (s.len() >= b + 2 && s.last() == ']' && end_before(
        s.subrange(b + 1, s.len() - 1),
        '\n',
    ) == s.len() - b - 2)
}

/// The text between the brackets of the USE dependencies.
pub open spec fn uses_text(s: Seq<char>) -> Seq<char> {
    s.subrange(deps_start(s) + 1, s.len() - 1)
}

/// Slot restriction and repository, as written after the first `:` of the head `t`.
pub open spec fn tail_shape(t: Seq<char>) -> bool {
    t.len() == 0 || (t[0] == ':' && if t.len() >= 2 && t[1] == ':' {
        is_name(NameKind::Repository, t.skip(2))
    } else {
        let r = t.skip(1);
        let e = end_before(r, ':');
        is_slot_lex(r.take(e)) && (e == r.len() || (r.len() >= e + 2 && r[e + 1] == ':'
            && is_name(NameKind::Repository, r.skip(e + 2))))
    })
}

/// The slot restriction written in the tail `t`.
pub open spec fn slot_of(t: Seq<char>) -> Option<Seq<char>> {
    if t.len() >= 1 && !(t.len() >= 2 && t[1] == ':') {
        Some(t.skip(1).take(end_before(t.skip(1), ':')))
    } else {
        None
    }
}

/// The repository written in the tail `t`.
pub open spec fn repo_of(t: Seq<char>) -> Option<Seq<char>> {
    if t.len() >= 2 && t[1] == ':' {
        Some(t.skip(2))
    } else if t.len() >= 1 && end_before(t.skip(1), ':') < t.len() - 1 {
        Some(t.skip(1).skip(end_before(t.skip(1), ':') + 2))
    } else {
        None
    }
}

/// Length of the operator at the start of the main part `m`: `<=`, `>=`, `=`, `~`, `<`, `>`.
pub open spec fn op_len(m: Seq<char>) -> int {
    if m.len() >= 2 && (m[0] == '<' || m[0] == '>') && m[1] == '=' {
        2
    } else if m.len() >= 1 && (m[0] == '=' || m[0] == '~' || m[0] == '<' || m[0] == '>') {
        1
    } else {
        0
    }
}

/// A main part of the form `=cat/pkg-version*`.
pub open spec fn is_wildcard_main(m: Seq<char>) -> bool {
    m.len() >= 2 && m[0] == '=' && m.last() == '*'
}

/// The operator code of a versioned main part (see `ConstraintView`).
pub open spec fn op_code(m: Seq<char>) -> u8 {
    if is_wildcard_main(m) {
        1
    } else if op_len(m) == 2 {
        if m[0] == '>' {
            4
        } else {
            6
        }
    } else if m[0] == '=' {
        0
    } else if m[0] == '~' {
        2
    } else if m[0] == '>' {
        3
    } else {
        5
    }
}

/// The `cat/pkg-version` part of a versioned main part.
pub open spec fn versioned_body(m: Seq<char>) -> Seq<char> {
    if is_wildcard_main(m) {
        m.subrange(1, m.len() - 1)
    } else {
        m.skip(op_len(m))
    }
}

/// `r` splits at `k` into a lexically valid package name, `-` and a version.
pub open spec fn is_split(r: Seq<char>, k: int) -> bool {
    &&& 0 <= k < r.len()
    &&& r[k] == '-'
    &&& is_version_text(r.skip(k + 1))
    &&& is_name(NameKind::Package, r.take(k))
}

/// The last split of `r` at or before `k`.
pub open spec fn split_from(r: Seq<char>, k: int) -> Option<int>
    decreases k + 1,
{
    if k < 0 {
        None
    } else if is_split(r, k) {
        Some(k)
    } else {
        split_from(r, k - 1)
    }
}

/// A split found at or before `k` is a split.
pub proof fn lemma_split_from(r: Seq<char>, k: int)
    ensures
        split_from(r, k) matches Some(j) ==> is_split(r, j) && j <= k,
    decreases k + 1,
{
    if k >= 0 && !is_split(r, k) {
        lemma_split_from(r, k - 1);
    }
}

/// The split of `pkg-version` into package and version: the last one that works.
pub open spec fn version_split(r: Seq<char>) -> Option<int> {
    split_from(r, r.len() - 1)
}

/// The main part has the shape of a versioned atom.
pub open spec fn versioned_shape(m: Seq<char>) -> bool {
    let b = versioned_body(m);
    let c = end_before(b, '/');
    &&& c < b.len()
    &&& is_category_name(b.take(c))
    &&& version_split(b.skip(c + 1)) is Some
}

/// The main part has the shape of an atom without version: `cat/pkg`, either being `*`.
pub open spec fn simple_shape(m: Seq<char>) -> bool {
    let c = end_before(m, '/');
    &&& c < m.len()
    &&& m.take(c) == seq!['*'] || is_category_name(m.take(c))
    &&& m.skip(c + 1) == seq!['*'] || is_name(NameKind::Package, m.skip(c + 1))
}

/// The head of the atom: all before the USE dependencies.
pub open spec fn head_of(s: Seq<char>) -> Seq<char> {
    s.take(deps_start(s))
}

/// The main part of a head: all before the first `:`.
pub open spec fn main_of(h: Seq<char>) -> Seq<char> {
    h.take(end_before(h, ':'))
}

/// The tail of a head: from the first `:` on.
pub open spec fn tail_of(h: Seq<char>) -> Seq<char> {
    h.skip(end_before(h, ':'))
}

/// `s` has the syntactic shape of an atom.
pub open spec fn is_atom_shape(s: Seq<char>) -> bool {
    let m = main_of(head_of(s));
    &&& uses_shape(s)
    &&& tail_shape(tail_of(head_of(s)))
    &&& if op_len(m) > 0 {
        versioned_shape(m)
    } else {
        simple_shape(m)
    }
}

/// Every comma separated part of `t` is a USE dependency.
pub open spec fn all_use_deps(t: Seq<char>) -> bool
    decreases t.len(),
{
    let k = end_before(t, ',');
    &&& is_use_dep_text(t.take(k))
    &&& (k >= t.len() || (0 <= k && all_use_deps(t.skip(k + 1))))
}

/// The parts of an atom of the right shape also hold valid names, slot, repository and
/// USE dependencies.
pub open spec fn atom_parts_valid(s: Seq<char>) -> bool {
    let h = head_of(s);
    let m = main_of(h);
    let t = tail_of(h);
    &&& if op_len(m) > 0 {
        let b = versioned_body(m);
        let r = b.skip(end_before(b, '/') + 1);
        is_package_name(r.take(version_split(r)->0))
    } else {
        let p = m.skip(end_before(m, '/') + 1);
        p == seq!['*'] || is_package_name(p)
    }
    &&& slot_of(t) matches Some(x) ==> is_slot_constraint_text(x)
    &&& repo_of(t) matches Some(x) ==> is_repo_name(x)
    &&& deps_start(s) < s.len() ==> all_use_deps(uses_text(s))
}

/// `s` is a valid atom.
pub open spec fn is_atom_text(s: Seq<char>) -> bool {
    is_atom_shape(s) && atom_parts_valid(s)
}

/// Returns `true` if `c` may stand in a slot restriction.
pub fn is_slot_char_exec(c: char) -> (r: bool)
    ensures
        r == is_slot_char(c),
{
    is_alnum_char(c) || c == '_' || c == '+' || c == '.' || c == '/' || c == '*' || c == '=' || c
        == '-'
}

/// Returns `true` if `v[from..to]` is a non-empty run of slot characters.
pub fn is_slot_lex_range(v: &Vec<char>, from: usize, to: usize) -> (r: bool)
    requires
        from <= to <= v.len(),
    ensures
        r == is_slot_lex(v@.subrange(from as int, to as int)),
{
    let ghost s = v@.subrange(from as int, to as int);
    if from == to {
        return false;
    }
    let mut i = from;
    while i < to
        invariant
            from <= i <= to <= v.len(),
            s == v@.subrange(from as int, to as int),
            forall|j: int| 0 <= j < i - from ==> is_slot_char(#[trigger] s[j]),
        decreases to - i,
    {
        assert(s[i - from] == v@[i as int]);
        if !is_slot_char_exec(v[i]) {
            return false;
        }
        i += 1;
    }
    true
}

/// Returns the last split of `v[from..to]` into package and version, as an absolute index.
pub fn version_split_range(v: &Vec<char>, from: usize, to: usize) -> (r: Option<usize>)
    requires
        from <= to <= v.len(),
    ensures
        match version_split(v@.subrange(from as int, to as int)) {
            Some(k) => r == Some((from + k) as usize) && is_split(
                v@.subrange(from as int, to as int),
                k,
            ),
            None => r is None,
        },
        r matches Some(k) ==> from <= k < to,
{
    let ghost s = v@.subrange(from as int, to as int);
    proof {
        lemma_split_from(s, s.len() - 1);
    }
    let mut i = to - from;
    while i > 0
        invariant
            from <= to <= v.len(),
            i <= to - from,
            s == v@.subrange(from as int, to as int),
            version_split(s) == split_from(s, i - 1),
        decreases i,
    {
        i -= 1;
        let k = from + i;
        assert(s.skip(i + 1) == v@.subrange(k + 1, to as int));
        assert(s.take(i as int) == v@.subrange(from as int, k as int));
        assert(s[i as int] == v@[k as int]);
        if v[k] == '-' && PackageVersion::parse(v, k + 1, to).is_some() && is_name_range(
            NameKind::Package,
            v,
            from,
            k,
        ) {
            return Some(k);
        }
    }
    None
}

} // verus!
