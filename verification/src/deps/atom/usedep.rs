//! USE dependencies of atoms (PMS 8.3.4), e.g. `foo`, `-foo`, `foo(+)=`, `!foo?`.
use crate::error::{Error, subject_message};
use crate::grammar::{NameKind, is_name, is_name_range};
use crate::text::{append_str, push_char, string_from};
use vstd::prelude::*;

verus! {

/// Model of a USE dependency: prefix (0 none, 1 `-`, 2 `!`), flag name, default
/// (0 none, 1 `(+)`, 2 `(-)`) and suffix (0 none, 1 `=`, 2 `?`).
pub type UseDepView = (u8, Seq<char>, u8, u8);

/// Text of a prefix code.
pub open spec fn dep_prefix_text(p: u8) -> Seq<char> {
    if p == 1 {
        seq!['-']
    } else if p == 2 {
        seq!['!']
    } else {
        Seq::empty()
    }
}

/// Text of a default code.
pub open spec fn dep_default_text(d: u8) -> Seq<char> {
    if d == 1 {
        seq!['(', '+', ')']
    } else if d == 2 {
        seq!['(', '-', ')']
    } else {
        Seq::empty()
    }
}

/// Text of a suffix code.
pub open spec fn dep_suffix_text(q: u8) -> Seq<char> {
    if q == 1 {
        seq!['=']
    } else if q == 2 {
        seq!['?']
    } else {
        Seq::empty()
    }
}

/// Text of a USE dependency.
pub open spec fn use_dep_text(d: UseDepView) -> Seq<char> {
    dep_prefix_text(d.0) + d.1 + dep_default_text(d.2) + dep_suffix_text(d.3)
}

/// A well-formed USE dependency: a valid flag name; `-` only without a suffix, `!` only
/// with one.
pub open spec fn use_dep_wf(d: UseDepView) -> bool {
    &&& is_name(NameKind::UseFlag, d.1)
    &&& d.0 <= 2 && d.2 <= 2 && d.3 <= 2
    &&& d.0 == 1 ==> d.3 == 0
    &&& d.0 == 2 ==> d.3 != 0
}

/// Prefix code read from the start of `s`.
pub open spec fn dep_prefix_of(s: Seq<char>) -> u8 {
    if s.len() > 0 && s[0] == '-' {
        1
    } else if s.len() > 0 && s[0] == '!' {
        2
    } else {
        0
    }
}

/// Suffix code read from the end of `s`, after a prefix of length `a`.
pub open spec fn dep_suffix_of(s: Seq<char>, a: int) -> u8 {
    if s.len() > a && s.last() == '=' {
        1
    } else if s.len() > a && s.last() == '?' {
        2
    } else {
        0
    }
}

/// Default code read from the end of `m`.
pub open spec fn dep_default_of(m: Seq<char>) -> u8 {
    if m.len() >= 3 && m[m.len() - 3] == '(' && m[m.len() - 1] == ')' && m[m.len() - 2] == '+' {
        1
    } else if m.len() >= 3 && m[m.len() - 3] == '(' && m[m.len() - 1] == ')' && m[m.len() - 2]
        == '-' {
        2
    } else {
        0
    }
}

/// The parts of a USE dependency text: prefix, name, default and suffix codes.
#[verifier::opaque]
pub open spec fn use_dep_parts(s: Seq<char>) -> UseDepView {
    let p = dep_prefix_of(s);
    let a: int = if p > 0 {
        1
    } else {
        0
    };
    let q = dep_suffix_of(s, a);
    let b: int = if q > 0 {
        s.len() - 1
    } else {
        s.len() as int
    };
    let m = s.subrange(a, b);
    let d = dep_default_of(m);
    let n = if d > 0 {
        m.take(m.len() - 3)
    } else {
        m
    };
    (p, n, d, q)
}

/// How the parts of `s` are found: prefix code `p` ending at `a`, suffix code `q` starting
/// at `b`, default code `d` between `e` and `b`.
proof fn lemma_use_dep_parts(s: Seq<char>, p: u8, a: int, q: u8, b: int, d: u8, e: int)
    requires
        p == dep_prefix_of(s),
        a == (if p > 0 { 1int } else { 0int }),
        q == dep_suffix_of(s, a),
        b == (if q > 0 { s.len() - 1 } else { s.len() as int }),
        0 <= a <= b <= s.len(),
        d == dep_default_of(s.subrange(a, b)),
        e == (if d > 0 { b - 3 } else { b }),
        a <= e,
    ensures
        use_dep_parts(s) == (p, s.subrange(a, e), d, q),
        s == dep_prefix_text(p) + s.subrange(a, e) + dep_default_text(d) + dep_suffix_text(q),
{
    reveal(use_dep_parts);
    let m = s.subrange(a, b);
    if d > 0 {
        assert(m.take(m.len() - 3) == s.subrange(a, b - 3));
    }
    if p > 0 {
        assert(s[0] == if p == 1 { '-' } else { '!' });
    }
    if q > 0 {
        assert(s[s.len() - 1] == if q == 1 { '=' } else { '?' });
    }
    if d > 0 {
        assert(s.subrange(e, b) =~= dep_default_text(d));
    }
    assert(s =~= dep_prefix_text(p) + s.subrange(a, e) + dep_default_text(d) + dep_suffix_text(q));
}

/// `s` is the text of a valid USE dependency.
pub open spec fn is_use_dep_text(s: Seq<char>) -> bool {
    use_dep_wf(use_dep_parts(s))
}

/// Reads the prefix code at the start of `v[from..to]`.
fn prefix_at(v: &Vec<char>, from: usize, to: usize) -> (p: u8)
    requires
        from <= to <= v.len(),
    ensures
        p == dep_prefix_of(v@.subrange(from as int, to as int)),
{
    let ghost s = v@.subrange(from as int, to as int);
    if to > from {
        assert(s[0] == v@[from as int]);
    }
    if to > from && v[from] == '-' {
        1
    } else if to > from && v[from] == '!' {
        2
    } else {
        0
    }
}

/// Reads the suffix code at the end of `v[from..to]`, after a prefix ending at `a`.
fn suffix_at(v: &Vec<char>, from: usize, to: usize, a: usize) -> (q: u8)
    requires
        from <= a <= to <= v.len(),
    ensures
        q == dep_suffix_of(v@.subrange(from as int, to as int), a - from),
{
    let ghost s = v@.subrange(from as int, to as int);
    if to > from {
        assert(s.last() == v@[to - 1]);
    }
    if to > a && v[to - 1] == '=' {
        1
    } else if to > a && v[to - 1] == '?' {
        2
    } else {
        0
    }
}

/// Reads the default code at the end of `v[a..b]`.
fn default_at(v: &Vec<char>, a: usize, b: usize) -> (d: u8)
    requires
        a <= b <= v.len(),
    ensures
        d == dep_default_of(v@.subrange(a as int, b as int)),
        d > 0 ==> b - a >= 3,
{
    let ghost m = v@.subrange(a as int, b as int);
    if b - a >= 3 {
        assert(m[m.len() - 3] == v@[b - 3]);
        assert(m[m.len() - 2] == v@[b - 2]);
        assert(m[m.len() - 1] == v@[b - 1]);
        if v[b - 3] == '(' && v[b - 1] == ')' {
            if v[b - 2] == '+' {
                return 1;
            } else if v[b - 2] == '-' {
                return 2;
            }
        }
    }
    0
}

/// A USE dependency of an atom.
#[derive(Debug, Clone)]
pub struct UseDep {
    prefix: u8,
    flag: String,
    default: u8,
    suffix: u8,
}

impl View for UseDep {
    type V = UseDepView;

    closed spec fn view(&self) -> UseDepView {
        (self.prefix, self.flag@, self.default, self.suffix)
    }
}

impl UseDep {
    /// Parses a USE dependency from `v[from..to]`.
    pub fn from_range(v: &Vec<char>, from: usize, to: usize) -> (r: Result<Self, Error>)
        requires
            from <= to <= v.len(),
        ensures
            r is Ok <==> is_use_dep_text(v@.subrange(from as int, to as int)),
            r matches Ok(d) ==> use_dep_wf(d@) && use_dep_text(d@) == v@.subrange(
                from as int,
                to as int,
            ) && d@ == use_dep_parts(v@.subrange(from as int, to as int)),
            r matches Err(e) ==> e.text() == subject_message(
                "invalid USE dependency"@,
                v@.subrange(from as int, to as int),
            ),
    {
        let ghost s = v@.subrange(from as int, to as int);
        let p = prefix_at(v, from, to);
        let a: usize = if p > 0 {
            from + 1
        } else {
            from
        };
        let q = suffix_at(v, from, to, a);
        let b: usize = if q > 0 {
            to - 1
        } else {
            to
        };
        assert(v@.subrange(a as int, b as int) == s.subrange(a - from, b - from));
        let d = default_at(v, a, b);
        let e: usize = if d > 0 {
            b - 3
        } else {
            b
        };
        proof {
            lemma_use_dep_parts(s, p, a - from, q, b - from, d, e - from);
            assert(s.subrange(a - from, e - from) == v@.subrange(a as int, e as int));
        }
        let valid = is_name_range(NameKind::UseFlag, v, a, e) && (p != 1 || q == 0) && (p != 2 || q
            != 0);
        if !valid {
            let text = string_from(v, from, to);
            return Err(Error::with_subject("invalid USE dependency", text.as_str()));
        }
        Ok(UseDep { prefix: p, flag: string_from(v, a, e), default: d, suffix: q })
    }

    /// Returns the flag name.
    pub fn flag(&self) -> (r: &str)
        ensures
            r@ == self@.1,
    {
        self.flag.as_str()
    }

    /// Returns the text of this USE dependency.
    pub fn to_string(&self) -> (r: String)
        ensures
            r@ == use_dep_text(self@),
    {
        let mut out = String::new();
        if self.prefix == 1 {
            push_char(&mut out, '-');
        } else if self.prefix == 2 {
            push_char(&mut out, '!');
        }
        append_str(&mut out, self.flag.as_str());
        if self.default == 1 {
            push_char(&mut out, '(');
            push_char(&mut out, '+');
            push_char(&mut out, ')');
        } else if self.default == 2 {
            push_char(&mut out, '(');
            push_char(&mut out, '-');
            push_char(&mut out, ')');
        }
        if self.suffix == 1 {
            push_char(&mut out, '=');
        } else if self.suffix == 2 {
            push_char(&mut out, '?');
        }
        proof {
            let t = use_dep_text(self@);
            assert(out@ =~= t);
        }
        out
    }

    /// Returns a copy of this USE dependency.
    pub fn copy(&self) -> (r: Self)
        ensures
            r@ == self@,
    {
        UseDep {
            prefix: self.prefix,
            flag: self.flag.clone(),
            default: self.default,
            suffix: self.suffix,
        }
    }
}

} // verus!
