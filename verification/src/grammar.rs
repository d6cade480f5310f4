//! Lexical syntax of the names of PMS 3.1: categories, packages, slots, USE flags and
//! repositories.
use vstd::prelude::*;
use crate::text::{is_alnum, is_alnum_char};

verus! {

/// The kinds of names, each with its own character classes.
#[derive(Clone, Copy, Debug)]
pub enum NameKind {
    /// PMS 3.1.1 category names.
    Category,
    /// PMS 3.1.2 package names (lexical part only).
    Package,
    /// PMS 3.1.3 slot names.
    Slot,
    /// PMS 3.1.4 USE flag names.
    UseFlag,
    /// PMS 3.1.5 repository names.
    Repository,
    /// PMS 3.1.7 keyword (architecture) names.
    Keyword,
}

/// Characters allowed at the start of a name of kind `k`.
pub open spec fn is_start_char(k: NameKind, c: char) -> bool {
    match k {
        NameKind::UseFlag => is_alnum(c),
        _ => is_alnum(c) || c == '_',
    }
}

/// Characters allowed after the start of a name of kind `k`.
pub open spec fn is_body_char(k: NameKind, c: char) -> bool {
    match k {
        NameKind::Category | NameKind::Slot => is_alnum(c) || c == '_' || c == '+' || c == '.'
            || c == '-',
        NameKind::Package => is_alnum(c) || c == '_' || c == '+' || c == '-',
        NameKind::UseFlag => is_alnum(c) || c == '+' || c == '_' || c == '@' || c == '-',
        NameKind::Repository | NameKind::Keyword => is_alnum(c) || c == '_' || c == '-',
    }
}

/// `s` is a non-empty name of kind `k`.
pub closed spec fn is_name(k: NameKind, s: Seq<char>) -> bool {
    &&& s.len() > 0
    &&& is_start_char(k, s[0])
    &&& forall|i: int| 1 <= i < s.len() ==> is_body_char(k, #[trigger] s[i])
}

/// Names are never empty.
pub proof fn lemma_name_nonempty(k: NameKind, s: Seq<char>)
    ensures
        is_name(k, s) ==> s.len() > 0,
{
}

/// What a name of kind `k` is: a first character allowed at the start, then characters
/// allowed in the body.
pub proof fn lemma_name_def(k: NameKind, s: Seq<char>)
    ensures
        is_name(k, s) <==> (s.len() > 0 && is_start_char(k, s[0]) && forall|i: int|
            1 <= i < s.len() ==> is_body_char(k, #[trigger] s[i])),
{
}

/// Returns `true` if `c` may start a name of kind `k`.
pub fn is_start_char_exec(k: NameKind, c: char) -> (r: bool)
    ensures
        r == is_start_char(k, c),
{
    match k {
        NameKind::UseFlag => is_alnum_char(c),
        _ => is_alnum_char(c) || c == '_',
    }
}

/// Returns `true` if `c` may follow the start of a name of kind `k`.
pub fn is_body_char_exec(k: NameKind, c: char) -> (r: bool)
    ensures
        r == is_body_char(k, c),
{
    match k {
        NameKind::Category | NameKind::Slot => is_alnum_char(c) || c == '_' || c == '+' || c
            == '.' || c == '-',
        NameKind::Package => is_alnum_char(c) || c == '_' || c == '+' || c == '-',
        NameKind::UseFlag => is_alnum_char(c) || c == '+' || c == '_' || c == '@' || c == '-',
        NameKind::Repository | NameKind::Keyword => is_alnum_char(c) || c == '_' || c == '-',
    }
}

/// Returns `true` if `v[from..to]` is a name of kind `k`.
pub fn is_name_range(k: NameKind, v: &Vec<char>, from: usize, to: usize) -> (r: bool)
    requires
        from <= to <= v.len(),
    ensures
        r == is_name(k, v@.subrange(from as int, to as int)),
{
    let ghost s = v@.subrange(from as int, to as int);
    if from == to {
        return false;
    }
    if !is_start_char_exec(k, v[from]) {
        assert(s[0] == v@[from as int]);
        return false;
    }
    let mut i = from + 1;
    while i < to
        invariant
            from < i <= to <= v.len(),
            s == v@.subrange(from as int, to as int),
            forall|j: int| 1 <= j < i - from ==> is_body_char(k, #[trigger] s[j]),
        decreases to - i,
    {
        if !is_body_char_exec(k, v[i]) {
            assert(s[i - from] == v@[i as int]);
            return false;
        }
        assert(s[i - from] == v@[i as int]);
        i += 1;
    }
    assert(s[0] == v@[from as int]);
    true
}

/// Returns `true` if `s` is a name of kind `k`.
pub fn is_name_str(k: NameKind, s: &str) -> (r: bool)
    ensures
        r == is_name(k, s@),
{
    let v = crate::text::chars_of(s);
    assert(v@.subrange(0, v@.len() as int) == v@);
    is_name_range(k, &v, 0, v.len())
}

} // verus!
