//! The version functions of ebuilds (PMS 12.3.14): `ver_cut`, `ver_rs` and `ver_test`.
use crate::ebuild::handler::prot::{ParentMessage, ParentMessageView};
use crate::error::Error;
use crate::package::cpv::CPV;
use crate::package::version::unique::lemma_version_text_unique;
use crate::package::version::{PackageVersion, lemma_version_order, VersionView, is_version_text, version_order, version_pv, version_text, version_wf};
use crate::text::{
    append_str, chars_of, end_before, find_char, is_alnum, is_alnum_char, is_alpha, is_alpha_char,
    is_digit, is_digit_char, lemma_end_before, parse_usize, parse_usize_spec, push_char,
    string_from, str_eq,
};
use vstd::prelude::*;

verus! {

/// One part of a split version: the separator before a component, and the component.
pub type VerPart = (Seq<char>, Seq<char>);

/// Length of the run at the start of `s` of digits (`digit`) or of letters.
pub open spec fn run_len(s: Seq<char>, digit: bool) -> nat
    decreases s.len(),
{
    if s.len() > 0 && (if digit {
        is_digit(s[0])
    } else {
        is_alpha(s[0])
    }) {
        1 + run_len(s.drop_first(), digit)
    } else {
        0
    }
}

/// A run is no longer than the text.
pub proof fn lemma_run_len(s: Seq<char>, digit: bool)
    ensures
        run_len(s, digit) <= s.len(),
        forall|i: int| 0 <= i < run_len(s, digit) ==> (if digit {
            is_digit(#[trigger] s[i])
        } else {
            is_alpha(s[i])
        }),
        run_len(s, digit) < s.len() ==> !(if digit {
            is_digit(s[run_len(s, digit) as int])
        } else {
            is_alpha(s[run_len(s, digit) as int])
        }),
    decreases s.len(),
{
    if s.len() > 0 && (if digit {
        is_digit(s[0])
    } else {
        is_alpha(s[0])
    }) {
        lemma_run_len(s.drop_first(), digit);
        assert forall|i: int| 0 <= i < run_len(s, digit) implies (if digit {
            is_digit(#[trigger] s[i])
        } else {
            is_alpha(s[i])
        }) by {
            if i > 0 {
                assert(s[i] == s.drop_first()[i - 1]);
            }
        }
    }
}

/// Length of the separator at the start of `s`: one non-alphanumeric character, or none.
pub open spec fn sep_len(s: Seq<char>) -> int {
    if s.len() > 0 && !is_alnum(s[0]) {
        1
    } else {
        0
    }
}

/// Length of the component at the start of `r`: a run of the kind of its first character.
pub open spec fn comp_len(r: Seq<char>) -> nat {
    if r.len() > 0 {
        run_len(r, is_digit(r[0]))
    } else {
        0
    }
}

/// Splits a version into separators and components, e.g. `1.3b_alpha4` into
/// `("", "1") (".", "3") ("", "b") ("_", "alpha") ("", "4")`.
pub open spec fn ver_split_spec(s: Seq<char>) -> Seq<VerPart>
    decreases s.len(),
{
    if s.len() == 0 {
        Seq::empty()
    } else {
        let a = sep_len(s);
        let rest = s.skip(a);
        let k = comp_len(rest);
        proof {
            if rest.len() > 0 {
                lemma_run_len(rest, is_digit(rest[0]));
            }
        }
        if a + k == 0 {
            Seq::empty()
        } else {
            seq![(s.take(a), rest.take(k as int))] + ver_split_spec(rest.skip(k as int))
        }
    }
}

/// The text of the parts: each separator followed by its component.
pub open spec fn parts_text(p: Seq<VerPart>) -> Seq<char>
    decreases p.len(),
{
    if p.len() == 0 {
        Seq::empty()
    } else {
        parts_text(p.drop_last()) + p.last().0 + p.last().1
    }
}

/// The parts laid out flat: separator, component, separator, component, ...
pub open spec fn flat_parts(p: Seq<VerPart>) -> Seq<Seq<char>> {
    Seq::new(2 * p.len(), |i: int| if i % 2 == 0 {
        p[i / 2].0
    } else {
        p[i / 2].1
    })
}

/// Concatenation of texts.
pub open spec fn concat(s: Seq<Seq<char>>) -> Seq<char>
    decreases s.len(),
{
    if s.len() == 0 {
        Seq::empty()
    } else {
        concat(s.drop_last()) + s.last()
    }
}

/// Smaller of two integers.
pub open spec fn min_int(a: int, b: int) -> int {
    if a < b {
        a
    } else {
        b
    }
}

/// A range `A-B`, `A-` or `N` of 1-based inclusive indices, with `B` and an open end
/// limited to `max`.
pub open spec fn parse_range_spec(range: Seq<char>, max: nat) -> Option<(nat, nat)> {
    let k = end_before(range, '-');
    if k < range.len() {
        let a = range.take(k);
        let b = range.skip(k + 1);
        if a.len() == 0 {
            None
        } else {
            match parse_usize_spec(a) {
                None => None,
                Some(start) => if b.len() == 0 {
                    Some((start as nat, max))
                } else {
                    match parse_usize_spec(b) {
                        None => None,
                        Some(end) => if start > end {
                            None
                        } else {
                            Some((start as nat, min_int(end as int, max as int) as nat))
                        },
                    }
                },
            }
        }
    } else {
        match parse_usize_spec(range) {
            Some(n) => Some((n as nat, n as nat)),
            None => None,
        }
    }
}

/// The text that `ver_cut` gives for the components `start..=end` of the parts.
pub open spec fn cut_text(p: Seq<VerPart>, start: nat, end: nat) -> Seq<char> {
    let s: int = if start > 0 {
        2 * start - 1
    } else {
        0
    };
    let e: int = 2 * end as int;
    let l: int = 2 * p.len() as int;
    if s >= e {
        Seq::empty()
    } else {
        concat(flat_parts(p).subrange(min_int(s, l), min_int(e, l)))
    }
}

/// Replaces the separators `start..=end` by `repl`, except an empty leading separator.
pub open spec fn replace_seps(p: Seq<VerPart>, start: nat, end: nat, repl: Seq<char>) -> Seq<VerPart> {
    Seq::new(p.len(), |i: int| if start <= i <= end && !(i == 0 && p[i].0.len() == 0) {
        (repl, p[i].1)
    } else {
        p[i]
    })
}

/// Applies the `(range, replacement)` pairs of `ver_rs` in order; `None` where a range is
/// invalid.
pub open spec fn apply_pairs(p: Seq<VerPart>, pairs: Seq<Seq<char>>, max: nat) -> Option<Seq<VerPart>>
    decreases pairs.len(),
{
    if pairs.len() < 2 {
        Some(p)
    } else {
        match parse_range_spec(pairs[0], max) {
            None => None,
            Some((s, e)) => apply_pairs(
                if s > e || s > max {
                    p
                } else {
                    replace_seps(p, s, e, pairs[1])
                },
                pairs.skip(2),
                max,
            ),
        }
    }
}

/// The comparison operators of `ver_test`.
pub open spec fn test_op_code(op: Seq<char>) -> Option<u8> {
    if op == "-gt"@ {
        Some(0)
    } else if op == "-ge"@ {
        Some(1)
    } else if op == "-eq"@ {
        Some(2)
    } else if op == "-ne"@ {
        Some(3)
    } else if op == "-le"@ {
        Some(4)
    } else if op == "-lt"@ {
        Some(5)
    } else {
        None
    }
}

/// The comparison `code` holds for the three-way comparison result `c`.
pub open spec fn test_holds(code: u8, c: int) -> bool {
    if code == 0 {
        c > 0
    } else if code == 1 {
        c >= 0
    } else if code == 2 {
        c == 0
    } else if code == 3 {
        c != 0
    } else if code == 4 {
        c <= 0
    } else {
        c < 0
    }
}

/// The reply for a successful function with the given text.
pub open spec fn ok_text(t: Seq<char>) -> ParentMessageView {
    (0, Some(t))
}

/// Returns `true` if `c` is a digit (`digit`) or a letter.
fn in_run(c: char, digit: bool) -> (r: bool)
    ensures
        r == if digit {
            is_digit(c)
        } else {
            is_alpha(c)
        },
{
    if digit {
        is_digit_char(c)
    } else {
        is_alpha_char(c)
    }
}

/// Returns the end of the run of digits (`digit`) or letters in `v[from..to]`.
fn run_end(v: &Vec<char>, from: usize, to: usize, digit: bool) -> (k: usize)
    requires
        from <= to <= v.len(),
    ensures
        from <= k <= to,
        k - from == run_len(v@.subrange(from as int, to as int), digit),
{
    let ghost s = v@.subrange(from as int, to as int);
    proof {
        lemma_run_len(s, digit);
    }
    let mut k = from;
    while k < to && in_run(v[k], digit)
        invariant
            from <= k <= to <= v.len(),
            s == v@.subrange(from as int, to as int),
            k - from <= run_len(s, digit),
            run_len(s, digit) <= s.len(),
            forall|i: int| 0 <= i < run_len(s, digit) ==> (if digit {
                is_digit(#[trigger] s[i])
            } else {
                is_alpha(s[i])
            }),
            run_len(s, digit) < s.len() ==> !(if digit {
                is_digit(s[run_len(s, digit) as int])
            } else {
                is_alpha(s[run_len(s, digit) as int])
            }),
        decreases to - k,
    {
        assert(s[k - from] == v@[k as int]);
        k += 1;
    }
    proof {
        if k < to {
            assert(s[k - from] == v@[k as int]);
        }
    }
    k
}

/// The views of a list of split parts.
pub open spec fn parts_view(p: Seq<(String, String)>) -> Seq<VerPart> {
    p.map_values(|x: (String, String)| (x.0@, x.1@))
}

/// Splits `version` into separators and components.
pub fn ver_split(version: &str) -> (r: Vec<(String, String)>)
    ensures
        parts_view(r@) == ver_split_spec(version@),
{
    let v = chars_of(version);
    let n = v.len();
    let mut parts: Vec<(String, String)> = Vec::new();
    let mut i: usize = 0;
    assert(v@.skip(0) == v@);
    while i < n
        invariant
            0 <= i <= n == v@.len(),
            v@ == version@,
            ver_split_spec(version@) == parts_view(parts@) + ver_split_spec(v@.skip(i as int)),
        decreases n - i,
    {
        let ghost s = v@.skip(i as int);
        assert(s[0] == v@[i as int]);
        let j: usize = if !is_alnum_char(v[i]) {
            i + 1
        } else {
            i
        };
        let ghost rest = s.skip(j - i);
        assert(rest == v@.subrange(j as int, n as int));
        let k = if j < n {
            assert(rest[0] == v@[j as int]);
            run_end(&v, j, n, is_digit_char(v[j]))
        } else {
            j
        };
        assert(k - j == comp_len(rest));
        let sep = string_from(&v, i, j);
        let comp = string_from(&v, j, k);
        let ghost before = parts@;
        parts.push((sep, comp));
        proof {
            assert(s.take(j - i) == v@.subrange(i as int, j as int));
            assert(rest.take(k - j) == v@.subrange(j as int, k as int));
            assert(rest.skip(k - j) == v@.skip(k as int));
            assert(k > i) by {
                if j == i {
                    assert(is_alnum(v@[i as int]));
                    assert(rest[0] == v@[i as int]);
                    lemma_run_len(rest, is_digit(rest[0]));
                    if is_digit(rest[0]) {
                        assert(run_len(rest, true) >= 1) by {
                            reveal_with_fuel(run_len, 2);
                        }
                    } else {
                        assert(is_alpha(rest[0]));
                        assert(run_len(rest, false) >= 1) by {
                            reveal_with_fuel(run_len, 2);
                        }
                    }
                }
            }
            assert(parts_view(parts@) =~= parts_view(before).push((s.take(j - i), rest.take(k - j))));
            assert(ver_split_spec(s) == seq![(s.take(j - i), rest.take(k - j))] + ver_split_spec(
                rest.skip(k - j),
            ));
            assert(ver_split_spec(version@) =~= parts_view(parts@) + ver_split_spec(v@.skip(k as int)));
        }
        i = k;
    }
    assert(v@.skip(n as int) =~= Seq::<char>::empty());
    assert(parts_view(parts@) + Seq::<VerPart>::empty() =~= parts_view(parts@));
    parts
}

/// Parses a range `A-B`, `A-` or `N`, limiting `B` and an open end to `max`.
pub fn parse_range(range: &str, max: usize) -> (r: Result<(usize, usize), Error>)
    ensures
        match parse_range_spec(range@, max as nat) {
            Some((s, e)) => r == Ok::<(usize, usize), Error>((s as usize, e as usize)),
            None => r is Err,
        },
{
    let v = chars_of(range);
    let n = v.len();
    assert(v@.subrange(0, n as int) == v@);
    let k = find_char(&v, 0, n, '-');
    proof {
        lemma_end_before(v@, '-');
    }
    if k < n {
        assert(v@.take(k as int) == v@.subrange(0, k as int));
        assert(v@.skip(k + 1) == v@.subrange(k + 1, n as int));
        if k == 0 {
            return Err(Error::new("range must start with a number"));
        }
        let start = match parse_usize(&v, 0, k) {
            Some(x) => x,
            None => {
                return Err(Error::new("range start is not a number"));
            },
        };
        if k + 1 == n {
            return Ok((start, max));
        }
        let end = match parse_usize(&v, k + 1, n) {
            Some(x) => x,
            None => {
                return Err(Error::new("range end is not a number"));
            },
        };
        if start > end {
            return Err(Error::new("range end must be >= start"));
        }
        Ok((
            start,
            if end < max {
                end
            } else {
                max
            },
        ))
    } else {
        match parse_usize(&v, 0, n) {
            Some(x) => Ok((x, x)),
            None => Err(Error::new("range is not a number")),
        }
    }
}

/// Returns the text of the parts.
fn join_parts(parts: &Vec<(String, String)>) -> (r: String)
    ensures
        r@ == parts_text(parts_view(parts@)),
{
    let mut s = String::new();
    let mut i: usize = 0;
    while i < parts.len()
        invariant
            0 <= i <= parts@.len(),
            s@ == parts_text(parts_view(parts@).subrange(0, i as int)),
        decreases parts.len() - i,
    {
        append_str(&mut s, parts[i].0.as_str());
        append_str(&mut s, parts[i].1.as_str());
        proof {
            let sub = parts_view(parts@).subrange(0, i + 1);
            assert(sub.drop_last() =~= parts_view(parts@).subrange(0, i as int));
        }
        i += 1;
    }
    assert(parts_view(parts@).subrange(0, i as int) == parts_view(parts@));
    s
}

/// Returns the concatenation of the flat parts `from..to`.
fn concat_flat(parts: &Vec<(String, String)>, k0: usize, second0: bool, from: u128, to: u128) -> (r: String)
    requires
        from <= to <= 2 * parts@.len(),
        from == 2 * k0 + if second0 { 1int } else { 0int },
    ensures
        r@ == concat(flat_parts(parts_view(parts@)).subrange(from as int, to as int)),
{
    let ghost f = flat_parts(parts_view(parts@));
    let mut s = String::new();
    let mut i = from;
    let mut k: usize = k0;
    let mut second = second0;
    let n = parts.len();
    assert(f.subrange(from as int, from as int) =~= Seq::<Seq<char>>::empty());
    while i < to
        invariant
            from <= i <= to <= 2 * parts@.len(),
            i == 2 * k + if second { 1int } else { 0int },
            k <= parts@.len(),
            n == parts@.len(),
            f == flat_parts(parts_view(parts@)),
            s@ == concat(f.subrange(from as int, i as int)),
        decreases to - i,
    {
        let p = &parts[k];
        assert(parts_view(parts@)[k as int] == (parts@[k as int].0@, parts@[k as int].1@));
        assert(f[i as int] == if second { parts_view(parts@)[k as int].1 } else { parts_view(parts@)[k as int].0 });
        if second {
            append_str(&mut s, p.1.as_str());
        } else {
            append_str(&mut s, p.0.as_str());
        }
        proof {
            let sub = f.subrange(from as int, i + 1);
            assert(sub.drop_last() =~= f.subrange(from as int, i as int));
            assert(sub.last() == f[i as int]);
        }
        if second {
            k += 1;
            second = false;
        } else {
            second = true;
        }
        i += 1;
    }
    s
}

/// The text of an optional string.
pub open spec fn opt_view(x: Option<&str>) -> Option<Seq<char>> {
    match x {
        Some(s) => Some(s@),
        None => None,
    }
}

/// The reply of `ver_cut range [version]`, where `pv` is the package's `PV`; `None`
/// where the range is invalid.
pub open spec fn ver_cut_result(pv: Seq<char>, range: Seq<char>, version: Option<Seq<char>>) -> Option<ParentMessageView> {
    let text = match version {
        Some(x) => x,
        None => pv,
    };
    let parts = ver_split_spec(text);
    match parse_range_spec(range, parts.len()) {
        Some((s, e)) => Some(ok_text(cut_text(parts, s, e))),
        None => None,
    }
}

/// The reply of `ver_rs args`, where `pv` is the package's `PV`; `None` where there are
/// fewer than two arguments or a range is invalid.
pub open spec fn ver_rs_result(pv: Seq<char>, args: Seq<Seq<char>>) -> Option<ParentMessageView> {
    if args.len() < 2 {
        None
    } else {
        let odd = args.len() % 2 == 1;
        let text = if odd {
            args.last()
        } else {
            pv
        };
        let pairs = args.take(args.len() - if odd { 1int } else { 0int });
        let parts = ver_split_spec(text);
        let max: nat = if parts.len() > 0 { (parts.len() - 1) as nat } else { 0 };
        match apply_pairs(parts, pairs, max) {
            Some(p) => Some(ok_text(parts_text(p))),
            None => None,
        }
    }
}

/// The letters and digits of `s`, in order.
pub open spec fn alnum_chars(s: Seq<char>) -> Seq<char>
    decreases s.len(),
{
    if s.len() == 0 {
        Seq::empty()
    } else if is_alnum(s.last()) {
        alnum_chars(s.drop_last()).push(s.last())
    } else {
        alnum_chars(s.drop_last())
    }
}

/// `s` holds no letter or digit.
pub open spec fn no_alnum(s: Seq<char>) -> bool {
    forall|i: int| 0 <= i < s.len() ==> !is_alnum(#[trigger] s[i])
}

/// Every replacement among the `(range, replacement)` pairs holds no letter or digit.
pub open spec fn replacements_clean(args: Seq<Seq<char>>) -> bool {
    forall|i: int| 0 <= i < args.len() && i % 2 == 1 ==> no_alnum(#[trigger] args[i])
}

/// No separator of the parts holds a letter or digit.
spec fn seps_clean(p: Seq<VerPart>) -> bool {
    forall|i: int| 0 <= i < p.len() ==> no_alnum(#[trigger] p[i].0)
}

/// The components of the parts.
spec fn comps(p: Seq<VerPart>) -> Seq<Seq<char>> {
    p.map_values(|x: VerPart| x.1)
}

proof fn lemma_alnum_chars_add(a: Seq<char>, b: Seq<char>)
    ensures
        alnum_chars(a + b) == alnum_chars(a) + alnum_chars(b),
    decreases b.len(),
{
    if b.len() == 0 {
        assert(a + b =~= a);
        assert(alnum_chars(a) + alnum_chars(b) =~= alnum_chars(a));
    } else {
        lemma_alnum_chars_add(a, b.drop_last());
        assert((a + b).drop_last() =~= a + b.drop_last());
        assert((a + b).last() == b.last());
        if is_alnum(b.last()) {
            assert(alnum_chars(a) + alnum_chars(b.drop_last()).push(b.last()) =~= (alnum_chars(a) + alnum_chars(b.drop_last())).push(b.last()));
        }
    }
}

proof fn lemma_alnum_chars_none(s: Seq<char>)
    requires
        no_alnum(s),
    ensures
        alnum_chars(s) == Seq::<char>::empty(),
    decreases s.len(),
{
    if s.len() > 0 {
        assert(!is_alnum(s[s.len() - 1]));
        assert(no_alnum(s.drop_last())) by {
            assert forall|i: int| 0 <= i < s.drop_last().len() implies !is_alnum(#[trigger] s.drop_last()[i]) by {
                assert(s.drop_last()[i] == s[i]);
            }
        }
        lemma_alnum_chars_none(s.drop_last());
    }
}

/// With clean separators only the components carry letters and digits.
proof fn lemma_parts_alnum(p: Seq<VerPart>)
    requires
        seps_clean(p),
    ensures
        alnum_chars(parts_text(p)) == alnum_chars(concat(comps(p))),
    decreases p.len(),
{
    if p.len() > 0 {
        let q = p.drop_last();
        assert(seps_clean(q)) by {
            assert forall|i: int| 0 <= i < q.len() implies no_alnum(#[trigger] q[i].0) by {
                assert(q[i] == p[i]);
            }
        }
        lemma_parts_alnum(q);
        assert(comps(p).drop_last() =~= comps(q));
        assert(comps(p).last() == p.last().1);
        assert(no_alnum(p[p.len() - 1].0));
        lemma_alnum_chars_none(p.last().0);
        lemma_alnum_chars_add(parts_text(q) + p.last().0, p.last().1);
        lemma_alnum_chars_add(parts_text(q), p.last().0);
        lemma_alnum_chars_add(concat(comps(q)), p.last().1);
        assert(alnum_chars(parts_text(q)) + Seq::<char>::empty() =~= alnum_chars(parts_text(q)));
    }
}

proof fn lemma_parts_text_prepend(x: VerPart, rest: Seq<VerPart>)
    ensures
        parts_text(seq![x] + rest) == x.0 + x.1 + parts_text(rest),
    decreases rest.len(),
{
    if rest.len() == 0 {
        let one = seq![x] + rest;
        assert(one.drop_last() =~= Seq::<VerPart>::empty());
        assert(one.last() == x);
        assert(parts_text(one.drop_last()) == Seq::<char>::empty());
        assert(parts_text(one) == parts_text(one.drop_last()) + one.last().0 + one.last().1);
        assert(parts_text(rest) == Seq::<char>::empty());
        assert(Seq::<char>::empty() + x.0 + x.1 =~= x.0 + x.1 + Seq::<char>::empty());
    } else {
        lemma_parts_text_prepend(x, rest.drop_last());
        let all = seq![x] + rest;
        assert(all.drop_last() =~= seq![x] + rest.drop_last());
        assert(all.last() == rest.last());
        assert(parts_text(all) == parts_text(all.drop_last()) + all.last().0 + all.last().1);
        assert(parts_text(rest) == parts_text(rest.drop_last()) + rest.last().0 + rest.last().1);
        assert(x.0 + x.1 + parts_text(rest.drop_last()) + rest.last().0 + rest.last().1 =~= x.0 + x.1 + (
        parts_text(rest.drop_last()) + rest.last().0 + rest.last().1));
    }
}

/// Splitting a version loses no character, and each separator is a single character that
/// is neither a letter nor a digit, or nothing.
proof fn lemma_split_text(s: Seq<char>)
    ensures
        parts_text(ver_split_spec(s)) == s,
        seps_clean(ver_split_spec(s)),
    decreases s.len(),
{
    if s.len() > 0 {
        let a = sep_len(s);
        let rest = s.skip(a);
        let k = comp_len(rest);
        if rest.len() > 0 {
            lemma_run_len(rest, is_digit(rest[0]));
            if a == 0 {
                assert(is_alnum(s[0]));
                assert(rest[0] == s[0]);
            }
        }
        assert(a + k > 0);
        let tail = rest.skip(k as int);
        lemma_split_text(tail);
        let x = (s.take(a), rest.take(k as int));
        lemma_parts_text_prepend(x, ver_split_spec(tail));
        assert(s.take(a) + rest.take(k as int) + tail =~= s);
        let p = ver_split_spec(s);
        assert(p == seq![x] + ver_split_spec(tail));
        assert forall|i: int| 0 <= i < p.len() implies no_alnum(#[trigger] p[i].0) by {
            if i == 0 {
                assert(p[0] == x);
                if a == 1 {
                    assert(x.0 =~= seq![s[0]]);
                } else {
                    assert(x.0.len() == 0);
                }
            } else {
                assert(p[i] == ver_split_spec(tail)[i - 1]);
            }
        }
    }
}

/// A replacement without letters or digits keeps the separators clean and the components.
proof fn lemma_replace_clean(p: Seq<VerPart>, start: nat, end: nat, repl: Seq<char>)
    requires
        seps_clean(p),
        no_alnum(repl),
    ensures
        seps_clean(replace_seps(p, start, end, repl)),
        comps(replace_seps(p, start, end, repl)) == comps(p),
{
    let q = replace_seps(p, start, end, repl);
    assert forall|i: int| 0 <= i < q.len() implies no_alnum(#[trigger] q[i].0) by {
        assert(no_alnum(p[i].0));
    }
    assert(comps(q) =~= comps(p));
}

proof fn lemma_apply_clean(p: Seq<VerPart>, pairs: Seq<Seq<char>>, max: nat)
    requires
        seps_clean(p),
        replacements_clean(pairs),
    ensures
        apply_pairs(p, pairs, max) matches Some(q) ==> seps_clean(q) && comps(q) == comps(p),
    decreases pairs.len(),
{
    if pairs.len() >= 2 {
        match parse_range_spec(pairs[0], max) {
            None => {},
            Some((st, e)) => {
                assert(no_alnum(pairs[1]));
                let next = if st > e || st > max {
                    p
                } else {
                    lemma_replace_clean(p, st, e, pairs[1]);
                    replace_seps(p, st, e, pairs[1])
                };
                let rest = pairs.skip(2);
                assert(replacements_clean(rest)) by {
                    assert forall|i: int| 0 <= i < rest.len() && i % 2 == 1 implies no_alnum(#[trigger] rest[i]) by {
                        assert(rest[i] == pairs[i + 2]);
                        assert((i + 2) % 2 == 1);
                    }
                }
                lemma_apply_clean(next, rest, max);
            },
        }
    }
}

/// `ver_rs` with replacements that hold no letter or digit only replaces separators: the
/// letters and digits of the version stay in place and in order.
pub proof fn lemma_ver_rs_keeps_alnum(pv: Seq<char>, args: Seq<Seq<char>>)
    requires
        args.len() >= 2,
        replacements_clean(args),
    ensures
        match ver_rs_result(pv, args) {
            Some(m) => m.0 == 0 && m.1 is Some && alnum_chars(m.1->0) == alnum_chars(
                if args.len() % 2 == 1 {
                    args.last()
                } else {
                    pv
                },
            ),
            None => true,
        },
{
    let odd = args.len() % 2 == 1;
    let text = if odd { args.last() } else { pv };
    let pairs = args.take(args.len() - if odd { 1int } else { 0int });
    let parts = ver_split_spec(text);
    let max: nat = if parts.len() > 0 { (parts.len() - 1) as nat } else { 0 };
    lemma_split_text(text);
    assert(replacements_clean(pairs)) by {
        assert forall|i: int| 0 <= i < pairs.len() && i % 2 == 1 implies no_alnum(#[trigger] pairs[i]) by {
            assert(pairs[i] == args[i]);
        }
    }
    lemma_apply_clean(parts, pairs, max);
    lemma_parts_alnum(parts);
    match apply_pairs(parts, pairs, max) {
        Some(q) => {
            lemma_parts_alnum(q);
        },
        None => {},
    }
}

/// `ver_test [version1] op version2` can be answered: the versions are valid and the
/// operator is known.
pub open spec fn ver_test_accepts(version1: Option<Seq<char>>, op: Seq<char>, version2: Seq<char>) -> bool {
    &&& (version1 matches Some(x) ==> is_version_text(x))
    &&& is_version_text(version2)
    &&& test_op_code(op) is Some
}

/// `m` is the reply of `ver_test [version1] op version2` where the package's version is
/// `current`: success where the comparison holds.
pub open spec fn ver_test_reply(
    current: VersionView,
    version1: Option<Seq<char>>,
    op: Seq<char>,
    version2: Seq<char>,
    m: ParentMessageView,
) -> bool {
    exists|a: VersionView, b: VersionView|
        {
            &&& version_wf(b) && version_text(b) == version2
            &&& match version1 {
                Some(x) => version_wf(a) && version_text(a) == x,
                None => a == current,
            }
            &&& m == (if test_holds(test_op_code(op)->0, version_order(a, b)) {
                0u8
            } else {
                1u8
            }, None::<Seq<char>>)
        }
}

/// The reply of `ver_test` is determined by its arguments: the versions are read the one
/// way their text allows.
pub proof fn lemma_ver_test_reply_unique(
    current: VersionView,
    version1: Option<Seq<char>>,
    op: Seq<char>,
    version2: Seq<char>,
    m1: ParentMessageView,
    m2: ParentMessageView,
)
    requires
        ver_test_reply(current, version1, op, version2, m1),
        ver_test_reply(current, version1, op, version2, m2),
    ensures
        m1 == m2,
{
    let (a1, b1) = choose|a: VersionView, b: VersionView| {
        &&& version_wf(b) && version_text(b) == version2
        &&& match version1 {
            Some(x) => version_wf(a) && version_text(a) == x,
            None => a == current,
        }
        &&& m1 == (if test_holds(test_op_code(op)->0, version_order(a, b)) { 0u8 } else { 1u8 }, None::<Seq<char>>)
    };
    let (a2, b2) = choose|a: VersionView, b: VersionView| {
        &&& version_wf(b) && version_text(b) == version2
        &&& match version1 {
            Some(x) => version_wf(a) && version_text(a) == x,
            None => a == current,
        }
        &&& m2 == (if test_holds(test_op_code(op)->0, version_order(a, b)) { 0u8 } else { 1u8 }, None::<Seq<char>>)
    };
    lemma_version_text_unique(b1, b2);
    if version1 is Some {
        lemma_version_text_unique(a1, a2);
    }
}

/// The operators of `ver_test` relate as comparisons do: `-gt` of two versions is `-lt`
/// of them swapped, `-ne` negates `-eq`, `-ge` is `-gt` or `-eq`, `-le` is `-lt` or
/// `-eq`, and exactly one of `-lt`, `-eq` and `-gt` succeeds.
pub proof fn lemma_ver_test_laws(
    current: VersionView,
    x: Seq<char>,
    y: Seq<char>,
    gt: ParentMessageView,
    ge: ParentMessageView,
    eq: ParentMessageView,
    ne: ParentMessageView,
    le: ParentMessageView,
    lt: ParentMessageView,
    gt_swapped: ParentMessageView,
    lt_swapped: ParentMessageView,
)
    requires
        ver_test_reply(current, Some(x), "-gt"@, y, gt),
        ver_test_reply(current, Some(x), "-ge"@, y, ge),
        ver_test_reply(current, Some(x), "-eq"@, y, eq),
        ver_test_reply(current, Some(x), "-ne"@, y, ne),
        ver_test_reply(current, Some(x), "-le"@, y, le),
        ver_test_reply(current, Some(x), "-lt"@, y, lt),
        ver_test_reply(current, Some(y), "-gt"@, x, gt_swapped),
        ver_test_reply(current, Some(y), "-lt"@, x, lt_swapped),
    ensures
        gt == lt_swapped,
        lt == gt_swapped,
        (ne.0 == 0) == (eq.0 != 0),
        (ge.0 == 0) == (gt.0 == 0 || eq.0 == 0),
        (le.0 == 0) == (lt.0 == 0 || eq.0 == 0),
        lt.0 == 0 || eq.0 == 0 || gt.0 == 0,
        !(lt.0 == 0 && eq.0 == 0) && !(lt.0 == 0 && gt.0 == 0) && !(eq.0 == 0 && gt.0 == 0),
        forall|m: ParentMessageView| #[trigger] ver_test_reply(current, Some(x), "-gt"@, y, m) ==> m == gt,
{
    reveal_strlit("-gt");
    reveal_strlit("-ge");
    reveal_strlit("-eq");
    reveal_strlit("-ne");
    reveal_strlit("-le");
    reveal_strlit("-lt");
    assert("-ge"@[2] != "-gt"@[2]);
    assert("-eq"@[1] != "-gt"@[1] && "-eq"@[1] != "-ge"@[1]);
    assert("-ne"@[1] != "-gt"@[1] && "-ne"@[1] != "-ge"@[1] && "-ne"@[1] != "-eq"@[1]);
    assert("-le"@[1] != "-gt"@[1] && "-le"@[1] != "-ge"@[1] && "-le"@[1] != "-eq"@[1] && "-le"@[1] != "-ne"@[1]);
    assert("-lt"@[1] != "-gt"@[1] && "-lt"@[1] != "-ge"@[1] && "-lt"@[1] != "-eq"@[1] && "-lt"@[1] != "-ne"@[1]
        && "-lt"@[2] != "-le"@[2]);
    assert(test_op_code("-gt"@) == Some(0u8));
    assert(test_op_code("-ge"@) == Some(1u8));
    assert(test_op_code("-eq"@) == Some(2u8));
    assert(test_op_code("-ne"@) == Some(3u8));
    assert(test_op_code("-le"@) == Some(4u8));
    assert(test_op_code("-lt"@) == Some(5u8));
    let (a, b) = choose|a: VersionView, b: VersionView| {
        &&& version_wf(b) && version_text(b) == y
        &&& version_wf(a) && version_text(a) == x
        &&& gt == (if test_holds(0u8, version_order(a, b)) { 0u8 } else { 1u8 }, None::<Seq<char>>)
    };
    lemma_version_order(a, b);
    let c = version_order(a, b);
    let expect = |code: u8| (if test_holds(code, c) { 0u8 } else { 1u8 }, None::<Seq<char>>);
    let expect_swapped = |code: u8| (if test_holds(code, version_order(b, a)) { 0u8 } else { 1u8 }, None::<Seq<char>>);
    assert(ver_test_reply(current, Some(x), "-ge"@, y, expect(1u8)));
    lemma_ver_test_reply_unique(current, Some(x), "-ge"@, y, ge, expect(1u8));
    assert(ver_test_reply(current, Some(x), "-eq"@, y, expect(2u8)));
    lemma_ver_test_reply_unique(current, Some(x), "-eq"@, y, eq, expect(2u8));
    assert(ver_test_reply(current, Some(x), "-ne"@, y, expect(3u8)));
    lemma_ver_test_reply_unique(current, Some(x), "-ne"@, y, ne, expect(3u8));
    assert(ver_test_reply(current, Some(x), "-le"@, y, expect(4u8)));
    lemma_ver_test_reply_unique(current, Some(x), "-le"@, y, le, expect(4u8));
    assert(ver_test_reply(current, Some(x), "-lt"@, y, expect(5u8)));
    lemma_ver_test_reply_unique(current, Some(x), "-lt"@, y, lt, expect(5u8));
    assert(ver_test_reply(current, Some(y), "-gt"@, x, expect_swapped(0u8)));
    lemma_ver_test_reply_unique(current, Some(y), "-gt"@, x, gt_swapped, expect_swapped(0u8));
    assert(ver_test_reply(current, Some(y), "-lt"@, x, expect_swapped(5u8)));
    lemma_ver_test_reply_unique(current, Some(y), "-lt"@, x, lt_swapped, expect_swapped(5u8));
    assert forall|m: ParentMessageView| #[trigger] ver_test_reply(current, Some(x), "-gt"@, y, m) implies m == gt by {
        lemma_ver_test_reply_unique(current, Some(x), "-gt"@, y, m, gt);
    }
}

/// `ver_cut`: the components `range` of `version` (by default the package's `PV`) with
/// the separators between them, e.g. `ver_cut 1-2 1.2.3` gives `1.2`.
pub fn ver_cut(cpv: &CPV, range: &str, version: Option<&str>) -> (r: Result<ParentMessage, Error>)
    ensures
        match ver_cut_result(version_pv(cpv@.version), range@, opt_view(version)) {
            Some(m) => r matches Ok(x) && x@ == m,
            None => r is Err,
        },
{
    let pv;
    let text: &str = match version {
        Some(x) => x,
        None => {
            pv = cpv.pv();
            pv.as_str()
        },
    };
    let parts = ver_split(text);
    let n = parts.len();
    let (start, end) = match parse_range(range, n) {
        Ok(x) => x,
        Err(e) => {
            return Err(e);
        },
    };
    if start > n {
        return Ok(ParentMessage::Success(Some(String::new())));
    }
    let s: u128 = if start > 0 {
        2 * (start as u128) - 1
    } else {
        0
    };
    let e: u128 = if end < n {
        2 * (end as u128)
    } else {
        2 * (n as u128)
    };
    if s >= e {
        return Ok(ParentMessage::Success(Some(String::new())));
    }
    let out = if start > 0 {
        concat_flat(&parts, start - 1, true, s, e)
    } else {
        concat_flat(&parts, 0, false, s, e)
    };
    Ok(ParentMessage::Success(Some(out)))
}

/// Replaces the separators `start..=end` of `parts` by `repl`.
fn replace_range(parts: &mut Vec<(String, String)>, start: usize, end: usize, repl: &str)
    ensures
        final(parts)@.len() == old(parts)@.len(),
        parts_view(final(parts)@) == replace_seps(parts_view(old(parts)@), start as nat, end as nat, repl@),
{
    let ghost old_view = parts_view(parts@);
    let n = parts.len();
    let mut i: usize = 0;
    while i < n
        invariant
            0 <= i <= n == parts@.len(),
            old_view.len() == n,
            forall|j: int| 0 <= j < i ==> parts_view(parts@)[j] == replace_seps(old_view, start as nat, end as nat, repl@)[j],
            forall|j: int| i <= j < n ==> parts_view(parts@)[j] == old_view[j],
        decreases n - i,
    {
        let ghost target = replace_seps(old_view, start as nat, end as nat, repl@)[i as int];
        assert(parts_view(parts@)[i as int] == (parts@[i as int].0@, parts@[i as int].1@));
        if start <= i && i <= end && !(i == 0 && parts[i].0.as_str().is_empty()) {
            let comp = parts[i].1.clone();
            let ghost before = parts@;
            parts.set(i, (repl.to_owned(), comp));
            proof {
                assert forall|j: int| 0 <= j < n && j != i implies parts@[j] == before[j] by {}
                assert(parts_view(parts@)[i as int] == target);
                assert forall|j: int| 0 <= j < n && j != i implies parts_view(parts@)[j] == parts_view(before)[j] by {
                    assert(parts_view(parts@)[j] == (parts@[j].0@, parts@[j].1@));
                    assert(parts_view(before)[j] == (before[j].0@, before[j].1@));
                }
                assert forall|j: int| 0 <= j < i + 1 implies parts_view(parts@)[j] == replace_seps(old_view, start as nat, end as nat, repl@)[j] by {
                    if j < i {
                        assert(parts_view(parts@)[j] == parts_view(before)[j]);
                    }
                }
            }
        } else {
            assert(parts_view(parts@)[i as int] == target);
        }
        i += 1;
    }
    assert(parts_view(parts@) =~= replace_seps(old_view, start as nat, end as nat, repl@));
}

/// `ver_rs`: replaces separators of a version by the `(range, replacement)` pairs of `args`;
/// an odd last argument is the version, else the package's `PV` is used.
pub fn ver_rs(cpv: &CPV, args: &[String]) -> (r: Result<ParentMessage, Error>)
    ensures
        match ver_rs_result(version_pv(cpv@.version), args@.map_values(|a: String| a@)) {
            Some(m) => r matches Ok(x) && x@ == m,
            None => r is Err,
        },
{
    let n = args.len();
    if n < 2 {
        return Err(Error::new("ver_rs requires at least two arguments"));
    }
    let odd = n % 2 == 1;
    let pv;
    let text: &str = if odd {
        args[n - 1].as_str()
    } else {
        pv = cpv.pv();
        pv.as_str()
    };
    let pair_count: usize = if odd {
        n - 1
    } else {
        n
    };
    let ghost pairs = args@.take(pair_count as int).map_values(|a: String| a@);
    proof {
        let av = args@.map_values(|a: String| a@);
        assert(av.take(pair_count as int) =~= pairs);
        assert(av.last() == args@.last()@);
    }
    let mut parts = ver_split(text);
    let max = if parts.len() > 0 {
        parts.len() - 1
    } else {
        0
    };
    let ghost p0 = parts_view(parts@);
    let mut i: usize = 0;
    assert(pairs.skip(0) == pairs);
    while i + 1 < pair_count
        invariant
            pair_count <= n == args@.len(),
            pair_count % 2 == 0,
            i % 2 == 0,
            i <= pair_count,
            pairs == args@.take(pair_count as int).map_values(|a: String| a@),
            parts@.len() == p0.len(),
            max == if p0.len() > 0 { (p0.len() - 1) as nat } else { 0 },
            apply_pairs(p0, pairs, max as nat) == apply_pairs(parts_view(parts@), pairs.skip(i as int), max as nat),
            odd == (n % 2 == 1),
            pair_count == if odd { n - 1 } else { n as int },
            p0 == ver_split_spec(text@),
            text@ == if odd { args@.last()@ } else { version_pv(cpv@.version) },
            ver_rs_result(version_pv(cpv@.version), args@.map_values(|a: String| a@)) == match apply_pairs(p0, pairs, max as nat) {
                Some(p) => Some(ok_text(parts_text(p))),
                None => None,
            },
        decreases pair_count - i,
    {
        let ghost rest = pairs.skip(i as int);
        assert(rest.len() >= 2);
        assert(rest[0] == args@[i as int]@);
        assert(rest[1] == args@[i + 1]@);
        assert(rest.skip(2) == pairs.skip(i + 2));
        let (s, e) = match parse_range(args[i].as_str(), max) {
            Ok(x) => x,
            Err(err) => {
                assert(parse_range_spec(rest[0], max as nat) is None);
                assert(apply_pairs(parts_view(parts@), rest, max as nat) is None);
                return Err(err);
            },
        };
        if !(s > e || s > max) {
            replace_range(&mut parts, s, e, args[i + 1].as_str());
        }
        i += 2;
    }
    assert(pairs.skip(i as int).len() < 2);
    let out = join_parts(&parts);
    Ok(ParentMessage::Success(Some(out)))
}

/// Returns the code of the `ver_test` operator `op`.
fn test_op(op: &str) -> (r: Option<u8>)
    ensures
        r == test_op_code(op@),
{
    if str_eq(op, "-gt") {
        Some(0)
    } else if str_eq(op, "-ge") {
        Some(1)
    } else if str_eq(op, "-eq") {
        Some(2)
    } else if str_eq(op, "-ne") {
        Some(3)
    } else if str_eq(op, "-le") {
        Some(4)
    } else if str_eq(op, "-lt") {
        Some(5)
    } else {
        None
    }
}

/// `ver_test`: compares `version1` (by default the package's version) with `version2`
/// by the operator `op`, one of `-gt`, `-ge`, `-eq`, `-ne`, `-le`, `-lt`.
pub fn ver_test(cpv: &CPV, version1: Option<&str>, op: &str, version2: &str) -> (r: Result<
    ParentMessage,
    Error,
>)
    ensures
        r is Ok <==> ver_test_accepts(opt_view(version1), op@, version2@),
        r matches Ok(m) ==> ver_test_reply(cpv@.version, opt_view(version1), op@, version2@, m@),
{
    let parsed;
    let v1: &PackageVersion = match version1 {
        Some(x) => match PackageVersion::try_from(x) {
            Ok(v) => {
                parsed = v;
                &parsed
            },
            Err(e) => {
                return Err(e);
            },
        },
        None => cpv.version(),
    };
    let v2 = match PackageVersion::try_from(version2) {
        Ok(v) => v,
        Err(e) => {
            return Err(e);
        },
    };
    let code = match test_op(op) {
        Some(c) => c,
        None => {
            return Err(Error::with_subject("invalid operator", op));
        },
    };
    let c = v1.order(&v2);
    let holds = if code == 0 {
        c > 0
    } else if code == 1 {
        c >= 0
    } else if code == 2 {
        c == 0
    } else if code == 3 {
        c != 0
    } else if code == 4 {
        c <= 0
    } else {
        c < 0
    };
    let m = ParentMessage::from_bool(holds);
    assert(version_wf(v2@) && version_text(v2@) == version2@);
    Ok(m)
}

} // verus!
