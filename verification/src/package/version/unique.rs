//! A well-formed version is determined by its text: two well-formed versions with the
//! same text are the same version. Its canonical key determines it up to equality: two
//! well-formed versions with the same key compare equal.
use super::base::{
    ComponentView, NumberView, component_order, component_texts, component_wf, components_order, join_dot,
    letter_order, letter_text, number_order, number_text, number_wf,
};
use super::hashing::{component_key, component_keys, number_key, revision_key, suffix_key, suffixes_key, version_key};
use super::numeric::numeric_order;
use super::revision::{revision_digits, revision_order};
use super::revision::revision_text;
use super::suffix::{
    SuffixView, suffix_name, suffix_number, suffix_order, suffix_text, suffix_wf, suffixes_order, suffixes_text,
    suffixes_wf,
};
use super::{VersionView, version_order, version_text, version_wf};
use crate::text::{all_digits, is_digit, is_digits, is_lower, lemma_lex_order_props, lex_order, strip_leading, strip_trailing};
use vstd::prelude::*;

verus! {

/// Where two texts split into a head whose characters satisfy `p` and a tail that is
/// empty or starts with a character that does not, the heads and the tails agree.
proof fn lemma_split_class(x1: Seq<char>, y1: Seq<char>, x2: Seq<char>, y2: Seq<char>, p: spec_fn(char) -> bool)
    requires
        x1 + y1 == x2 + y2,
        forall|i: int| 0 <= i < x1.len() ==> p(#[trigger] x1[i]),
        forall|i: int| 0 <= i < x2.len() ==> p(#[trigger] x2[i]),
        y1.len() > 0 ==> !p(y1[0]),
        y2.len() > 0 ==> !p(y2[0]),
    ensures
        x1 == x2,
        y1 == y2,
{
    let t = x1 + y1;
    if x1.len() < x2.len() {
        assert(t.len() == (x2 + y2).len());
        assert(y1.len() > 0);
        assert(t[x1.len() as int] == y1[0]);
        assert((x2 + y2)[x1.len() as int] == x2[x1.len() as int]);
        assert(false);
    } else if x1.len() > x2.len() {
        assert(y2.len() > 0);
        assert((x2 + y2)[x2.len() as int] == y2[0]);
        assert(t[x2.len() as int] == x1[x2.len() as int]);
        assert(false);
    }
    assert(x1 =~= t.take(x1.len() as int));
    assert(x2 =~= (x2 + y2).take(x2.len() as int));
    assert(y1 =~= t.skip(x1.len() as int));
    assert(y2 =~= (x2 + y2).skip(x2.len() as int));
}

/// Where two texts end in the separator `c` and a part free of `c`, the parts and what
/// comes before agree.
proof fn lemma_split_last(x1: Seq<char>, l1: Seq<char>, x2: Seq<char>, l2: Seq<char>, c: char)
    requires
        x1 + seq![c] + l1 == x2 + seq![c] + l2,
        forall|i: int| 0 <= i < l1.len() ==> #[trigger] l1[i] != c,
        forall|i: int| 0 <= i < l2.len() ==> #[trigger] l2[i] != c,
    ensures
        x1 == x2,
        l1 == l2,
{
    let t1 = x1 + seq![c] + l1;
    let t2 = x2 + seq![c] + l2;
    let n = t1.len();
    if l1.len() < l2.len() {
        let k = n - l1.len() - 1;
        assert(t1[k] == c);
        assert(t2[k] == l2[k - x2.len() - 1]);
        assert(false);
    } else if l1.len() > l2.len() {
        let k = n - l2.len() - 1;
        assert(t2[k] == c);
        assert(t1[k] == l1[k - x1.len() - 1]);
        assert(false);
    }
    assert(l1 =~= t1.skip(n - l1.len()));
    assert(l2 =~= t2.skip(n - l2.len()));
    assert(x1 =~= t1.take(x1.len() as int));
    assert(x2 =~= t2.take(x2.len() as int));
}

/// The characters of joined digit runs are digits and dots.
proof fn lemma_join_dot_chars(parts: Seq<Seq<char>>)
    requires
        forall|k: int| 0 <= k < parts.len() ==> is_digits(#[trigger] parts[k]),
    ensures
        forall|i: int| 0 <= i < join_dot(parts).len() ==> is_digit(#[trigger] join_dot(parts)[i]) || join_dot(parts)[i] == '.',
    decreases parts.len(),
{
    if parts.len() > 1 {
        let q = parts.drop_last();
        assert forall|k: int| 0 <= k < q.len() implies is_digits(#[trigger] q[k]) by {
            assert(q[k] == parts[k]);
        }
        lemma_join_dot_chars(q);
        let j = join_dot(parts);
        let last = parts.last();
        assert(is_digits(parts[parts.len() - 1]));
        assert forall|i: int| 0 <= i < j.len() implies is_digit(#[trigger] j[i]) || j[i] == '.' by {
            let a = join_dot(q);
            if i < a.len() {
                assert(j[i] == a[i]);
            } else if i > a.len() {
                assert(j[i] == last[i - a.len() - 1]);
            }
        }
    } else if parts.len() == 1 {
        assert(is_digits(parts[0]));
    }
}

/// Joined digit runs are split again by their dots.
proof fn lemma_join_dot_unique(p1: Seq<Seq<char>>, p2: Seq<Seq<char>>)
    requires
        p1.len() > 0,
        p2.len() > 0,
        forall|k: int| 0 <= k < p1.len() ==> is_digits(#[trigger] p1[k]),
        forall|k: int| 0 <= k < p2.len() ==> is_digits(#[trigger] p2[k]),
        join_dot(p1) == join_dot(p2),
    ensures
        p1 == p2,
    decreases p1.len() + p2.len(),
{
    if p1.len() == 1 && p2.len() == 1 {
        assert(p1 =~= p2);
    } else if p1.len() == 1 {
        let a = join_dot(p2.drop_last());
        assert(join_dot(p2)[a.len() as int] == '.');
        assert(is_digits(p1[0]));
        assert(!is_digit('.'));
        assert(false);
    } else if p2.len() == 1 {
        let a = join_dot(p1.drop_last());
        assert(join_dot(p1)[a.len() as int] == '.');
        assert(is_digits(p2[0]));
        assert(false);
    } else {
        let l1 = p1.last();
        let l2 = p2.last();
        assert(is_digits(p1[p1.len() - 1]) && is_digits(p2[p2.len() - 1]));
        assert forall|i: int| 0 <= i < l1.len() implies #[trigger] l1[i] != '.' by {
            assert(is_digit(l1[i]));
        }
        assert forall|i: int| 0 <= i < l2.len() implies #[trigger] l2[i] != '.' by {
            assert(is_digit(l2[i]));
        }
        lemma_split_last(join_dot(p1.drop_last()), l1, join_dot(p2.drop_last()), l2, '.');
        let q1 = p1.drop_last();
        let q2 = p2.drop_last();
        assert forall|k: int| 0 <= k < q1.len() implies is_digits(#[trigger] q1[k]) by {
            assert(q1[k] == p1[k]);
        }
        assert forall|k: int| 0 <= k < q2.len() implies is_digits(#[trigger] q2[k]) by {
            assert(q2[k] == p2[k]);
        }
        lemma_join_dot_unique(q1, q2);
        assert(p1 =~= q1.push(l1));
        assert(p2 =~= q2.push(l2));
    }
}

/// A well-formed version number is determined by its text.
proof fn lemma_number_unique(a: NumberView, b: NumberView)
    requires
        number_wf(a),
        number_wf(b),
        number_text(a) == number_text(b),
    ensures
        a == b,
{
    let ta = component_texts(a.0);
    let tb = component_texts(b.0);
    assert forall|k: int| 0 <= k < ta.len() implies is_digits(#[trigger] ta[k]) by {
        assert(component_wf(a.0[k], k));
    }
    assert forall|k: int| 0 <= k < tb.len() implies is_digits(#[trigger] tb[k]) by {
        assert(component_wf(b.0[k], k));
    }
    lemma_join_dot_chars(ta);
    lemma_join_dot_chars(tb);
    let p = |c: char| is_digit(c) || c == '.';
    let ja = join_dot(ta);
    let jb = join_dot(tb);
    assert forall|i: int| 0 <= i < ja.len() implies p(#[trigger] ja[i]) by {}
    assert forall|i: int| 0 <= i < jb.len() implies p(#[trigger] jb[i]) by {}
    lemma_split_class(ja, letter_text(a.1), jb, letter_text(b.1), p);
    lemma_join_dot_unique(ta, tb);
    assert forall|k: int| 0 <= k < a.0.len() implies a.0[k] == b.0[k] by {
        assert(ta[k] == tb[k]);
        assert(component_wf(a.0[k], k) && component_wf(b.0[k], k));
    }
    assert(a.0 =~= b.0);
    match a.1 {
        Some(x) => {
            assert(letter_text(a.1)[0] == x);
            match b.1 {
                Some(y) => assert(letter_text(b.1)[0] == y),
                None => assert(letter_text(a.1).len() == 1),
            }
        },
        None => {
            match b.1 {
                Some(y) => assert(letter_text(b.1).len() == 1),
                None => {},
            }
        },
    }
}

/// The text of a well-formed suffix holds letters, then digits.
proof fn lemma_suffix_unique(a: SuffixView, b: SuffixView)
    requires
        suffix_wf(a),
        suffix_wf(b),
        suffix_text(a) == suffix_text(b),
    ensures
        a == b,
{
    let na = suffix_name(a.0);
    let nb = suffix_name(b.0);
    let da: Seq<char> = match a.1 { Some(n) => n, None => Seq::empty() };
    let db: Seq<char> = match b.1 { Some(n) => n, None => Seq::empty() };
    let p = |c: char| is_lower(c);
    assert forall|i: int| 0 <= i < na.len() implies p(#[trigger] na[i]) by {}
    assert forall|i: int| 0 <= i < nb.len() implies p(#[trigger] nb[i]) by {}
    if da.len() > 0 {
        assert(is_digits(da));
        assert(is_digit(da[0]));
    }
    if db.len() > 0 {
        assert(is_digits(db));
        assert(is_digit(db[0]));
    }
    lemma_split_class(na, da, nb, db, p);
    assert(na.len() == nb.len());
    assert(a.0 == b.0);
    match a.1 {
        Some(x) => match b.1 {
            Some(y) => {},
            None => assert(is_digits(x)),
        },
        None => match b.1 {
            Some(y) => assert(is_digits(y)),
            None => {},
        },
    }
}

/// The characters of a suffix text are no underscores or hyphens.
proof fn lemma_suffix_chars(a: SuffixView)
    requires
        suffix_wf(a),
    ensures
        forall|i: int| 0 <= i < suffix_text(a).len() ==> #[trigger] suffix_text(a)[i] != '_' && suffix_text(a)[i]
            != '-',
{
    let n = suffix_name(a.0);
    let d: Seq<char> = match a.1 { Some(x) => x, None => Seq::empty() };
    assert(suffix_text(a) == n + d);
    assert forall|i: int| 0 <= i < suffix_text(a).len() implies #[trigger] suffix_text(a)[i] != '_' && suffix_text(a)[i]
        != '-' by {
        if i < n.len() {
            assert(suffix_text(a)[i] == n[i]);
        } else {
            assert(suffix_text(a)[i] == d[i - n.len()]);
            assert(is_digits(d));
            assert(is_digit(d[i - n.len()]));
        }
    }
}

/// The text of well-formed suffixes is empty or starts with `_`, and holds no hyphen.
proof fn lemma_suffixes_chars(s: Seq<SuffixView>)
    requires
        suffixes_wf(s),
    ensures
        suffixes_text(s).len() > 0 ==> suffixes_text(s)[0] == '_',
        s.len() > 0 ==> suffixes_text(s).len() > 0,
        forall|i: int| 0 <= i < suffixes_text(s).len() ==> #[trigger] suffixes_text(s)[i] != '-',
    decreases s.len(),
{
    if s.len() > 0 {
        let q = s.drop_last();
        assert(suffixes_wf(q)) by {
            assert forall|i: int| 0 <= i < q.len() implies suffix_wf(#[trigger] q[i]) by {
                assert(q[i] == s[i]);
            }
        }
        lemma_suffixes_chars(q);
        assert(suffix_wf(s[s.len() - 1]));
        lemma_suffix_chars(s.last());
        let a = suffixes_text(q);
        let t = suffixes_text(s);
        assert(t == a + seq!['_'] + suffix_text(s.last()));
        assert forall|i: int| 0 <= i < t.len() implies #[trigger] t[i] != '-' by {
            if i < a.len() {
                assert(t[i] == a[i]);
            } else if i > a.len() {
                assert(t[i] == suffix_text(s.last())[i - a.len() - 1]);
            }
        }
        if a.len() > 0 {
            assert(t[0] == a[0]);
        }
    }
}

/// Well-formed suffixes are determined by their text.
proof fn lemma_suffixes_unique(a: Seq<SuffixView>, b: Seq<SuffixView>)
    requires
        suffixes_wf(a),
        suffixes_wf(b),
        suffixes_text(a) == suffixes_text(b),
    ensures
        a == b,
    decreases a.len() + b.len(),
{
    lemma_suffixes_chars(a);
    lemma_suffixes_chars(b);
    if a.len() == 0 && b.len() == 0 {
        assert(a =~= b);
    } else if a.len() > 0 && b.len() > 0 {
        let qa = a.drop_last();
        let qb = b.drop_last();
        assert(suffix_wf(a[a.len() - 1]) && suffix_wf(b[b.len() - 1]));
        lemma_suffix_chars(a.last());
        lemma_suffix_chars(b.last());
        lemma_split_last(suffixes_text(qa), suffix_text(a.last()), suffixes_text(qb), suffix_text(b.last()), '_');
        lemma_suffix_unique(a.last(), b.last());
        assert(suffixes_wf(qa)) by {
            assert forall|i: int| 0 <= i < qa.len() implies suffix_wf(#[trigger] qa[i]) by {
                assert(qa[i] == a[i]);
            }
        }
        assert(suffixes_wf(qb)) by {
            assert forall|i: int| 0 <= i < qb.len() implies suffix_wf(#[trigger] qb[i]) by {
                assert(qb[i] == b[i]);
            }
        }
        lemma_suffixes_unique(qa, qb);
        assert(a =~= qa.push(a.last()));
        assert(b =~= qb.push(b.last()));
    }
}

/// A well-formed version is determined by its text.
pub proof fn lemma_version_text_unique(a: VersionView, b: VersionView)
    requires
        version_wf(a),
        version_wf(b),
        version_text(a) == version_text(b),
    ensures
        a == b,
{
    lemma_suffixes_chars(a.suffixes);
    lemma_suffixes_chars(b.suffixes);
    let na = number_text(a.number);
    let nb = number_text(b.number);
    let ta = component_texts(a.number.0);
    let tb = component_texts(b.number.0);
    assert forall|k: int| 0 <= k < ta.len() implies is_digits(#[trigger] ta[k]) by {
        assert(component_wf(a.number.0[k], k));
    }
    assert forall|k: int| 0 <= k < tb.len() implies is_digits(#[trigger] tb[k]) by {
        assert(component_wf(b.number.0[k], k));
    }
    lemma_join_dot_chars(ta);
    lemma_join_dot_chars(tb);
    let no_minus = |c: char| c != '-';
    let no_under = |c: char| c != '_';
    let ha = na + suffixes_text(a.suffixes);
    let hb = nb + suffixes_text(b.suffixes);
    assert forall|i: int| 0 <= i < na.len() implies no_minus(#[trigger] na[i]) && no_under(na[i]) by {
        let j = join_dot(ta);
        if i < j.len() {
            assert(na[i] == j[i]);
        } else {
            assert(na[i] == a.number.1->0);
        }
    }
    assert forall|i: int| 0 <= i < nb.len() implies no_minus(#[trigger] nb[i]) && no_under(nb[i]) by {
        let j = join_dot(tb);
        if i < j.len() {
            assert(nb[i] == j[i]);
        } else {
            assert(nb[i] == b.number.1->0);
        }
    }
    assert forall|i: int| 0 <= i < ha.len() implies no_minus(#[trigger] ha[i]) by {
        if i >= na.len() {
            assert(ha[i] == suffixes_text(a.suffixes)[i - na.len()]);
        }
    }
    assert forall|i: int| 0 <= i < hb.len() implies no_minus(#[trigger] hb[i]) by {
        if i >= nb.len() {
            assert(hb[i] == suffixes_text(b.suffixes)[i - nb.len()]);
        }
    }
    lemma_split_class(ha, revision_text(a.revision), hb, revision_text(b.revision), no_minus);
    assert forall|i: int| 0 <= i < na.len() implies no_under(#[trigger] na[i]) by {}
    assert forall|i: int| 0 <= i < nb.len() implies no_under(#[trigger] nb[i]) by {}
    lemma_split_class(na, suffixes_text(a.suffixes), nb, suffixes_text(b.suffixes), no_under);
    lemma_number_unique(a.number, b.number);
    lemma_suffixes_unique(a.suffixes, b.suffixes);
    match a.revision {
        Some(x) => match b.revision {
            Some(y) => {
                assert(x =~= revision_text(a.revision).skip(2));
                assert(y =~= revision_text(b.revision).skip(2));
            },
            None => assert(revision_text(a.revision).len() >= 2),
        },
        None => match b.revision {
            Some(y) => assert(revision_text(b.revision).len() >= 2),
            None => {},
        },
    }
}

/// Without leading or trailing occurrences of a character, digits stay digits.
proof fn lemma_strip_digits(s: Seq<char>, c: char)
    requires
        all_digits(s),
    ensures
        all_digits(strip_leading(s, c)),
        all_digits(strip_trailing(s, c)),
    decreases s.len(),
{
    if s.len() > 0 {
        let f = s.drop_first();
        let l = s.drop_last();
        assert(all_digits(f)) by {
            assert forall|i: int| 0 <= i < f.len() implies is_digit(#[trigger] f[i]) by {
                assert(f[i] == s[i + 1]);
            }
        }
        assert(all_digits(l)) by {
            assert forall|i: int| 0 <= i < l.len() implies is_digit(#[trigger] l[i]) by {
                assert(l[i] == s[i]);
            }
        }
        lemma_strip_digits(f, c);
        lemma_strip_digits(l, c);
    }
}

/// Digit runs without leading zeros that are equal compare equal as numbers.
proof fn lemma_numeric_same_key(a: Seq<char>, b: Seq<char>)
    requires
        strip_leading(a, '0') == strip_leading(b, '0'),
    ensures
        numeric_order(a, b) == 0,
{
    lemma_lex_order_props(strip_leading(a, '0'), strip_leading(b, '0'));
}

/// Parts without dots are split again by their dots.
proof fn lemma_join_dot_unique_parts(p1: Seq<Seq<char>>, p2: Seq<Seq<char>>)
    requires
        p1.len() > 0,
        p2.len() > 0,
        forall|k: int, i: int| 0 <= k < p1.len() && 0 <= i < p1[k].len() ==> #[trigger] p1[k][i] != '.',
        forall|k: int, i: int| 0 <= k < p2.len() && 0 <= i < p2[k].len() ==> #[trigger] p2[k][i] != '.',
        join_dot(p1) == join_dot(p2),
    ensures
        p1 == p2,
    decreases p1.len() + p2.len(),
{
    if p1.len() == 1 && p2.len() == 1 {
        assert(p1 =~= p2);
    } else if p1.len() == 1 {
        let a = join_dot(p2.drop_last());
        assert(join_dot(p2)[a.len() as int] == '.');
        assert(p1[0][a.len() as int] != '.');
    } else if p2.len() == 1 {
        let a = join_dot(p1.drop_last());
        assert(join_dot(p1)[a.len() as int] == '.');
        assert(p2[0][a.len() as int] != '.');
    } else {
        let l1 = p1.last();
        let l2 = p2.last();
        assert forall|i: int| 0 <= i < l1.len() implies #[trigger] l1[i] != '.' by {
            assert(p1[p1.len() - 1][i] != '.');
        }
        assert forall|i: int| 0 <= i < l2.len() implies #[trigger] l2[i] != '.' by {
            assert(p2[p2.len() - 1][i] != '.');
        }
        lemma_split_last(join_dot(p1.drop_last()), l1, join_dot(p2.drop_last()), l2, '.');
        let q1 = p1.drop_last();
        let q2 = p2.drop_last();
        assert forall|k: int, i: int| 0 <= k < q1.len() && 0 <= i < q1[k].len() implies #[trigger] q1[k][i] != '.' by {
            assert(q1[k] == p1[k]);
            assert(p1[k][i] != '.');
        }
        assert forall|k: int, i: int| 0 <= k < q2.len() && 0 <= i < q2[k].len() implies #[trigger] q2[k][i] != '.' by {
            assert(q2[k] == p2[k]);
            assert(p2[k][i] != '.');
        }
        lemma_join_dot_unique_parts(q1, q2);
        assert(p1 =~= q1.push(l1));
        assert(p2 =~= q2.push(l2));
    }
}

/// The key of a well-formed component is digits.
proof fn lemma_component_key_digits(c: ComponentView, k: int)
    requires
        component_wf(c, k),
    ensures
        all_digits(component_key(c)),
{
    lemma_strip_digits(c.1, '0');
}

/// Components at the same place with the same key compare equal.
proof fn lemma_component_same_key(a: ComponentView, b: ComponentView, k: int)
    requires
        component_wf(a, k),
        component_wf(b, k),
        component_key(a) == component_key(b),
    ensures
        component_order(a, b) == 0,
{
    if a.0 && b.0 {
        lemma_numeric_same_key(a.1, b.1);
    } else if !a.0 && !b.0 {
        lemma_lex_order_props(strip_trailing(a.1, '0'), strip_trailing(b.1, '0'));
    } else if a.0 {
        assert(k != 0);
        assert(a.1[0] != '0');
        assert(strip_leading(a.1, '0') == a.1);
        assert(b.1[0] == '0');
        lemma_strip_trailing_start(b.1);
    } else {
        assert(k != 0);
        assert(b.1[0] != '0');
        assert(strip_leading(b.1, '0') == b.1);
        assert(a.1[0] == '0');
        lemma_strip_trailing_start(a.1);
    }
}

/// Trailing zeros removed from a run that starts with `0` leave nothing or a run that
/// starts with `0`.
proof fn lemma_strip_trailing_start(s: Seq<char>)
    requires
        s.len() > 0,
        s[0] == '0',
    ensures
        strip_trailing(s, '0').len() == 0 || strip_trailing(s, '0')[0] == '0',
    decreases s.len(),
{
    if s.last() == '0' {
        if s.len() > 1 {
            assert(s.drop_last()[0] == '0');
            lemma_strip_trailing_start(s.drop_last());
        } else {
            assert(strip_trailing(s.drop_last(), '0') == s.drop_last());
        }
        assert(strip_trailing(s, '0') == strip_trailing(s.drop_last(), '0'));
    }
}

/// Component lists of equal length that compare equal pairwise compare equal.
proof fn lemma_components_pairwise(a: Seq<ComponentView>, b: Seq<ComponentView>)
    requires
        a.len() == b.len(),
        forall|k: int| 0 <= k < a.len() ==> component_order(#[trigger] a[k], b[k]) == 0,
    ensures
        components_order(a, b) == 0,
    decreases a.len(),
{
    if a.len() > 0 {
        assert(component_order(a[0], b[0]) == 0);
        let ta = a.drop_first();
        let tb = b.drop_first();
        assert forall|k: int| 0 <= k < ta.len() implies component_order(#[trigger] ta[k], tb[k]) == 0 by {
            assert(ta[k] == a[k + 1] && tb[k] == b[k + 1]);
        }
        lemma_components_pairwise(ta, tb);
    }
}

/// Well-formed version numbers with the same key compare equal.
proof fn lemma_number_same_key(a: NumberView, b: NumberView)
    requires
        number_wf(a),
        number_wf(b),
        number_key(a) == number_key(b),
    ensures
        number_order(a, b) == 0,
{
    let ka = component_keys(a.0);
    let kb = component_keys(b.0);
    assert forall|k: int, i: int| 0 <= k < ka.len() && 0 <= i < ka[k].len() implies is_digit(#[trigger] ka[k][i]) by {
        assert(component_wf(a.0[k], k));
        lemma_component_key_digits(a.0[k], k);
    }
    assert forall|k: int, i: int| 0 <= k < kb.len() && 0 <= i < kb[k].len() implies is_digit(#[trigger] kb[k][i]) by {
        assert(component_wf(b.0[k], k));
        lemma_component_key_digits(b.0[k], k);
    }
    lemma_join_dot_class(ka);
    lemma_join_dot_class(kb);
    let p = |c: char| is_digit(c) || c == '.';
    let ja = join_dot(ka);
    let jb = join_dot(kb);
    assert forall|i: int| 0 <= i < ja.len() implies p(#[trigger] ja[i]) by {}
    assert forall|i: int| 0 <= i < jb.len() implies p(#[trigger] jb[i]) by {}
    lemma_split_class(ja, letter_text(a.1), jb, letter_text(b.1), p);
    lemma_join_dot_unique_parts(ka, kb);
    assert forall|k: int| 0 <= k < a.0.len() implies component_order(#[trigger] a.0[k], b.0[k]) == 0 by {
        assert(ka[k] == kb[k]);
        assert(component_wf(a.0[k], k) && component_wf(b.0[k], k));
        lemma_component_same_key(a.0[k], b.0[k], k);
    }
    lemma_components_pairwise(a.0, b.0);
    match a.1 {
        Some(x) => {
            assert(letter_text(a.1)[0] == x);
            match b.1 {
                Some(y) => assert(letter_text(b.1)[0] == y),
                None => assert(letter_text(a.1).len() == 1),
            }
        },
        None => {
            match b.1 {
                Some(y) => assert(letter_text(b.1).len() == 1),
                None => {},
            }
        },
    }
}

/// Joined parts of digits hold digits and dots.
proof fn lemma_join_dot_class(parts: Seq<Seq<char>>)
    requires
        forall|k: int, i: int| 0 <= k < parts.len() && 0 <= i < parts[k].len() ==> is_digit(#[trigger] parts[k][i]),
    ensures
        forall|i: int| 0 <= i < join_dot(parts).len() ==> is_digit(#[trigger] join_dot(parts)[i]) || join_dot(parts)[i] == '.',
        forall|k: int, i: int| 0 <= k < parts.len() && 0 <= i < parts[k].len() ==> #[trigger] parts[k][i] != '.',
    decreases parts.len(),
{
    assert forall|k: int, i: int| 0 <= k < parts.len() && 0 <= i < parts[k].len() implies #[trigger] parts[k][i] != '.' by {
        assert(is_digit(parts[k][i]));
    }
    if parts.len() > 1 {
        let q = parts.drop_last();
        assert forall|k: int, i: int| 0 <= k < q.len() && 0 <= i < q[k].len() implies is_digit(#[trigger] q[k][i]) by {
            assert(q[k] == parts[k]);
            assert(is_digit(parts[k][i]));
        }
        lemma_join_dot_class(q);
        let j = join_dot(parts);
        let last = parts.last();
        assert forall|i: int| 0 <= i < j.len() implies is_digit(#[trigger] j[i]) || j[i] == '.' by {
            let a = join_dot(q);
            if i < a.len() {
                assert(j[i] == a[i]);
            } else if i > a.len() {
                assert(j[i] == last[i - a.len() - 1]);
                assert(is_digit(parts[parts.len() - 1][i - a.len() - 1]));
            }
        }
    } else if parts.len() == 1 {
        assert forall|i: int| 0 <= i < join_dot(parts).len() implies is_digit(#[trigger] join_dot(parts)[i]) || join_dot(parts)[i] == '.' by {
            assert(is_digit(parts[0][i]));
        }
    }
}

/// The key of a well-formed suffix holds no underscore or hyphen.
proof fn lemma_suffix_key_chars(a: SuffixView)
    requires
        suffix_wf(a),
    ensures
        forall|i: int| 0 <= i < suffix_key(a).len() ==> #[trigger] suffix_key(a)[i] != '_' && suffix_key(a)[i] != '-',
{
    let n = suffix_name(a.0);
    let d = strip_leading(suffix_number(a), '0');
    if a.1 is Some {
        assert(is_digits(suffix_number(a)));
    }
    lemma_strip_digits(suffix_number(a), '0');
    assert forall|i: int| 0 <= i < suffix_key(a).len() implies #[trigger] suffix_key(a)[i] != '_' && suffix_key(a)[i] != '-' by {
        if i < n.len() {
            assert(suffix_key(a)[i] == n[i]);
        } else {
            assert(suffix_key(a)[i] == d[i - n.len()]);
            assert(is_digit(d[i - n.len()]));
        }
    }
}

/// Well-formed suffixes with the same key compare equal.
proof fn lemma_suffix_same_key(a: SuffixView, b: SuffixView)
    requires
        suffix_wf(a),
        suffix_wf(b),
        suffix_key(a) == suffix_key(b),
    ensures
        suffix_order(a, b) == 0,
{
    let na = suffix_name(a.0);
    let nb = suffix_name(b.0);
    let da = strip_leading(suffix_number(a), '0');
    let db = strip_leading(suffix_number(b), '0');
    if a.1 is Some {
        assert(is_digits(suffix_number(a)));
    }
    if b.1 is Some {
        assert(is_digits(suffix_number(b)));
    }
    lemma_strip_digits(suffix_number(a), '0');
    lemma_strip_digits(suffix_number(b), '0');
    let p = |c: char| is_lower(c);
    assert forall|i: int| 0 <= i < na.len() implies p(#[trigger] na[i]) by {}
    assert forall|i: int| 0 <= i < nb.len() implies p(#[trigger] nb[i]) by {}
    if da.len() > 0 {
        assert(is_digit(da[0]));
    }
    if db.len() > 0 {
        assert(is_digit(db[0]));
    }
    lemma_split_class(na, da, nb, db, p);
    assert(na.len() == nb.len());
    assert(a.0 == b.0);
    lemma_numeric_same_key(suffix_number(a), suffix_number(b));
}

/// The key of well-formed suffixes is empty or starts with `_`, is non-empty where there
/// are suffixes, and holds no hyphen.
proof fn lemma_suffixes_key_chars(s: Seq<SuffixView>)
    requires
        suffixes_wf(s),
    ensures
        suffixes_key(s).len() > 0 ==> suffixes_key(s)[0] == '_',
        s.len() > 0 ==> suffixes_key(s).len() > 0,
        forall|i: int| 0 <= i < suffixes_key(s).len() ==> #[trigger] suffixes_key(s)[i] != '-',
    decreases s.len(),
{
    if s.len() > 0 {
        let q = s.drop_last();
        assert(suffixes_wf(q)) by {
            assert forall|i: int| 0 <= i < q.len() implies suffix_wf(#[trigger] q[i]) by {
                assert(q[i] == s[i]);
            }
        }
        lemma_suffixes_key_chars(q);
        assert(suffix_wf(s[s.len() - 1]));
        lemma_suffix_key_chars(s.last());
        let a = suffixes_key(q);
        let t = suffixes_key(s);
        assert(t == a + seq!['_'] + suffix_key(s.last()));
        assert forall|i: int| 0 <= i < t.len() implies #[trigger] t[i] != '-' by {
            if i < a.len() {
                assert(t[i] == a[i]);
            } else if i > a.len() {
                assert(t[i] == suffix_key(s.last())[i - a.len() - 1]);
            }
        }
        if a.len() > 0 {
            assert(t[0] == a[0]);
        }
    }
}

/// Well-formed suffix lists with the same key compare equal.
proof fn lemma_suffixes_same_key(a: Seq<SuffixView>, b: Seq<SuffixView>)
    requires
        suffixes_wf(a),
        suffixes_wf(b),
        suffixes_key(a) == suffixes_key(b),
    ensures
        a.len() == b.len(),
        suffixes_order(a, b) == 0,
    decreases a.len() + b.len(),
{
    lemma_suffixes_key_chars(a);
    lemma_suffixes_key_chars(b);
    if a.len() > 0 && b.len() > 0 {
        let qa = a.drop_last();
        let qb = b.drop_last();
        assert(suffix_wf(a[a.len() - 1]) && suffix_wf(b[b.len() - 1]));
        lemma_suffix_key_chars(a.last());
        lemma_suffix_key_chars(b.last());
        lemma_split_last(suffixes_key(qa), suffix_key(a.last()), suffixes_key(qb), suffix_key(b.last()), '_');
        lemma_suffix_same_key(a.last(), b.last());
        assert(suffixes_wf(qa)) by {
            assert forall|i: int| 0 <= i < qa.len() implies suffix_wf(#[trigger] qa[i]) by {
                assert(qa[i] == a[i]);
            }
        }
        assert(suffixes_wf(qb)) by {
            assert forall|i: int| 0 <= i < qb.len() implies suffix_wf(#[trigger] qb[i]) by {
                assert(qb[i] == b[i]);
            }
        }
        lemma_suffixes_same_key(qa, qb);
        lemma_suffixes_pairwise_order(a, b);
    }
}

/// Suffix lists compare equal when their leading parts do and their last suffixes do.
proof fn lemma_suffixes_pairwise_order(a: Seq<SuffixView>, b: Seq<SuffixView>)
    requires
        a.len() == b.len(),
        a.len() > 0,
        suffixes_order(a.drop_last(), b.drop_last()) == 0,
        a.drop_last().len() == b.drop_last().len(),
        suffix_order(a.last(), b.last()) == 0,
        suffixes_wf(a),
        suffixes_wf(b),
    ensures
        suffixes_order(a, b) == 0,
    decreases a.len(),
{
    if a.len() == 1 {
        assert(a[0] == a.last() && b[0] == b.last());
        assert(a.drop_first().len() == 0 && b.drop_first().len() == 0);
        assert(suffixes_order(a.drop_first(), b.drop_first()) == 0);
        assert(suffixes_order(a, b) == suffixes_order(a.drop_first(), b.drop_first()));
    } else {
        let da = a.drop_last();
        let db = b.drop_last();
        assert(da[0] == a[0] && db[0] == b[0]);
        lemma_suffixes_order_first(da, db);
        let fa = a.drop_first();
        let fb = b.drop_first();
        assert(fa.drop_last() =~= da.drop_first());
        assert(fb.drop_last() =~= db.drop_first());
        assert(fa.last() == a.last() && fb.last() == b.last());
        assert(suffixes_wf(fa)) by {
            assert forall|i: int| 0 <= i < fa.len() implies suffix_wf(#[trigger] fa[i]) by {
                assert(fa[i] == a[i + 1]);
            }
        }
        assert(suffixes_wf(fb)) by {
            assert forall|i: int| 0 <= i < fb.len() implies suffix_wf(#[trigger] fb[i]) by {
                assert(fb[i] == b[i + 1]);
            }
        }
        lemma_suffixes_pairwise_order(fa, fb);
        assert(suffix_order(a[0], b[0]) == 0);
        assert(suffixes_order(a, b) == suffixes_order(fa, fb));
    }
}

/// Non-empty suffix lists of equal length that compare equal have equal first suffixes
/// and compare equal after them.
proof fn lemma_suffixes_order_first(a: Seq<SuffixView>, b: Seq<SuffixView>)
    requires
        a.len() == b.len(),
        a.len() > 0,
        suffixes_order(a, b) == 0,
    ensures
        suffix_order(a[0], b[0]) == 0,
        suffixes_order(a.drop_first(), b.drop_first()) == 0,
{
}

/// Well-formed versions with the same canonical key compare equal: the key identifies a
/// version exactly up to equality.
pub proof fn lemma_same_key_equal_versions(a: VersionView, b: VersionView)
    requires
        version_wf(a),
        version_wf(b),
        version_key(a) == version_key(b),
    ensures
        version_order(a, b) == 0,
{
    lemma_suffixes_key_chars(a.suffixes);
    lemma_suffixes_key_chars(b.suffixes);
    let na = number_key(a.number);
    let nb = number_key(b.number);
    let ka = component_keys(a.number.0);
    let kb = component_keys(b.number.0);
    assert forall|k: int, i: int| 0 <= k < ka.len() && 0 <= i < ka[k].len() implies is_digit(#[trigger] ka[k][i]) by {
        assert(component_wf(a.number.0[k], k));
        lemma_component_key_digits(a.number.0[k], k);
    }
    assert forall|k: int, i: int| 0 <= k < kb.len() && 0 <= i < kb[k].len() implies is_digit(#[trigger] kb[k][i]) by {
        assert(component_wf(b.number.0[k], k));
        lemma_component_key_digits(b.number.0[k], k);
    }
    lemma_join_dot_class(ka);
    lemma_join_dot_class(kb);
    let no_under = |c: char| c != '_';
    assert forall|i: int| 0 <= i < na.len() implies no_under(#[trigger] na[i]) && na[i] != '-' by {
        let j = join_dot(ka);
        if i < j.len() {
            assert(na[i] == j[i]);
        } else {
            assert(na[i] == a.number.1->0);
        }
    }
    assert forall|i: int| 0 <= i < nb.len() implies no_under(#[trigger] nb[i]) && nb[i] != '-' by {
        let j = join_dot(kb);
        if i < j.len() {
            assert(nb[i] == j[i]);
        } else {
            assert(nb[i] == b.number.1->0);
        }
    }
    let ra = revision_key(a.revision);
    let rb = revision_key(b.revision);
    if a.revision is Some {
        assert(is_digits(revision_digits(a.revision)));
    }
    if b.revision is Some {
        assert(is_digits(revision_digits(b.revision)));
    }
    lemma_strip_digits(revision_digits(a.revision), '0');
    lemma_strip_digits(revision_digits(b.revision), '0');
    assert forall|i: int| 0 <= i < ra.len() implies #[trigger] ra[i] != '-' by {
        assert(is_digit(ra[i]));
    }
    assert forall|i: int| 0 <= i < rb.len() implies #[trigger] rb[i] != '-' by {
        assert(is_digit(rb[i]));
    }
    let ha = na + suffixes_key(a.suffixes);
    let hb = nb + suffixes_key(b.suffixes);
    lemma_split_last(ha, ra, hb, rb, '-');
    assert forall|i: int| 0 <= i < na.len() implies no_under(#[trigger] na[i]) by {}
    assert forall|i: int| 0 <= i < nb.len() implies no_under(#[trigger] nb[i]) by {}
    lemma_split_class(na, suffixes_key(a.suffixes), nb, suffixes_key(b.suffixes), no_under);
    lemma_number_same_key(a.number, b.number);
    lemma_suffixes_same_key(a.suffixes, b.suffixes);
    lemma_numeric_same_key(revision_digits(a.revision), revision_digits(b.revision));
}

} // verus!
