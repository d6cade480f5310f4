//! Hashing of versions and their parts through canonical keys, so that values that
//! compare equal hash alike (e.g. `1.03` and `1.030`, `-r0` and no revision).
use super::base::{
    ComponentView, NumberComponent, NumberView, VersionNumber, component_order, component_wf,
    components_order, join_dot, letter_order, letter_text, number_order, number_wf,
};
use super::numeric::{NumericComponent, numeric_order};
use super::revision::{PackageRevision, revision_digits, revision_order};
use super::suffix::{SuffixView, VersionSuffix, suffix_name, suffix_number, suffix_order, suffixes_order};
use super::{PackageVersion, VersionView, version_order, version_wf};
use crate::text::{
    append_str, chars_of, lemma_lex_order_props, lex_order, push_char, sign, skip_trailing, string_from,
    strip_leading, strip_trailing,
};
use vstd::prelude::*;

verus! {

/// `String`'s hash feeds the string's bytes to the hasher; nothing is stated of the state.
pub assume_specification<H: core::hash::Hasher>[<String as core::hash::Hash>::hash](
    s: &String,
    state: &mut H,
);

/// Canonical key of a number component: numeric ones without leading zeros, the others
/// without trailing zeros.
pub open spec fn component_key(c: ComponentView) -> Seq<char> {
    if c.0 {
        strip_leading(c.1, '0')
    } else {
        strip_trailing(c.1, '0')
    }
}

/// Canonical keys of number components.
pub open spec fn component_keys(c: Seq<ComponentView>) -> Seq<Seq<char>> {
    c.map_values(|x: ComponentView| component_key(x))
}

/// Canonical key of a version number.
pub open spec fn number_key(n: NumberView) -> Seq<char> {
    join_dot(component_keys(n.0)) + letter_text(n.1)
}

/// Canonical key of a suffix: its name and its number without leading zeros.
pub open spec fn suffix_key(x: SuffixView) -> Seq<char> {
    suffix_name(x.0) + strip_leading(suffix_number(x), '0')
}

/// Canonical key of a list of suffixes, each introduced by `_`.
pub open spec fn suffixes_key(s: Seq<SuffixView>) -> Seq<char>
    decreases s.len(),
{
    if s.len() == 0 {
        Seq::empty()
    } else {
        suffixes_key(s.drop_last()) + seq!['_'] + suffix_key(s.last())
    }
}

/// Canonical key of a revision: its digits without leading zeros.
pub open spec fn revision_key(r: Option<Seq<char>>) -> Seq<char> {
    strip_leading(revision_digits(r), '0')
}

/// Canonical key of a version.
pub open spec fn version_key(v: VersionView) -> Seq<char> {
    number_key(v.number) + suffixes_key(v.suffixes) + seq!['-'] + revision_key(v.revision)
}

/// Numerically equal digit strings agree without their leading zeros.
proof fn lemma_numeric_key(a: Seq<char>, b: Seq<char>)
    requires
        numeric_order(a, b) == 0,
    ensures
        strip_leading(a, '0') == strip_leading(b, '0'),
{
    lemma_lex_order_props(strip_leading(a, '0'), strip_leading(b, '0'));
}

/// Stripping trailing `c` keeps a prefix; one that starts with another character keeps
/// that first character.
proof fn lemma_strip_trailing_prefix(s: Seq<char>, c: char)
    ensures
        strip_trailing(s, c).len() <= s.len(),
        strip_trailing(s, c) == s.subrange(0, strip_trailing(s, c).len() as int),
        s.len() > 0 && s[0] != c ==> strip_trailing(s, c).len() > 0,
    decreases s.len(),
{
    if s.len() > 0 && s.last() == c {
        lemma_strip_trailing_prefix(s.drop_last(), c);
        let t = strip_trailing(s.drop_last(), c);
        assert(t == s.subrange(0, t.len() as int));
        if s.len() == 1 {
            assert(s[0] == c);
        }
    } else {
        assert(s == s.subrange(0, s.len() as int));
    }
}

/// Components at the same position that compare equal have the same key.
proof fn lemma_component_key(a: ComponentView, b: ComponentView, k: int)
    requires
        component_wf(a, k),
        component_wf(b, k),
        component_order(a, b) == 0,
    ensures
        component_key(a) == component_key(b),
{
    let x = strip_trailing(a.1, '0');
    let y = strip_trailing(b.1, '0');
    if a.0 && b.0 {
        lemma_numeric_key(a.1, b.1);
    } else {
        lemma_lex_order_props(x, y);
        if a.0 != b.0 {
            lemma_strip_trailing_prefix(a.1, '0');
            lemma_strip_trailing_prefix(b.1, '0');
            if a.0 {
                assert(x.len() > 0 && x[0] != '0');
                assert(y.len() == 0 || y[0] == '0');
            } else {
                assert(y.len() > 0 && y[0] != '0');
                assert(x.len() == 0 || x[0] == '0');
            }
        }
    }
}

/// Component lists that compare equal have the same keys, where the components sit at
/// positions `off` on.
proof fn lemma_components_keys(a: Seq<ComponentView>, b: Seq<ComponentView>, off: int)
    requires
        off >= 0,
        forall|k: int| 0 <= k < a.len() ==> component_wf(#[trigger] a[k], k + off),
        forall|k: int| 0 <= k < b.len() ==> component_wf(#[trigger] b[k], k + off),
        components_order(a, b) == 0,
    ensures
        component_keys(a) == component_keys(b),
    decreases a.len(),
{
    if a.len() == 0 || b.len() == 0 {
        assert(a.len() == b.len());
        assert(component_keys(a) =~= component_keys(b));
    } else {
        assert(component_wf(a[0], off));
        assert(component_wf(b[0], off));
        lemma_component_key(a[0], b[0], off);
        assert forall|k: int| 0 <= k < a.drop_first().len() implies component_wf(#[trigger] a.drop_first()[k], k + off + 1) by {
            assert(component_wf(a[k + 1], k + 1 + off));
        }
        assert forall|k: int| 0 <= k < b.drop_first().len() implies component_wf(#[trigger] b.drop_first()[k], k + off + 1) by {
            assert(component_wf(b[k + 1], k + 1 + off));
        }
        lemma_components_keys(a.drop_first(), b.drop_first(), off + 1);
        assert(component_keys(a.drop_first()) == component_keys(b.drop_first()));
        assert forall|k: int| 0 <= k < a.len() implies component_keys(a)[k] == component_keys(b)[k] by {
            if k > 0 {
                assert(component_keys(a)[k] == component_keys(a.drop_first())[k - 1]);
                assert(component_keys(b)[k] == component_keys(b.drop_first())[k - 1]);
            }
        }
        assert(component_keys(a) =~= component_keys(b));
    }
}

/// Suffix lists that compare equal have the same length and suffixes with the same keys.
proof fn lemma_suffixes_pairwise(a: Seq<SuffixView>, b: Seq<SuffixView>)
    requires
        suffixes_order(a, b) == 0,
    ensures
        a.len() == b.len(),
        forall|i: int| 0 <= i < a.len() ==> suffix_key(#[trigger] a[i]) == suffix_key(b[i]),
    decreases a.len(),
{
    if a.len() > 0 && b.len() > 0 {
        lemma_numeric_key(suffix_number(a[0]), suffix_number(b[0]));
        lemma_suffixes_pairwise(a.drop_first(), b.drop_first());
        assert forall|i: int| 0 <= i < a.len() implies suffix_key(#[trigger] a[i]) == suffix_key(b[i]) by {
            if i > 0 {
                assert(a[i] == a.drop_first()[i - 1]);
                assert(b[i] == b.drop_first()[i - 1]);
            }
        }
    }
}

/// Suffix lists with pairwise equal keys have the same key.
proof fn lemma_suffixes_key(a: Seq<SuffixView>, b: Seq<SuffixView>)
    requires
        a.len() == b.len(),
        forall|i: int| 0 <= i < a.len() ==> suffix_key(#[trigger] a[i]) == suffix_key(b[i]),
    ensures
        suffixes_key(a) == suffixes_key(b),
    decreases a.len(),
{
    if a.len() > 0 {
        assert forall|i: int| 0 <= i < a.drop_last().len() implies suffix_key(#[trigger] a.drop_last()[i]) == suffix_key(b.drop_last()[i]) by {
            assert(a.drop_last()[i] == a[i]);
            assert(b.drop_last()[i] == b[i]);
        }
        lemma_suffixes_key(a.drop_last(), b.drop_last());
        assert(suffix_key(a.last()) == suffix_key(b.last()));
    }
}

/// Versions that compare equal have the same canonical key, so they hash alike.
pub proof fn lemma_equal_versions_hash_alike(a: VersionView, b: VersionView)
    requires
        version_wf(a),
        version_wf(b),
        version_order(a, b) == 0,
    ensures
        version_key(a) == version_key(b),
{
    assert(number_order(a.number, b.number) == 0);
    assert(components_order(a.number.0, b.number.0) == 0);
    assert(letter_order(a.number.1, b.number.1) == 0);
    assert(forall|k: int| 0 <= k < a.number.0.len() ==> component_wf(#[trigger] a.number.0[k], k + 0));
    assert(forall|k: int| 0 <= k < b.number.0.len() ==> component_wf(#[trigger] b.number.0[k], k + 0));
    lemma_components_keys(a.number.0, b.number.0, 0);
    assert(a.number.1 == b.number.1);
    assert(suffixes_order(a.suffixes, b.suffixes) == 0);
    lemma_suffixes_pairwise(a.suffixes, b.suffixes);
    lemma_suffixes_key(a.suffixes, b.suffixes);
    assert(revision_order(a.revision, b.revision) == 0);
    lemma_numeric_key(revision_digits(a.revision), revision_digits(b.revision));
}

/// Returns the canonical key of a number component.
fn component_key_string(c: &NumberComponent) -> (r: String)
    ensures
        r@ == component_key(c@),
{
    match c {
        NumberComponent::Numeric(n) => n.normalized(),
        NumberComponent::Alphabetic(a) => {
            let v = chars_of(a.as_str());
            let k = skip_trailing(&v, 0, v.len(), '0');
            assert(v@.subrange(0, v@.len() as int) == v@);
            string_from(&v, 0, k)
        },
    }
}

/// Returns the canonical key of a version number.
fn number_key_string(n: &VersionNumber) -> (r: String)
    ensures
        r@ == number_key(n@),
{
    let comps = n.components();
    let ghost keys = component_keys(n@.0);
    let mut s = String::new();
    let mut i: usize = 0;
    while i < comps.len()
        invariant
            0 <= i <= comps@.len(),
            comps@.map_values(|c: NumberComponent| c@) == n@.0,
            keys == component_keys(n@.0),
            s@ == join_dot(keys.subrange(0, i as int)),
        decreases comps.len() - i,
    {
        assert(comps@.map_values(|c: NumberComponent| c@)[i as int] == comps@[i as int]@);
        if i > 0 {
            push_char(&mut s, '.');
        }
        let k = component_key_string(&comps[i]);
        append_str(&mut s, k.as_str());
        proof {
            let sub = keys.subrange(0, i + 1);
            assert(sub.drop_last() == keys.subrange(0, i as int));
            assert(sub.last() == k@);
            assert(s@ == join_dot(sub));
        }
        i += 1;
    }
    assert(keys.subrange(0, i as int) == keys);
    if let Some(l) = n.letter() {
        push_char(&mut s, l);
    }
    s
}

/// Returns the canonical key of a suffix.
fn suffix_key_string(x: &VersionSuffix) -> (r: String)
    ensures
        r@ == suffix_key(x@),
{
    let mut s = x.name().to_owned();
    if let Some(n) = x.number() {
        let k = n.normalized();
        append_str(&mut s, k.as_str());
    } else {
        assert(strip_leading(Seq::<char>::empty(), '0') == Seq::<char>::empty());
        assert(s@ =~= s@ + Seq::<char>::empty());
    }
    s
}

/// Returns the canonical key of a revision.
fn revision_key_string(r: &PackageRevision) -> (k: String)
    ensures
        k@ == revision_key(r@),
{
    match r.number() {
        Some(n) => n.normalized(),
        None => {
            assert(strip_leading(Seq::<char>::empty(), '0') == Seq::<char>::empty());
            String::new()
        },
    }
}

impl PackageVersion {
    /// Returns the canonical key of this version, shared by all versions equal to it.
    pub fn hash_key(&self) -> (r: String)
        ensures
            r@ == version_key(self@),
    {
        let mut s = number_key_string(self.number());
        let items = self.suffixes().iter();
        let ghost sv = self@.suffixes;
        let ghost start = s@;
        let mut i: usize = 0;
        assert(sv.subrange(0, 0) =~= Seq::<SuffixView>::empty());
        assert(start =~= start + suffixes_key(Seq::<SuffixView>::empty()));
        while i < items.len()
            invariant
                0 <= i <= items@.len(),
                items@.map_values(|x: VersionSuffix| x@) == sv,
                s@ == start + suffixes_key(sv.subrange(0, i as int)),
            decreases items.len() - i,
        {
            assert(items@.map_values(|x: VersionSuffix| x@)[i as int] == items@[i as int]@);
            push_char(&mut s, '_');
            let k = suffix_key_string(&items[i]);
            append_str(&mut s, k.as_str());
            proof {
                let sub = sv.subrange(0, i + 1);
                assert(sub.drop_last() == sv.subrange(0, i as int));
                assert(s@ =~= start + suffixes_key(sub));
            }
            i += 1;
        }
        assert(sv.subrange(0, i as int) == sv);
        push_char(&mut s, '-');
        let r = revision_key_string(&self.revision);
        append_str(&mut s, r.as_str());
        proof {
            self.lemma_revision_view();
        }
        s
    }
}

impl core::hash::Hash for PackageVersion {
    fn hash<H: core::hash::Hasher>(&self, state: &mut H) {
        self.hash_key().hash(state);
    }
}

impl core::hash::Hash for NumericComponent {
    fn hash<H: core::hash::Hasher>(&self, state: &mut H) {
        self.normalized().hash(state);
    }
}

impl core::hash::Hash for NumberComponent {
    fn hash<H: core::hash::Hasher>(&self, state: &mut H) {
        component_key_string(self).hash(state);
    }
}

impl core::hash::Hash for VersionNumber {
    fn hash<H: core::hash::Hasher>(&self, state: &mut H) {
        number_key_string(self).hash(state);
    }
}

impl core::hash::Hash for VersionSuffix {
    fn hash<H: core::hash::Hasher>(&self, state: &mut H) {
        suffix_key_string(self).hash(state);
    }
}

impl core::hash::Hash for PackageRevision {
    fn hash<H: core::hash::Hasher>(&self, state: &mut H) {
        revision_key_string(self).hash(state);
    }
}

} // verus!
