//! Wildcard matching of versions, as used by `=cat/pkg-1.2*` atoms.
use super::base::{ComponentView, NumberComponent, component_order};
use super::numeric::{NumericComponent, numeric_order};
use super::suffix::SuffixView;
use super::{PackageVersion, VersionView};
use crate::text::strip_leading;
use vstd::prelude::*;

verus! {

/// Model of one component of a complete version.
pub enum ComponentModel {
    Number(ComponentView),
    Letter(u32),
    SuffixName(u8),
    SuffixNumber(Seq<char>),
    Revision(Seq<char>),
}

/// The components of the suffixes: each name, followed by its number if any.
pub open spec fn suffix_components(s: Seq<SuffixView>) -> Seq<ComponentModel>
    decreases s.len(),
{
    if s.len() == 0 {
        Seq::empty()
    } else {
        suffix_components(s.drop_last()) + seq![ComponentModel::SuffixName(s.last().0)] + match s.last().1 {
            Some(n) => seq![ComponentModel::SuffixNumber(n)],
            None => Seq::empty(),
        }
    }
}

/// All components of a version in order: numbers, letter, suffixes and revision.
pub open spec fn version_components(v: VersionView) -> Seq<ComponentModel> {
    v.number.0.map_values(|c: ComponentView| ComponentModel::Number(c)) + match v.number.1 {
        Some(l) => seq![ComponentModel::Letter(l as u32)],
        None => Seq::empty(),
    } + suffix_components(v.suffixes) + match v.revision {
        Some(r) => seq![ComponentModel::Revision(r)],
        None => Seq::empty(),
    }
}

/// Two components are equal: the same kind and, where they hold numbers, equal numbers.
pub open spec fn component_eq(a: ComponentModel, b: ComponentModel) -> bool {
    match (a, b) {
        (ComponentModel::Number(x), ComponentModel::Number(y)) => component_order(x, y) == 0,
        (ComponentModel::Letter(x), ComponentModel::Letter(y)) => x == y,
        (ComponentModel::SuffixName(x), ComponentModel::SuffixName(y)) => x == y,
        (ComponentModel::SuffixNumber(x), ComponentModel::SuffixNumber(y)) => numeric_order(x, y)
            == 0,
        (ComponentModel::Revision(x), ComponentModel::Revision(y)) => numeric_order(x, y) == 0,
        _ => false,
    }
}

/// A zero suffix number may stand for an omitted one, which is followed by the next suffix
/// name, a revision or nothing; a zero revision may stand for an omitted one at the end.
pub open spec fn matches_omitted(w: ComponentModel, c: Option<ComponentModel>) -> bool {
    match w {
        ComponentModel::SuffixNumber(n) => strip_leading(n, '0').len() == 0 && match c {
            Some(ComponentModel::SuffixName(_)) => true,
            Some(ComponentModel::Revision(_)) => true,
            None => true,
            _ => false,
        },
        ComponentModel::Revision(n) => strip_leading(n, '0').len() == 0 && c is None,
        _ => false,
    }
}

/// The wildcard components `w` match the start of the candidate components `c`.
pub open spec fn components_match(w: Seq<ComponentModel>, c: Seq<ComponentModel>) -> bool
    decreases w.len(),
{
    if w.len() == 0 {
        true
    } else if c.len() > 0 && component_eq(w[0], c[0]) {
        components_match(w.drop_first(), c.drop_first())
    } else if matches_omitted(
        w[0],
        if c.len() > 0 {
            Some(c[0])
        } else {
            None
        },
    ) {
        components_match(w.drop_first(), c)
    } else {
        false
    }
}

/// A version component, needed for wildcard matching.
pub enum VersionComponent {
    Number(NumberComponent),
    Letter(char),
    SuffixName(u8),
    SuffixNumber(NumericComponent),
    Revision(NumericComponent),
}

impl View for VersionComponent {
    type V = ComponentModel;

    open spec fn view(&self) -> ComponentModel {
        match self {
            VersionComponent::Number(n) => ComponentModel::Number(n@),
            VersionComponent::Letter(l) => ComponentModel::Letter(*l as u32),
            VersionComponent::SuffixName(k) => ComponentModel::SuffixName(*k),
            VersionComponent::SuffixNumber(n) => ComponentModel::SuffixNumber(n@),
            VersionComponent::Revision(n) => ComponentModel::Revision(n@),
        }
    }
}

impl VersionComponent {
    /// Returns `true` if both components are equal.
    fn equals(&self, other: &Self) -> (r: bool)
        ensures
            r == component_eq(self@, other@),
    {
        match (self, other) {
            (VersionComponent::Number(x), VersionComponent::Number(y)) => x.order(y) == 0,
            (VersionComponent::Letter(x), VersionComponent::Letter(y)) => *x == *y,
            (VersionComponent::SuffixName(x), VersionComponent::SuffixName(y)) => *x == *y,
            (VersionComponent::SuffixNumber(x), VersionComponent::SuffixNumber(y)) => x.order(y)
                == 0,
            (VersionComponent::Revision(x), VersionComponent::Revision(y)) => x.order(y) == 0,
            _ => false,
        }
    }

    /// Checks if the `candidate` component counts as omitted for `self`: an omitted suffix
    /// number or revision equals zero.
    fn matches_omitted(&self, candidate: Option<&Self>) -> (r: bool)
        ensures
            r == matches_omitted(
                self@,
                match candidate {
                    Some(c) => Some(c@),
                    None => None,
                },
            ),
    {
        match self {
            VersionComponent::SuffixNumber(n) => n.is_zero() && match candidate {
                Some(VersionComponent::SuffixName(_)) => true,
                Some(VersionComponent::Revision(_)) => true,
                None => true,
                _ => false,
            },
            VersionComponent::Revision(n) => n.is_zero() && candidate.is_none(),
            _ => false,
        }
    }
}

/// The view of a list of components.
pub open spec fn components_view(v: Seq<VersionComponent>) -> Seq<ComponentModel> {
    v.map_values(|c: VersionComponent| c@)
}

/// Appends a component to a list, extending its view by one model.
fn push_component(out: &mut Vec<VersionComponent>, c: VersionComponent)
    ensures
        components_view(final(out)@) == components_view(old(out)@).push(c@),
{
    let ghost before = out@;
    out.push(c);
    assert(components_view(out@) =~= components_view(before).push(c@));
}

/// Appends the component of the letter `l`.
fn push_letter_component(out: &mut Vec<VersionComponent>, l: char)
    ensures
        components_view(final(out)@) == components_view(old(out)@).push(ComponentModel::Letter(l as u32)),
{
    push_component(out, VersionComponent::Letter(l));
}

/// Appends the component of a revision number.
fn push_revision_component(out: &mut Vec<VersionComponent>, n: &NumericComponent)
    ensures
        components_view(final(out)@) == components_view(old(out)@).push(ComponentModel::Revision(n@)),
{
    push_component(out, VersionComponent::Revision(n.copy()));
}

/// Appends the component of the letter, if there is one.
fn push_letter(out: &mut Vec<VersionComponent>, letter: Option<char>)
    ensures
        components_view(final(out)@) == components_view(old(out)@) + match letter {
            Some(l) => seq![ComponentModel::Letter(l as u32)],
            None => Seq::<ComponentModel>::empty(),
        },
{
    let ghost start = components_view(out@);
    match letter {
        Some(l) => {
            push_letter_component(out, l);
            assert(components_view(out@) =~= start + seq![ComponentModel::Letter(l as u32)]);
        },
        None => {
            assert(start =~= start + Seq::<ComponentModel>::empty());
        },
    }
}

/// The components of the number part of a version.
#[verifier::spinoff_prover]
fn number_components(number: &super::base::VersionNumber) -> (r: Vec<VersionComponent>)
    ensures
        components_view(r@) == number@.0.map_values(|c: ComponentView| ComponentModel::Number(c))
            + match number@.1 {
            Some(l) => seq![ComponentModel::Letter(l as u32)],
            None => Seq::<ComponentModel>::empty(),
        },
{
    let ghost nv = number@;
    let mut out: Vec<VersionComponent> = Vec::new();
    let comps = number.components();
    let mut i: usize = 0;
    while i < comps.len()
        invariant
            0 <= i <= comps@.len(),
            comps@.map_values(|c: NumberComponent| c@) == nv.0,
            components_view(out@) == nv.0.subrange(0, i as int).map_values(
                |c: ComponentView| ComponentModel::Number(c),
            ),
        decreases comps.len() - i,
    {
        push_component(&mut out, VersionComponent::Number(comps[i].copy()));
        assert(nv.0.subrange(0, i + 1) == nv.0.subrange(0, i as int).push(nv.0[i as int]));
        i += 1;
    }
    assert(nv.0.subrange(0, i as int) == nv.0);
    push_letter(&mut out, number.letter());
    out
}

/// Appends the components of the suffixes to `out`.
fn push_suffix_components(out: &mut Vec<VersionComponent>, suffixes: &super::suffix::VersionSuffixes)
    ensures
        components_view(final(out)@) == components_view(old(out)@) + suffix_components(
            suffixes@,
        ),
{
    let ghost start = components_view(out@);
    let ghost sv = suffixes@;
    let items = suffixes.iter();
    let mut j: usize = 0;
    assert(start =~= start + suffix_components(sv.subrange(0, 0)));
    while j < items.len()
        invariant
            0 <= j <= items@.len(),
            items@.map_values(|x: super::suffix::VersionSuffix| x@) == sv,
            components_view(out@) == start + suffix_components(sv.subrange(0, j as int)),
        decreases items.len() - j,
    {
        let ghost before = components_view(out@);
        let item = &items[j];
        push_component(out, VersionComponent::SuffixName(item.ordinal()));
        let ghost mid = components_view(out@);
        match item.number() {
            Some(n) => {
                push_component(out, VersionComponent::SuffixNumber(n.copy()));
            },
            None => {},
        }
        proof {
            let s = sv.subrange(0, j + 1);
            assert(s.drop_last() == sv.subrange(0, j as int));
            assert(items@.map_values(|x: super::suffix::VersionSuffix| x@)[j as int]
                == items@[j as int]@);
            assert(s.last() == items@[j as int]@);
            let tail = match s.last().1 {
                Some(n) => seq![ComponentModel::SuffixNumber(n)],
                None => Seq::<ComponentModel>::empty(),
            };
            assert(suffix_components(s) == suffix_components(s.drop_last()) + seq![
                ComponentModel::SuffixName(s.last().0),
            ] + tail);
            assert(components_view(out@) =~= start + suffix_components(s));
        }
        j += 1;
    }
    assert(sv.subrange(0, j as int) == sv);
}

/// Returns all components of `version` in order.
pub fn components(version: &PackageVersion) -> (r: Vec<VersionComponent>)
    ensures
        components_view(r@) == version_components(version@),
{
    let mut out = number_components(version.number());
    let ghost with_letter = components_view(out@);
    push_suffix_components(&mut out, version.suffixes());
    let ghost with_suffixes = components_view(out@);
    proof {
        version.lemma_revision_view();
    }
    match version.revision.number() {
        Some(n) => {
            push_revision_component(&mut out, n);
            assert(components_view(out@) =~= with_suffixes + seq![ComponentModel::Revision(n@)]);
        },
        None => {
            assert(with_suffixes =~= with_suffixes + Seq::<ComponentModel>::empty());
        },
    }
    out
}

/// Checks if the `candidate` version starts with the components of the wildcard
/// version `atom`, where omitted suffix numbers and revisions count as zero.
pub fn matches_wildcard(atom: &PackageVersion, candidate: &PackageVersion) -> (r: bool)
    ensures
        r == components_match(version_components(atom@), version_components(candidate@)),
{
    let w = components(atom);
    let c = components(candidate);
    let ghost wv = components_view(w@);
    let ghost cv = components_view(c@);
    let mut i: usize = 0;
    let mut j: usize = 0;
    assert(wv.skip(0) == wv);
    assert(cv.skip(0) == cv);
    while i < w.len()
        invariant
            0 <= i <= w@.len(),
            0 <= j <= c@.len(),
            wv == components_view(w@),
            cv == components_view(c@),
            wv == version_components(atom@),
            cv == version_components(candidate@),
            components_match(wv, cv) == components_match(wv.skip(i as int), cv.skip(j as int)),
        decreases w.len() - i,
    {
        assert(wv.skip(i as int)[0] == w@[i as int]@);
        assert(wv.skip(i as int).drop_first() == wv.skip(i + 1));
        if j < c.len() && w[i].equals(&c[j]) {
            assert(cv.skip(j as int)[0] == c@[j as int]@);
            assert(cv.skip(j as int).drop_first() == cv.skip(j + 1));
            i += 1;
            j += 1;
        } else {
            let cand = if j < c.len() {
                assert(cv.skip(j as int)[0] == c@[j as int]@);
                Some(&c[j])
            } else {
                None
            };
            let om = w[i].matches_omitted(cand);
            proof {
                let ww = wv.skip(i as int);
                let cc = cv.skip(j as int);
                assert(ww.len() > 0);
                assert(cc.len() == c@.len() - j);
                if j < c.len() {
                    assert(!component_eq(ww[0], cc[0]));
                }
                assert(om == matches_omitted(
                    ww[0],
                    if cc.len() > 0 {
                        Some(cc[0])
                    } else {
                        None
                    },
                ));
            }
            if om {
                i += 1;
            } else {
                assert(!components_match(wv.skip(i as int), cv.skip(j as int)));
                return false;
            }
        }
    }
    true
}

} // verus!
