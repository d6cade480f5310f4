//! Package versions according to PMS sections 3.2 and 3.3.
pub mod base;
pub mod hashing;
pub mod matching;
pub mod numeric;
pub mod ordering;
pub mod revision;
pub mod suffix;
pub mod unique;

use crate::error::Error;
use crate::text::{
    end_before, find_char, lemma_end_before,
    append_str, chars_of, first_index, is_digits, is_digits_range, lemma_first_index,
    lemma_first_index_none, lemma_first_index_unique, push_char,
};
use base::{
    NumberView, VersionNumber, is_version_base, lemma_number_order, number_order, number_text,
    number_wf,
};
use numeric::NumericComponent;
use revision::{PackageRevision, lemma_revision_order, revision_order, revision_text};
use suffix::{
    SuffixView, VersionSuffixes, is_suffix_list, lemma_suffixes_order, suffixes_order,
    suffixes_text, suffixes_wf,
};
use vstd::prelude::*;

verus! {

/// Model of a package version.
pub struct VersionView {
    pub number: NumberView,
    pub suffixes: Seq<SuffixView>,
    pub revision: Option<Seq<char>>,
}

/// Source text of a version: number, suffixes and revision.
pub open spec fn version_text(v: VersionView) -> Seq<char> {
    number_text(v.number) + suffixes_text(v.suffixes) + revision_text(v.revision)
}

/// Source text of a version without its revision (`PV`).
pub open spec fn version_pv(v: VersionView) -> Seq<char> {
    number_text(v.number) + suffixes_text(v.suffixes)
}

/// Well-formed version.
pub open spec fn version_wf(v: VersionView) -> bool {
    &&& number_wf(v.number)
    &&& suffixes_wf(v.suffixes)
    &&& v.revision matches Some(r) ==> is_digits(r)
}

/// PMS 3.3 ordering of versions: number, then suffixes, then revision.
pub open spec fn version_order(a: VersionView, b: VersionView) -> int {
    if number_order(a.number, b.number) != 0 {
        number_order(a.number, b.number)
    } else if suffixes_order(a.suffixes, b.suffixes) != 0 {
        suffixes_order(a.suffixes, b.suffixes)
    } else {
        revision_order(a.revision, b.revision)
    }
}

/// The optional `-r` revision part of a version text.
pub open spec fn is_revision_part(r: Seq<char>) -> bool {
    r.len() == 0 || (r.len() >= 3 && r[0] == '-' && r[1] == 'r' && is_digits(r.skip(2)))
}

/// PMS 3.2 version syntax: base version, suffixes and an optional `-r` revision.
pub closed spec fn is_version_text(s: Seq<char>) -> bool {
    let pre = s.take(end_before(s, '-'));
    let j = end_before(pre, '_');
    &&& is_version_base(pre.take(j))
    &&& is_suffix_list(pre.skip(j))
    &&& is_revision_part(s.skip(end_before(s, '-')))
}

/// What a version text is: a base version and suffixes before the first `-`, then an
/// optional `-r` revision.
pub proof fn lemma_version_text_def(s: Seq<char>)
    ensures
        is_version_text(s) <==> ({
            let pre = s.take(end_before(s, '-'));
            let j = end_before(pre, '_');
            &&& is_version_base(pre.take(j))
            &&& is_suffix_list(pre.skip(j))
            &&& is_revision_part(s.skip(end_before(s, '-')))
        }),
{
}

/// A package version according to PMS sections 3.2 and 3.3.
///
/// This includes the base version components (e.g. `1.2.3a`), any suffixes
/// (e.g. `_alpha1`, `_p20240101`) and the revision number (e.g. `-r1`).
#[derive(Debug, Clone)]
pub struct PackageVersion {
    number: VersionNumber,
    suffixes: VersionSuffixes,
    pub revision: PackageRevision,
}

impl View for PackageVersion {
    type V = VersionView;

    closed spec fn view(&self) -> VersionView {
        VersionView { number: self.number@, suffixes: self.suffixes@, revision: self.revision@ }
    }
}

impl PackageVersion {
    /// The revision of the view is the view of the revision field.
    proof fn lemma_revision_view(&self)
        ensures
            self@.revision == self.revision@,
    {
    }

    /// Creates a version from its `version` number, `suffixes` and `revision`,
    /// e.g. `PackageVersion::new("1.2.3a", Some("_alpha1_p20240101"), Some("1"))`.
    pub fn new(version: &str, suffixes: Option<&str>, revision: Option<&str>) -> (r: Result<
        Self,
        Error,
    >)
        ensures
            r is Ok <==> is_version_base(version@) && (suffixes matches Some(s) ==> is_suffix_list(
                s@,
            )) && (revision matches Some(x) ==> is_digits(x@)),
            r matches Ok(v) ==> version_wf(v@) && number_text(v@.number) == version@
                && suffixes_text(v@.suffixes) == match suffixes {
                Some(s) => s@,
                None => Seq::<char>::empty(),
            } && v@.revision == match revision {
                Some(x) => Some(x@),
                None => None::<Seq<char>>,
            },
    {
        let number = match VersionNumber::new(version) {
            Ok(n) => n,
            Err(e) => {
                return Err(e);
            },
        };
        let suffixes = match suffixes {
            Some(s) => match VersionSuffixes::new(s) {
                Ok(x) => x,
                Err(e) => {
                    return Err(e);
                },
            },
            None => VersionSuffixes::empty(),
        };
        let revision = match PackageRevision::new(revision) {
            Ok(r) => r,
            Err(e) => {
                return Err(e);
            },
        };
        Ok(PackageVersion { number, suffixes, revision })
    }

    /// Creates a version from a full version string, e.g. `1.2.3_alpha1-r1`.
    pub fn try_from(version: &str) -> (r: Result<Self, Error>)
        ensures
            r is Ok <==> is_version_text(version@),
            r matches Ok(v) ==> version_wf(v@) && version_text(v@) == version@,
    {
        let v = chars_of(version);
        assert(v@.subrange(0, v@.len() as int) == v@);
        match Self::parse(&v, 0, v.len()) {
            Some(x) => Ok(x),
            None => Err(Error::with_subject("invalid version", version)),
        }
    }

    /// Parses the full version `v[from..to]`.
    pub fn parse(v: &Vec<char>, from: usize, to: usize) -> (r: Option<Self>)
        requires
            from <= to <= v.len(),
        ensures
            r is Some <==> is_version_text(v@.subrange(from as int, to as int)),
            r matches Some(x) ==> version_wf(x@) && version_text(x@) == v@.subrange(
                from as int,
                to as int,
            ),
    {
        let ghost s = v@.subrange(from as int, to as int);
        let dash = find_char(v, from, to, '-');
        let under = find_char(v, from, dash, '_');
        proof {
            assert(s.take(end_before(s, '-')) == v@.subrange(from as int, dash as int));
            assert(s.skip(end_before(s, '-')) == v@.subrange(dash as int, to as int));
            let pre = v@.subrange(from as int, dash as int);
            assert(pre.take(end_before(pre, '_')) == v@.subrange(from as int, under as int));
            assert(pre.skip(end_before(pre, '_')) == v@.subrange(under as int, dash as int));
        }
        let number = match VersionNumber::parse(v, from, under) {
            Some(n) => n,
            None => {
                return None;
            },
        };
        let suffixes = match VersionSuffixes::parse(v, under, dash) {
            Some(x) => x,
            None => {
                return None;
            },
        };
        let ghost rev = v@.subrange(dash as int, to as int);
        let revision = if dash == to {
            PackageRevision::from_number(None)
        } else {
            if to - dash < 3 || v[dash + 1] != 'r' {
                assert(!is_revision_part(rev));
                return None;
            }
            if !is_digits_range(v, dash + 2, to) {
                assert(rev.skip(2) == v@.subrange(dash + 2, to as int));
                return None;
            }
            assert(rev.skip(2) == v@.subrange(dash + 2, to as int));
            PackageRevision::from_number(Some(NumericComponent::from_range(v, dash + 2, to)))
        };
        let r = PackageVersion { number, suffixes, revision };
        proof {
            assert(s == v@.subrange(from as int, under as int) + v@.subrange(
                under as int,
                dash as int,
            ) + rev);
            if dash < to {
                lemma_end_before(s, '-');
                assert(v@[dash as int] == '-');
                assert(rev =~= seq!['-', 'r'] + v@.subrange(dash + 2, to as int));
            }
        }
        Some(r)
    }

    /// Returns the version without revision (`PV`), e.g. `7.0.174`.
    pub fn pv(&self) -> (s: String)
        ensures
            s@ == version_pv(self@),
    {
        let mut s = self.number.to_string();
        let t = self.suffixes.to_string();
        append_str(&mut s, t.as_str());
        s
    }

    /// Returns the revision, or `r0` if none exists (`PR`).
    pub fn pr(&self) -> (s: String)
        ensures
            s@ == seq!['r'] + match self@.revision {
                Some(r) => r,
                None => seq!['0'],
            },
    {
        let mut s = String::new();
        push_char(&mut s, 'r');
        match self.revision.as_str() {
            Some(r) => append_str(&mut s, r),
            None => push_char(&mut s, '0'),
        }
        s
    }

    /// Returns the version and revision as written (`PVR`), e.g. `7.0.174-r1`.
    pub fn pvr(&self) -> (s: String)
        ensures
            s@ == version_text(self@),
    {
        let mut s = self.pv();
        if let Some(r) = self.revision.as_str() {
            push_char(&mut s, '-');
            push_char(&mut s, 'r');
            append_str(&mut s, r);
            assert(s@ == version_pv(self@) + (seq!['-', 'r'] + r@));
        }
        s
    }

    /// Returns the source-sensitive version string.
    pub fn to_string(&self) -> (s: String)
        ensures
            s@ == version_text(self@),
    {
        self.pvr()
    }

    /// Returns the base version number.
    pub fn number(&self) -> (r: &VersionNumber)
        ensures
            r@ == self@.number,
    {
        &self.number
    }

    /// Returns the suffixes.
    pub fn suffixes(&self) -> (r: &VersionSuffixes)
        ensures
            r@ == self@.suffixes,
    {
        &self.suffixes
    }

    /// Returns a copy of this version.
    pub fn copy(&self) -> (r: Self)
        ensures
            r@ == self@,
    {
        PackageVersion {
            number: self.number.copy(),
            suffixes: self.suffixes.copy(),
            revision: self.revision.copy(),
        }
    }

    /// Compares two versions according to PMS 3.3: -1, 0 or 1.
    pub fn order(&self, other: &Self) -> (r: i8)
        ensures
            r as int == version_order(self@, other@),
    {
        let c = self.number.order(&other.number);
        if c != 0 {
            return c;
        }
        let c = self.suffixes.order(&other.suffixes);
        if c != 0 {
            return c;
        }
        self.revision.order(&other.revision)
    }

    /// Returns `true` if this version satisfies the version constraint of `atom`; an atom
    /// without one accepts every version.
    pub fn matches_atom(&self, atom: &crate::deps::atom::Atom) -> (r: bool)
        ensures
            r == match atom@.kind {
                crate::deps::atom::AtomKindView::Basic(..) => true,
                crate::deps::atom::AtomKindView::Versioned(_, _, k) => crate::deps::atom::constraints::constraint_matches(k, self@),
            },
    {
        match atom.version_constraint() {
            None => true,
            Some(c) => c.matches(self),
        }
    }

    /// Returns `true` if both versions are equal ignoring the revision, as required
    /// by the `~` operator.
    pub fn matches_approximate(&self, other: &Self) -> (r: bool)
        ensures
            r == (number_order(self@.number, other@.number) == 0 && suffixes_order(
                self@.suffixes,
                other@.suffixes,
            ) == 0),
    {
        self.number.order(&other.number) == 0 && self.suffixes.order(&other.suffixes) == 0
    }
}

/// Version ordering is antisymmetric and reflexive.
pub proof fn lemma_version_order(a: VersionView, b: VersionView)
    ensures
        version_order(a, b) == -version_order(b, a),
        -1 <= version_order(a, b) <= 1,
        version_order(a, a) == 0,
{
    lemma_number_order(a.number, b.number);
    lemma_number_order(a.number, a.number);
    lemma_suffixes_order(a.suffixes, b.suffixes);
    lemma_suffixes_order(a.suffixes, a.suffixes);
    lemma_revision_order(a.revision, b.revision);
    lemma_revision_order(a.revision, a.revision);
}

} // verus!
