//! Package revisions such as `-r1`.
use super::numeric::{NumericComponent, lemma_numeric_order, numeric_order};
use crate::error::Error;
use vstd::prelude::*;

verus! {

/// The digits of an optional revision, where none is the empty sequence.
pub open spec fn revision_digits(r: Option<Seq<char>>) -> Seq<char> {
    match r {
        Some(n) => n,
        None => Seq::empty(),
    }
}

/// Ordering of revisions: numeric, where an omitted revision equals `-r0`.
pub open spec fn revision_order(a: Option<Seq<char>>, b: Option<Seq<char>>) -> int {
    numeric_order(revision_digits(a), revision_digits(b))
}

/// Source text of an optional revision, e.g. `-r1`.
pub open spec fn revision_text(r: Option<Seq<char>>) -> Seq<char> {
    match r {
        Some(n) => seq!['-', 'r'] + n,
        None => Seq::empty(),
    }
}

/// A package revision.
///
/// Revisions with different spellings can compare equal, and an explicit
/// revision 0 equals an omitted revision, e.g. `-r0302 == -r302` and `-r0 ==` none.
#[derive(Debug, Clone)]
pub struct PackageRevision(Option<NumericComponent>);

impl View for PackageRevision {
    type V = Option<Seq<char>>;

    closed spec fn view(&self) -> Option<Seq<char>> {
        match self.0 {
            Some(n) => Some(n@),
            None => None,
        }
    }
}

impl PackageRevision {
    /// Creates a revision from its optional digits.
    ///
    /// Fails if the given revision is empty or holds a character that is not a digit.
    pub fn new(revision: Option<&str>) -> (r: Result<Self, Error>)
        ensures
            r is Ok <==> (revision matches Some(s) ==> crate::text::is_digits(s@)),
            r matches Ok(x) ==> x@ == match revision {
                Some(s) => Some(s@),
                None => None::<Seq<char>>,
            },
    {
        match revision {
            Some(s) => match NumericComponent::new(s) {
                Ok(n) => Ok(PackageRevision(Some(n))),
                Err(e) => Err(e),
            },
            None => Ok(PackageRevision(None)),
        }
    }

    /// Creates a revision from an optional number.
    pub fn from_number(number: Option<NumericComponent>) -> (r: Self)
        ensures
            r@ == match number {
                Some(n) => Some(n@),
                None => None::<Seq<char>>,
            },
    {
        PackageRevision(number)
    }

    /// Returns the raw revision digits, if any.
    pub fn as_str(&self) -> (r: Option<&str>)
        ensures
            match r {
                Some(s) => self@ == Some(s@),
                None => self@ is None,
            },
    {
        match &self.0 {
            Some(n) => Some(n.as_str()),
            None => None,
        }
    }

    /// Returns the revision number, if any.
    pub fn number(&self) -> (r: Option<&NumericComponent>)
        ensures
            match r {
                Some(n) => self@ == Some(n@),
                None => self@ is None,
            },
    {
        match &self.0 {
            Some(n) => Some(n),
            None => None,
        }
    }

    /// Returns a copy of this revision.
    pub fn copy(&self) -> (r: Self)
        ensures
            r@ == self@,
    {
        match &self.0 {
            Some(n) => PackageRevision(Some(n.copy())),
            None => PackageRevision(None),
        }
    }

    /// Compares two revisions: -1, 0 or 1.
    pub fn order(&self, other: &Self) -> (r: i8)
        ensures
            r as int == revision_order(self@, other@),
    {
        let x = match &self.0 {
            Some(n) => n.as_str(),
            None => "",
        };
        let y = match &other.0 {
            Some(n) => n.as_str(),
            None => "",
        };
        proof {
            reveal_strlit("");
        }
        super::numeric::numeric_order_exec(x, y)
    }
}

/// Properties of the revision ordering.
pub proof fn lemma_revision_order(a: Option<Seq<char>>, b: Option<Seq<char>>)
    ensures
        revision_order(a, b) == -revision_order(b, a),
        -1 <= revision_order(a, b) <= 1,
        revision_order(a, a) == 0,
{
    lemma_numeric_order(revision_digits(a), revision_digits(b));
    lemma_numeric_order(revision_digits(a), revision_digits(a));
}

} // verus!
