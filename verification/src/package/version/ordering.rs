//! Equality and ordering of versions through the standard comparison traits.
use super::base::{NumberComponent, VersionNumber, component_order, number_order};
use super::numeric::{NumericComponent, numeric_order};
use super::revision::{PackageRevision, revision_order};
use super::suffix::{VersionSuffix, suffix_order};
use super::{PackageVersion, version_order};
use core::cmp::Ordering;
use vstd::prelude::*;

verus! {

/// The ordering named by a three-way comparison result.
pub open spec fn ordering_of(c: int) -> Ordering {
    if c < 0 {
        Ordering::Less
    } else if c == 0 {
        Ordering::Equal
    } else {
        Ordering::Greater
    }
}

impl PackageVersion {
    /// Compares two versions according to PMS 3.3.
    pub fn cmp(&self, other: &Self) -> (r: Ordering)
        ensures
            r == ordering_of(version_order(self@, other@)),
    {
        let c = self.order(other);
        if c < 0 {
            Ordering::Less
        } else if c == 0 {
            Ordering::Equal
        } else {
            Ordering::Greater
        }
    }
}

impl PartialEq for PackageVersion {
    fn eq(&self, other: &Self) -> (r: bool) {
        self.order(other) == 0
    }
}

impl vstd::std_specs::cmp::PartialEqSpecImpl for PackageVersion {
    open spec fn obeys_eq_spec() -> bool {
        true
    }

    open spec fn eq_spec(&self, other: &Self) -> bool {
        version_order(self@, other@) == 0
    }
}

impl Eq for PackageVersion {

}

impl PartialOrd for PackageVersion {
    fn partial_cmp(&self, other: &Self) -> (r: Option<Ordering>) {
        Some(self.cmp(other))
    }
}

impl vstd::std_specs::cmp::PartialOrdSpecImpl for PackageVersion {
    open spec fn obeys_partial_cmp_spec() -> bool {
        true
    }

    open spec fn partial_cmp_spec(&self, other: &Self) -> Option<Ordering> {
        Some(ordering_of(version_order(self@, other@)))
    }
}


impl PartialEq for NumericComponent {
    fn eq(&self, other: &Self) -> (r: bool) {
        self.order(other) == 0
    }
}

impl vstd::std_specs::cmp::PartialEqSpecImpl for NumericComponent {
    open spec fn obeys_eq_spec() -> bool {
        true
    }

    open spec fn eq_spec(&self, other: &Self) -> bool {
        numeric_order(self@, other@) == 0
    }
}

impl PartialOrd for NumericComponent {
    fn partial_cmp(&self, other: &Self) -> (r: Option<Ordering>) {
        let c = self.order(other);
        if c < 0 {
            Some(Ordering::Less)
        } else if c == 0 {
            Some(Ordering::Equal)
        } else {
            Some(Ordering::Greater)
        }
    }
}

impl vstd::std_specs::cmp::PartialOrdSpecImpl for NumericComponent {
    open spec fn obeys_partial_cmp_spec() -> bool {
        true
    }

    open spec fn partial_cmp_spec(&self, other: &Self) -> Option<Ordering> {
        Some(ordering_of(numeric_order(self@, other@)))
    }
}

impl PartialEq for NumberComponent {
    fn eq(&self, other: &Self) -> (r: bool) {
        self.order(other) == 0
    }
}

impl vstd::std_specs::cmp::PartialEqSpecImpl for NumberComponent {
    open spec fn obeys_eq_spec() -> bool {
        true
    }

    open spec fn eq_spec(&self, other: &Self) -> bool {
        component_order(self@, other@) == 0
    }
}

impl PartialOrd for NumberComponent {
    fn partial_cmp(&self, other: &Self) -> (r: Option<Ordering>) {
        let c = self.order(other);
        if c < 0 {
            Some(Ordering::Less)
        } else if c == 0 {
            Some(Ordering::Equal)
        } else {
            Some(Ordering::Greater)
        }
    }
}

impl vstd::std_specs::cmp::PartialOrdSpecImpl for NumberComponent {
    open spec fn obeys_partial_cmp_spec() -> bool {
        true
    }

    open spec fn partial_cmp_spec(&self, other: &Self) -> Option<Ordering> {
        Some(ordering_of(component_order(self@, other@)))
    }
}

impl PartialEq for VersionNumber {
    fn eq(&self, other: &Self) -> (r: bool) {
        self.order(other) == 0
    }
}

impl vstd::std_specs::cmp::PartialEqSpecImpl for VersionNumber {
    open spec fn obeys_eq_spec() -> bool {
        true
    }

    open spec fn eq_spec(&self, other: &Self) -> bool {
        number_order(self@, other@) == 0
    }
}

impl PartialOrd for VersionNumber {
    fn partial_cmp(&self, other: &Self) -> (r: Option<Ordering>) {
        let c = self.order(other);
        if c < 0 {
            Some(Ordering::Less)
        } else if c == 0 {
            Some(Ordering::Equal)
        } else {
            Some(Ordering::Greater)
        }
    }
}

impl vstd::std_specs::cmp::PartialOrdSpecImpl for VersionNumber {
    open spec fn obeys_partial_cmp_spec() -> bool {
        true
    }

    open spec fn partial_cmp_spec(&self, other: &Self) -> Option<Ordering> {
        Some(ordering_of(number_order(self@, other@)))
    }
}

impl PartialEq for VersionSuffix {
    fn eq(&self, other: &Self) -> (r: bool) {
        self.order(other) == 0
    }
}

impl vstd::std_specs::cmp::PartialEqSpecImpl for VersionSuffix {
    open spec fn obeys_eq_spec() -> bool {
        true
    }

    open spec fn eq_spec(&self, other: &Self) -> bool {
        suffix_order(self@, other@) == 0
    }
}

impl PartialOrd for VersionSuffix {
    fn partial_cmp(&self, other: &Self) -> (r: Option<Ordering>) {
        let c = self.order(other);
        if c < 0 {
            Some(Ordering::Less)
        } else if c == 0 {
            Some(Ordering::Equal)
        } else {
            Some(Ordering::Greater)
        }
    }
}

impl vstd::std_specs::cmp::PartialOrdSpecImpl for VersionSuffix {
    open spec fn obeys_partial_cmp_spec() -> bool {
        true
    }

    open spec fn partial_cmp_spec(&self, other: &Self) -> Option<Ordering> {
        Some(ordering_of(suffix_order(self@, other@)))
    }
}

impl PartialEq for PackageRevision {
    fn eq(&self, other: &Self) -> (r: bool) {
        self.order(other) == 0
    }
}

impl vstd::std_specs::cmp::PartialEqSpecImpl for PackageRevision {
    open spec fn obeys_eq_spec() -> bool {
        true
    }

    open spec fn eq_spec(&self, other: &Self) -> bool {
        revision_order(self@, other@) == 0
    }
}

impl PartialOrd for PackageRevision {
    fn partial_cmp(&self, other: &Self) -> (r: Option<Ordering>) {
        let c = self.order(other);
        if c < 0 {
            Some(Ordering::Less)
        } else if c == 0 {
            Some(Ordering::Equal)
        } else {
            Some(Ordering::Greater)
        }
    }
}

impl vstd::std_specs::cmp::PartialOrdSpecImpl for PackageRevision {
    open spec fn obeys_partial_cmp_spec() -> bool {
        true
    }

    open spec fn partial_cmp_spec(&self, other: &Self) -> Option<Ordering> {
        Some(ordering_of(revision_order(self@, other@)))
    }
}

} // verus!
