//! Keys that identify atoms: atoms that are equal, their versions compared as versions,
//! have the same key.
use super::constraints::{operator_text, slot_constraint_text};
use super::{AtomKindView, AtomView, atom_wf, star_or, tail_text, uses_part_text};
use crate::package::version::hashing::{lemma_equal_versions_hash_alike, version_key};
use crate::package::version::version_order;
use vstd::prelude::*;

verus! {

/// The package selection with its version in canonical form: versions that compare equal
/// (`1.0` and `1.0-r0`, `1.03` and `1.030`) give the same key.
pub open spec fn kind_key(k: AtomKindView) -> Seq<char> {
    match k {
        AtomKindView::Basic(c, p) => star_or(c) + seq!['/'] + star_or(p),
        AtomKindView::Versioned(c, p, v) => operator_text(v.0) + c + seq!['/'] + p + seq!['-']
            + version_key(v.1) + if v.0 == 1 {
            seq!['*']
        } else {
            Seq::empty()
        },
    }
}

/// The key that identifies an atom: its text with the version in canonical form, so that
/// atoms that are equal, their versions compared as versions, have the same key.
pub open spec fn atom_key(a: AtomView) -> Seq<char> {
    kind_key(a.kind) + tail_text(
        match a.slot {
            Some(c) => Some(slot_constraint_text(c)),
            None => None,
        },
        a.repo,
    ) + uses_part_text(a.use_deps)
}

/// Two atoms are equal: the same parts, where versions are equal when they compare equal.
pub open spec fn atoms_equal(a: AtomView, b: AtomView) -> bool {
    &&& match (a.kind, b.kind) {
        (AtomKindView::Basic(c1, p1), AtomKindView::Basic(c2, p2)) => c1 == c2 && p1 == p2,
        (AtomKindView::Versioned(c1, p1, v1), AtomKindView::Versioned(c2, p2, v2)) => c1 == c2 && p1 == p2
            && v1.0 == v2.0 && version_order(v1.1, v2.1) == 0,
        _ => false,
    }
    &&& a.slot == b.slot
    &&& a.repo == b.repo
    &&& a.use_deps == b.use_deps
}

/// Well-formed atoms that are equal have the same key.
pub proof fn lemma_equal_atoms_same_key(a: AtomView, b: AtomView)
    requires
        atom_wf(a),
        atom_wf(b),
        atoms_equal(a, b),
    ensures
        atom_key(a) == atom_key(b),
{
    match (a.kind, b.kind) {
        (AtomKindView::Versioned(c1, p1, v1), AtomKindView::Versioned(c2, p2, v2)) => {
            lemma_equal_versions_hash_alike(v1.1, v2.1);
        },
        _ => {},
    }
}

} // verus!
