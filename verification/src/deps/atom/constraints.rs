//! The version and slot restrictions of an atom.
use crate::error::{Error, subject_message};
use crate::package::slot::{PackageSlot, SlotName, effective_sub_slot, is_slot_name, is_slot_text};
use crate::package::version::matching::{components_match, matches_wildcard, version_components};
use crate::package::version::{PackageVersion, VersionView, lemma_version_order, version_order};
use crate::package::version::base::number_order;
use crate::package::version::suffix::suffixes_order;
use crate::text::{append_str, chars_of, end_before, find_char, lemma_end_before, push_char};
use vstd::prelude::*;

verus! {

/// Model of a version constraint: the operator code and the version.
///
/// Codes: 0 `=`, 1 `=` with a trailing `*`, 2 `~`, 3 `>`, 4 `>=`, 5 `<`, 6 `<=`.
pub type ConstraintView = (u8, VersionView);

/// Text of the operator with the given code.
pub open spec fn operator_text(op: u8) -> Seq<char> {
    if op <= 1 {
        seq!['=']
    } else if op == 2 {
        seq!['~']
    } else if op == 3 {
        seq!['>']
    } else if op == 4 {
        seq!['>', '=']
    } else if op == 5 {
        seq!['<']
    } else {
        seq!['<', '=']
    }
}

/// A candidate version satisfies a constraint.
pub open spec fn constraint_matches(c: ConstraintView, v: VersionView) -> bool {
    let o = version_order(v, c.1);
    if c.0 == 0 {
        o == 0
    } else if c.0 == 1 {
        components_match(version_components(c.1), version_components(v))
    } else if c.0 == 2 {
        number_order(v.number, c.1.number) == 0 && suffixes_order(v.suffixes, c.1.suffixes) == 0
    } else if c.0 == 3 {
        o > 0
    } else if c.0 == 4 {
        o >= 0
    } else if c.0 == 5 {
        o < 0
    } else {
        o <= 0
    }
}

/// The comparison operators of atoms agree with version order and with one another: for
/// every version `w`, `=w`, `>=w` and `<=w` select `w` itself while `>w` and `<w` do not;
/// `>=` selects exactly what `>` or `=` selects and `<=` what `<` or `=` selects; `>w`
/// selects `v` exactly when `<v` selects `w`; and of `<w`, `=w` and `>w` exactly one
/// selects any version.
pub proof fn lemma_comparison_operators(v: VersionView, w: VersionView)
    ensures
        constraint_matches((0, w), w),
        constraint_matches((4, w), w),
        constraint_matches((6, w), w),
        !constraint_matches((3, w), w),
        !constraint_matches((5, w), w),
        constraint_matches((4, w), v) <==> (constraint_matches((3, w), v) || constraint_matches((0, w), v)),
        constraint_matches((6, w), v) <==> (constraint_matches((5, w), v) || constraint_matches((0, w), v)),
        constraint_matches((3, w), v) <==> constraint_matches((5, v), w),
        constraint_matches((4, w), v) <==> constraint_matches((6, v), w),
        constraint_matches((3, w), v) <==> version_order(v, w) > 0,
        constraint_matches((0, w), v) <==> version_order(v, w) == 0,
        constraint_matches((5, w), v) || constraint_matches((0, w), v) || constraint_matches((3, w), v),
        !(constraint_matches((5, w), v) && constraint_matches((0, w), v)),
        !(constraint_matches((5, w), v) && constraint_matches((3, w), v)),
        !(constraint_matches((0, w), v) && constraint_matches((3, w), v)),
{
    lemma_version_order(v, w);
    lemma_version_order(w, v);
    lemma_version_order(w, w);
}

/// Defines how a versioned atom matches a version.
#[derive(Debug, Clone)]
pub enum VersionConstraint {
    Equal(PackageVersion),
    EqualWildcard(PackageVersion),
    Approximate(PackageVersion),
    Greater(PackageVersion),
    GreaterEqual(PackageVersion),
    Less(PackageVersion),
    LessEqual(PackageVersion),
}

impl View for VersionConstraint {
    type V = ConstraintView;

    open spec fn view(&self) -> ConstraintView {
        match self {
            VersionConstraint::Equal(v) => (0, v@),
            VersionConstraint::EqualWildcard(v) => (1, v@),
            VersionConstraint::Approximate(v) => (2, v@),
            VersionConstraint::Greater(v) => (3, v@),
            VersionConstraint::GreaterEqual(v) => (4, v@),
            VersionConstraint::Less(v) => (5, v@),
            VersionConstraint::LessEqual(v) => (6, v@),
        }
    }
}

impl VersionConstraint {
    /// Builds the constraint with operator code `op` (see [`ConstraintView`]).
    pub fn from_code(op: u8, version: PackageVersion) -> (r: Self)
        requires
            op <= 6,
        ensures
            r@ == (op, version@),
    {
        if op == 0 {
            VersionConstraint::Equal(version)
        } else if op == 1 {
            VersionConstraint::EqualWildcard(version)
        } else if op == 2 {
            VersionConstraint::Approximate(version)
        } else if op == 3 {
            VersionConstraint::Greater(version)
        } else if op == 4 {
            VersionConstraint::GreaterEqual(version)
        } else if op == 5 {
            VersionConstraint::Less(version)
        } else {
            VersionConstraint::LessEqual(version)
        }
    }

    /// Returns `true` if the `candidate` version satisfies this constraint.
    pub fn matches(&self, candidate: &PackageVersion) -> (r: bool)
        ensures
            r == constraint_matches(self@, candidate@),
    {
        match self {
            VersionConstraint::Equal(v) => candidate.order(v) == 0,
            VersionConstraint::EqualWildcard(v) => matches_wildcard(v, candidate),
            VersionConstraint::Approximate(v) => candidate.matches_approximate(v),
            VersionConstraint::Greater(v) => candidate.order(v) > 0,
            VersionConstraint::GreaterEqual(v) => candidate.order(v) >= 0,
            VersionConstraint::Less(v) => candidate.order(v) < 0,
            VersionConstraint::LessEqual(v) => candidate.order(v) <= 0,
        }
    }

    /// Returns the operator, e.g. `>=`.
    pub fn operator(&self) -> (r: &'static str)
        ensures
            r@ == operator_text(self@.0),
    {
        let r = match self {
            VersionConstraint::Equal(_) | VersionConstraint::EqualWildcard(_) => "=",
            VersionConstraint::Approximate(_) => "~",
            VersionConstraint::Greater(_) => ">",
            VersionConstraint::GreaterEqual(_) => ">=",
            VersionConstraint::Less(_) => "<",
            VersionConstraint::LessEqual(_) => "<=",
        };
        proof {
            reveal_strlit("=");
            reveal_strlit("~");
            reveal_strlit(">");
            reveal_strlit(">=");
            reveal_strlit("<");
            reveal_strlit("<=");
        }
        r
    }

    /// Returns the version of this constraint.
    pub fn version(&self) -> (r: &PackageVersion)
        ensures
            r@ == self@.1,
    {
        match self {
            VersionConstraint::Equal(v) | VersionConstraint::EqualWildcard(v)
            | VersionConstraint::Approximate(v) | VersionConstraint::Greater(v)
            | VersionConstraint::GreaterEqual(v) | VersionConstraint::Less(v)
            | VersionConstraint::LessEqual(v) => v,
        }
    }

    /// Returns `true` for the `=` operator with a trailing `*`.
    pub fn is_wildcard(&self) -> (r: bool)
        ensures
            r == (self@.0 == 1),
    {
        match self {
            VersionConstraint::EqualWildcard(_) => true,
            _ => false,
        }
    }

    /// Returns a copy of this constraint.
    pub fn copy(&self) -> (r: Self)
        ensures
            r@ == self@,
    {
        match self {
            VersionConstraint::Equal(v) => VersionConstraint::Equal(v.copy()),
            VersionConstraint::EqualWildcard(v) => VersionConstraint::EqualWildcard(v.copy()),
            VersionConstraint::Approximate(v) => VersionConstraint::Approximate(v.copy()),
            VersionConstraint::Greater(v) => VersionConstraint::Greater(v.copy()),
            VersionConstraint::GreaterEqual(v) => VersionConstraint::GreaterEqual(v.copy()),
            VersionConstraint::Less(v) => VersionConstraint::Less(v.copy()),
            VersionConstraint::LessEqual(v) => VersionConstraint::LessEqual(v.copy()),
        }
    }
}

/// Model of a slot constraint.
pub enum SlotConstraintView {
    Any,
    AnyRebuild,
    Slot(Seq<char>),
    SlotRebuild(Seq<char>),
    SlotSubSlot(Seq<char>, Seq<char>),
    SlotSubSlotRebuild(Seq<char>, Seq<char>),
}

/// A slot constraint holds valid slot names.
pub open spec fn slot_constraint_wf(c: SlotConstraintView) -> bool {
    match c {
        SlotConstraintView::Slot(s) | SlotConstraintView::SlotRebuild(s) => is_slot_name(s),
        SlotConstraintView::SlotSubSlot(s, t) | SlotConstraintView::SlotSubSlotRebuild(s, t) =>
            is_slot_name(s) && is_slot_name(t),
        _ => true,
    }
}

/// Text of a slot constraint as written after `:` in an atom.
pub open spec fn slot_constraint_text(c: SlotConstraintView) -> Seq<char> {
    match c {
        SlotConstraintView::Any => seq!['*'],
        SlotConstraintView::AnyRebuild => seq!['='],
        SlotConstraintView::Slot(s) => s,
        SlotConstraintView::SlotRebuild(s) => s + seq!['='],
        SlotConstraintView::SlotSubSlot(s, t) => s + seq!['/'] + t,
        SlotConstraintView::SlotSubSlotRebuild(s, t) => s + seq!['/'] + t + seq!['='],
    }
}

/// The part of a slot constraint text before an optional trailing `=`.
pub open spec fn slot_constraint_body(s: Seq<char>) -> Seq<char> {
    if s.len() > 0 && s.last() == '=' {
        s.drop_last()
    } else {
        s
    }
}

/// PMS 8.3.3: `*`, `=`, or a slot with optional sub-slot and optional trailing `=`.
pub open spec fn is_slot_constraint_text(s: Seq<char>) -> bool {
    s == seq!['*'] || s == seq!['='] || is_slot_text(slot_constraint_body(s))
}

/// A package slot satisfies a slot constraint.
pub open spec fn slot_constraint_matches(c: SlotConstraintView, p: (Seq<char>, Option<Seq<char>>)) -> bool {
    match c {
        SlotConstraintView::Any | SlotConstraintView::AnyRebuild => true,
        SlotConstraintView::Slot(s) | SlotConstraintView::SlotRebuild(s) => p.0 == s,
        SlotConstraintView::SlotSubSlot(s, t) | SlotConstraintView::SlotSubSlotRebuild(s, t) =>
            p.0 == s && effective_sub_slot(p) == t,
    }
}

/// Defines how the slot restriction of an atom matches a package slot.
#[derive(Debug, Clone)]
pub enum SlotConstraint {
    /// `:*`: any slot.
    Any,
    /// `:=`: any slot, rebuilding on changes.
    AnyRebuild,
    /// `:SLOT`: the slot must match.
    Slot(SlotName),
    /// `:SLOT=`: the slot must match, rebuilding on changes.
    SlotRebuild(SlotName),
    /// `:SLOT/SUBSLOT`: slot and effective sub-slot must match.
    SlotSubSlot(SlotName, SlotName),
    /// `:SLOT/SUBSLOT=`: slot and effective sub-slot must match, rebuilding on changes.
    SlotSubSlotRebuild(SlotName, SlotName),
}

impl View for SlotConstraint {
    type V = SlotConstraintView;

    open spec fn view(&self) -> SlotConstraintView {
        match self {
            SlotConstraint::Any => SlotConstraintView::Any,
            SlotConstraint::AnyRebuild => SlotConstraintView::AnyRebuild,
            SlotConstraint::Slot(s) => SlotConstraintView::Slot(s@),
            SlotConstraint::SlotRebuild(s) => SlotConstraintView::SlotRebuild(s@),
            SlotConstraint::SlotSubSlot(s, t) => SlotConstraintView::SlotSubSlot(s@, t@),
            SlotConstraint::SlotSubSlotRebuild(s, t) => SlotConstraintView::SlotSubSlotRebuild(
                s@,
                t@,
            ),
        }
    }
}

impl SlotConstraint {
    /// Parses a slot constraint such as `*`, `=`, `2`, `2=`, `2/3` or `2/3=`.
    pub fn new(value: &str) -> (r: Result<Self, Error>)
        ensures
            r is Ok <==> is_slot_constraint_text(value@),
            r matches Ok(c) ==> slot_constraint_wf(c@) && slot_constraint_text(c@) == value@,
    {
        let v = chars_of(value);
        assert(v@.subrange(0, v@.len() as int) == v@);
        Self::from_range(&v, 0, v.len())
    }

    /// Parses a slot constraint from `v[from..to]`.
    pub fn from_range(v: &Vec<char>, from: usize, to: usize) -> (r: Result<Self, Error>)
        requires
            from <= to <= v.len(),
        ensures
            r is Ok <==> is_slot_constraint_text(v@.subrange(from as int, to as int)),
            r matches Ok(c) ==> slot_constraint_wf(c@) && slot_constraint_text(c@) == v@.subrange(
                from as int,
                to as int,
            ),
    {
        let ghost s = v@.subrange(from as int, to as int);
        if to > from && to - from == 1 && v[from] == '*' {
            assert(s =~= seq!['*']);
            return Ok(SlotConstraint::Any);
        }
        if to > from && to - from == 1 && v[from] == '=' {
            assert(s =~= seq!['=']);
            return Ok(SlotConstraint::AnyRebuild);
        }
        assert(s != seq!['*'] && s != seq!['=']) by {
            if s.len() == 1 {
                assert(s[0] == v@[from as int]);
            }
        }
        let rebuild = to > from && v[to - 1] == '=';
        let end = if rebuild {
            to - 1
        } else {
            to
        };
        assert(slot_constraint_body(s) == v@.subrange(from as int, end as int));
        let ghost body = v@.subrange(from as int, end as int);
        let k = find_char(v, from, end, '/');
        proof {
            lemma_end_before(body, '/');
        }
        if k < end {
            assert(body.take(k - from) == v@.subrange(from as int, k as int));
            assert(body.skip(k - from + 1) == v@.subrange(k + 1, end as int));
            let slot = match SlotName::from_range(v, from, k) {
                Ok(x) => x,
                Err(e) => {
                    return Err(e);
                },
            };
            let sub = match SlotName::from_range(v, k + 1, end) {
                Ok(x) => x,
                Err(e) => {
                    return Err(e);
                },
            };
            assert(body =~= v@.subrange(from as int, k as int) + seq!['/'] + v@.subrange(
                k + 1,
                end as int,
            ));
            if rebuild {
                assert(s =~= body + seq!['=']);
                Ok(SlotConstraint::SlotSubSlotRebuild(slot, sub))
            } else {
                Ok(SlotConstraint::SlotSubSlot(slot, sub))
            }
        } else {
            let slot = match SlotName::from_range(v, from, end) {
                Ok(x) => x,
                Err(e) => {
                    return Err(e);
                },
            };
            if rebuild {
                assert(s =~= body + seq!['=']);
                Ok(SlotConstraint::SlotRebuild(slot))
            } else {
                Ok(SlotConstraint::Slot(slot))
            }
        }
    }

    /// Returns `true` if the package slot `candidate` satisfies this constraint.
    pub fn matches(&self, candidate: &PackageSlot) -> (r: bool)
        ensures
            r == slot_constraint_matches(self@, candidate@),
    {
        match self {
            SlotConstraint::Any | SlotConstraint::AnyRebuild => true,
            SlotConstraint::Slot(s) | SlotConstraint::SlotRebuild(s) => *candidate.slot() == *s,
            SlotConstraint::SlotSubSlot(s, t) | SlotConstraint::SlotSubSlotRebuild(s, t) => *candidate.slot() == *s
                && *candidate.sub_slot() == *t,
        }
    }

    /// Returns the text of this constraint as written after `:` in an atom.
    pub fn to_string(&self) -> (r: String)
        ensures
            r@ == slot_constraint_text(self@),
    {
        let mut out = String::new();
        match self {
            SlotConstraint::Any => push_char(&mut out, '*'),
            SlotConstraint::AnyRebuild => push_char(&mut out, '='),
            SlotConstraint::Slot(s) => append_str(&mut out, s.as_str()),
            SlotConstraint::SlotRebuild(s) => {
                append_str(&mut out, s.as_str());
                push_char(&mut out, '=');
            },
            SlotConstraint::SlotSubSlot(s, t) => {
                append_str(&mut out, s.as_str());
                push_char(&mut out, '/');
                append_str(&mut out, t.as_str());
            },
            SlotConstraint::SlotSubSlotRebuild(s, t) => {
                append_str(&mut out, s.as_str());
                push_char(&mut out, '/');
                append_str(&mut out, t.as_str());
                push_char(&mut out, '=');
            },
        }
        out
    }

    /// Returns a copy of this constraint.
    pub fn copy(&self) -> (r: Self)
        ensures
            r@ == self@,
    {
        match self {
            SlotConstraint::Any => SlotConstraint::Any,
            SlotConstraint::AnyRebuild => SlotConstraint::AnyRebuild,
            SlotConstraint::Slot(s) => SlotConstraint::Slot(s.copy()),
            SlotConstraint::SlotRebuild(s) => SlotConstraint::SlotRebuild(s.copy()),
            SlotConstraint::SlotSubSlot(s, t) => SlotConstraint::SlotSubSlot(s.copy(), t.copy()),
            SlotConstraint::SlotSubSlotRebuild(s, t) => SlotConstraint::SlotSubSlotRebuild(
                s.copy(),
                t.copy(),
            ),
        }
    }
}

impl PartialEq for SlotConstraint {
    fn eq(&self, other: &Self) -> (r: bool) {
        match (self, other) {
            (SlotConstraint::Any, SlotConstraint::Any) => true,
            (SlotConstraint::AnyRebuild, SlotConstraint::AnyRebuild) => true,
            (SlotConstraint::Slot(a), SlotConstraint::Slot(b)) => *a == *b,
            (SlotConstraint::SlotRebuild(a), SlotConstraint::SlotRebuild(b)) => *a == *b,
            (SlotConstraint::SlotSubSlot(a, c), SlotConstraint::SlotSubSlot(b, d)) => *a == *b && *c
                == *d,
            (
                SlotConstraint::SlotSubSlotRebuild(a, c),
                SlotConstraint::SlotSubSlotRebuild(b, d),
            ) => *a == *b && *c == *d,
            _ => false,
        }
    }
}

impl vstd::std_specs::cmp::PartialEqSpecImpl for SlotConstraint {
    open spec fn obeys_eq_spec() -> bool {
        true
    }

    open spec fn eq_spec(&self, other: &Self) -> bool {
        self@ == other@
    }
}

} // verus!
