//! Package slots and sub-slots (PMS 3.1.3).
use crate::error::{Error, subject_message};
use crate::grammar::{NameKind, is_name, is_name_range};
use crate::text::{append_str, chars_of, end_before, find_char, lemma_end_before, push_char, string_from};
use vstd::prelude::*;

verus! {

/// PMS 3.1.3: a slot or sub-slot name.
pub open spec fn is_slot_name(s: Seq<char>) -> bool {
    is_name(NameKind::Slot, s)
}

/// A slot written as `slot` or `slot/sub-slot`.
pub open spec fn is_slot_text(s: Seq<char>) -> bool {
    let k = end_before(s, '/');
    if k < s.len() {
        is_slot_name(s.take(k)) && is_slot_name(s.skip(k + 1))
    } else {
        is_slot_name(s)
    }
}

/// Model of a package slot: the slot and the sub-slot as written, if any.
pub type SlotView = (Seq<char>, Option<Seq<char>>);

/// Text of a slot: `slot` or `slot/sub-slot`.
pub open spec fn slot_text(v: SlotView) -> Seq<char> {
    match v.1 {
        Some(sub) => v.0 + seq!['/'] + sub,
        None => v.0,
    }
}

/// The sub-slot in effect: the one written, else the slot itself.
pub open spec fn effective_sub_slot(v: SlotView) -> Seq<char> {
    match v.1 {
        Some(sub) => sub,
        None => v.0,
    }
}

/// The message for a text that is no slot: the first part that is no slot name.
pub open spec fn slot_error(s: Seq<char>) -> Seq<char> {
    let k = end_before(s, '/');
    if k < s.len() && is_slot_name(s.take(k)) {
        subject_message("invalid slot name"@, s.skip(k + 1))
    } else {
        subject_message("invalid slot name"@, s.take(k))
    }
}

/// A validated slot or sub-slot name, e.g. `2.30`.
#[derive(Debug, Clone)]
pub struct SlotName {
    name: String,
}

impl View for SlotName {
    type V = Seq<char>;

    closed spec fn view(&self) -> Seq<char> {
        self.name@
    }
}

impl SlotName {
    /// Creates a slot name from `name`, failing where it is not valid.
    pub fn new(name: &str) -> (r: Result<Self, Error>)
        ensures
            r is Ok <==> is_slot_name(name@),
            r matches Ok(s) ==> s@ == name@,
            r matches Err(e) ==> e.text() == subject_message("invalid slot name"@, name@),
    {
        let v = chars_of(name);
        assert(v@.subrange(0, v@.len() as int) == v@);
        if is_name_range(NameKind::Slot, &v, 0, v.len()) {
            Ok(SlotName { name: name.to_owned() })
        } else {
            Err(Error::with_subject("invalid slot name", name))
        }
    }

    /// Reads a slot name from `v[from..to]`; the error names that text.
    pub fn from_range(v: &Vec<char>, from: usize, to: usize) -> (r: Result<Self, Error>)
        requires
            from <= to <= v.len(),
        ensures
            r is Ok <==> is_slot_name(v@.subrange(from as int, to as int)),
            r matches Ok(s) ==> s@ == v@.subrange(from as int, to as int),
            r matches Err(e) ==> e.text() == subject_message(
                "invalid slot name"@,
                v@.subrange(from as int, to as int),
            ),
    {
        let text = string_from(v, from, to);
        if is_name_range(NameKind::Slot, v, from, to) {
            Ok(SlotName { name: text })
        } else {
            Err(Error::with_subject("invalid slot name", text.as_str()))
        }
    }

    /// Returns the name.
    pub fn as_str(&self) -> (r: &str)
        ensures
            r@ == self@,
    {
        self.name.as_str()
    }

    /// Returns the name as an owned string.
    pub fn to_string(&self) -> (r: String)
        ensures
            r@ == self@,
    {
        self.name.clone()
    }

    /// Returns a copy of this name.
    pub fn copy(&self) -> (r: Self)
        ensures
            r@ == self@,
    {
        SlotName { name: self.name.clone() }
    }
}

impl PartialEq for SlotName {
    fn eq(&self, other: &Self) -> (r: bool) {
        self.name == other.name
    }
}

impl vstd::std_specs::cmp::PartialEqSpecImpl for SlotName {
    open spec fn obeys_eq_spec() -> bool {
        true
    }

    open spec fn eq_spec(&self, other: &Self) -> bool {
        self@ == other@
    }
}

/// The slot and optional sub-slot of a package. Without a sub-slot, the slot is the
/// sub-slot in effect.
#[derive(Debug, Clone)]
pub struct PackageSlot {
    slot: SlotName,
    sub_slot: Option<SlotName>,
}

impl View for PackageSlot {
    type V = SlotView;

    closed spec fn view(&self) -> SlotView {
        (
            self.slot@,
            match self.sub_slot {
                Some(s) => Some(s@),
                None => None,
            },
        )
    }
}

impl PackageSlot {
    /// Creates a slot from `name`, written `slot` or `slot/sub-slot`.
    pub fn new(name: &str) -> (r: Result<Self, Error>)
        ensures
            r is Ok <==> is_slot_text(name@),
            r matches Ok(s) ==> slot_text(s@) == name@ && is_slot_name(s@.0) && (s@.1 matches Some(
                sub,
            ) ==> is_slot_name(sub)),
            r matches Err(e) ==> e.text() == slot_error(name@),
    {
        let v = chars_of(name);
        assert(v@.subrange(0, v@.len() as int) == v@);
        match Self::from_range(&v, 0, v.len()) {
            Ok(s) => Ok(s),
            Err(e) => Err(e),
        }
    }

    /// Reads a slot from `v[from..to]`.
    pub fn from_range(v: &Vec<char>, from: usize, to: usize) -> (r: Result<Self, Error>)
        requires
            from <= to <= v.len(),
        ensures
            r is Ok <==> is_slot_text(v@.subrange(from as int, to as int)),
            r matches Ok(s) ==> slot_text(s@) == v@.subrange(from as int, to as int)
                && is_slot_name(s@.0) && (s@.1 matches Some(sub) ==> is_slot_name(sub)),
            r matches Err(e) ==> e.text() == slot_error(v@.subrange(from as int, to as int)),
    {
        let ghost s = v@.subrange(from as int, to as int);
        let k = find_char(v, from, to, '/');
        proof {
            lemma_end_before(s, '/');
        }
        if k < to {
            assert(s.take(k - from) == v@.subrange(from as int, k as int));
            assert(s.skip(k - from + 1) == v@.subrange(k + 1, to as int));
            let slot = match SlotName::from_range(v, from, k) {
                Ok(x) => x,
                Err(e) => {
                    return Err(e);
                },
            };
            let sub = match SlotName::from_range(v, k + 1, to) {
                Ok(x) => x,
                Err(e) => {
                    return Err(e);
                },
            };
            assert(s =~= v@.subrange(from as int, k as int) + seq!['/'] + v@.subrange(
                k + 1,
                to as int,
            ));
            Ok(PackageSlot { slot, sub_slot: Some(sub) })
        } else {
            match SlotName::from_range(v, from, to) {
                Ok(x) => Ok(PackageSlot { slot: x, sub_slot: None }),
                Err(e) => Err(e),
            }
        }
    }

    /// Returns the slot.
    pub fn slot(&self) -> (r: &SlotName)
        ensures
            r@ == self@.0,
    {
        &self.slot
    }

    /// Returns the sub-slot in effect.
    pub fn sub_slot(&self) -> (r: &SlotName)
        ensures
            r@ == effective_sub_slot(self@),
    {
        match &self.sub_slot {
            Some(s) => s,
            None => &self.slot,
        }
    }

    /// Returns `slot` or `slot/sub-slot` as written.
    pub fn to_string(&self) -> (r: String)
        ensures
            r@ == slot_text(self@),
    {
        let mut s = self.slot.to_string();
        if let Some(sub) = &self.sub_slot {
            push_char(&mut s, '/');
            append_str(&mut s, sub.as_str());
        }
        s
    }

    /// Returns a copy of this slot.
    pub fn copy(&self) -> (r: Self)
        ensures
            r@ == self@,
    {
        PackageSlot {
            slot: self.slot.copy(),
            sub_slot: match &self.sub_slot {
                Some(s) => Some(s.copy()),
                None => None,
            },
        }
    }
}

impl Default for PackageSlot {
    /// The slot `0`.
    fn default() -> (r: Self)
        ensures
            r@ == (seq!['0'], None::<Seq<char>>),
    {
        let mut name = String::new();
        push_char(&mut name, '0');
        PackageSlot { slot: SlotName { name }, sub_slot: None }
    }
}

} // verus!
