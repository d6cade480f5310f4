//! Entries of line-based configuration files: a value with an operation (a leading `-`
//! unsets) and the precedence of the file it came from.
use crate::deps::atom::grammar::is_atom_text;
use crate::deps::atom::key::atom_key;
use crate::deps::atom::{Atom, AtomView, atom_text};
use crate::deps::useflag::UseFlag;
use crate::error::{Error, subject_message};
use crate::keyword::{KeywordSelector, SelectorView, is_selector_text, selector_parts, selector_text};
use crate::text::chars_of;
use vstd::prelude::*;

verus! {

/// A value that lines of a configuration file hold, such as an [`Atom`] or a [`UseFlag`].
pub trait FileEntry: View + Sized {
    /// `s` is the text of a value.
    spec fn accepts_entry(s: Seq<char>) -> bool;

    /// `v` is what the text `s` reads as.
    spec fn reads_as(s: Seq<char>, v: Self::V) -> bool;

    /// The text that identifies a value: two entries of the same value have the same key.
    spec fn key(v: Self::V) -> Seq<char>;

    /// Reads a value from `value`.
    fn parse_entry(value: &str) -> (r: Result<Self, Error>)
        ensures
            r is Ok <==> Self::accepts_entry(value@),
            r matches Ok(x) ==> Self::reads_as(value@, x@),
    ;

    /// Returns the key of this value.
    fn entry_key(&self) -> (r: String)
        ensures
            r@ == Self::key(self@),
    ;

    /// Returns a copy of this value.
    fn copy_entry(&self) -> (r: Self)
        ensures
            r@ == self@,
    ;
}

impl FileEntry for Atom {
    open spec fn accepts_entry(s: Seq<char>) -> bool {
        is_atom_text(s)
    }

    open spec fn reads_as(s: Seq<char>, v: AtomView) -> bool {
        atom_text(v) == s
    }

    open spec fn key(v: AtomView) -> Seq<char> {
        atom_key(v)
    }

    fn parse_entry(value: &str) -> (r: Result<Self, Error>) {
        Atom::new(value)
    }

    fn entry_key(&self) -> (r: String) {
        self.key_string()
    }

    fn copy_entry(&self) -> (r: Self) {
        self.copy()
    }
}

impl FileEntry for UseFlag {
    open spec fn accepts_entry(s: Seq<char>) -> bool {
        s.len() > 0
    }

    open spec fn reads_as(s: Seq<char>, v: Seq<char>) -> bool {
        v == s
    }

    open spec fn key(v: Seq<char>) -> Seq<char> {
        v
    }

    fn parse_entry(value: &str) -> (r: Result<Self, Error>) {
        UseFlag::parse(value)
    }

    fn entry_key(&self) -> (r: String) {
        self.to_string()
    }

    fn copy_entry(&self) -> (r: Self) {
        self.copy()
    }
}

impl FileEntry for KeywordSelector {
    open spec fn accepts_entry(s: Seq<char>) -> bool {
        is_selector_text(s)
    }

    open spec fn reads_as(s: Seq<char>, v: SelectorView) -> bool {
        v == selector_parts(s)
    }

    open spec fn key(v: SelectorView) -> Seq<char> {
        selector_text(v)
    }

    fn parse_entry(value: &str) -> (r: Result<Self, Error>) {
        KeywordSelector::from_str(value)
    }

    fn entry_key(&self) -> (r: String) {
        self.to_string()
    }

    fn copy_entry(&self) -> (r: Self) {
        self.copy()
    }
}

/// Whether an entry sets its value or, written with a leading `-`, unsets it.
#[derive(Clone, Copy, Debug, PartialEq, Eq, Structural)]
pub enum Operation {
    Apply,
    Unset,
}

impl Operation {
    /// `true` for [`Operation::Apply`].
    pub fn as_bool(&self) -> (r: bool)
        ensures
            r == (*self == Operation::Apply),
    {
        match self {
            Operation::Apply => true,
            Operation::Unset => false,
        }
    }
}

/// The place of a file in the inheritance chain; later places take precedence.
#[derive(Clone, Copy, Debug)]
pub enum Precedence {
    /// The profile at the given depth of the profile tree.
    Profile(usize),
    Repository,
    User,
}

/// The rank of a precedence: the depth of a profile, 65536 for repositories and the
/// largest `usize` for the user's configuration.
pub open spec fn prec_ordinal(p: Precedence) -> int {
    match p {
        Precedence::Profile(n) => n as int,
        Precedence::Repository => 65536,
        Precedence::User => usize::MAX as int,
    }
}

impl Precedence {
    /// Returns the rank of this precedence.
    pub fn ordinal(&self) -> (r: usize)
        ensures
            r == prec_ordinal(*self),
    {
        match self {
            Precedence::Profile(n) => *n,
            Precedence::Repository => 65536,
            Precedence::User => usize::MAX,
        }
    }

    /// Returns `true` if this precedence ranks above `other`.
    pub fn is_above(&self, other: &Precedence) -> (r: bool)
        ensures
            r == (prec_ordinal(*self) > prec_ordinal(*other)),
    {
        self.ordinal() > other.ordinal()
    }
}

impl PartialEq for Precedence {
    fn eq(&self, other: &Self) -> (r: bool) {
        self.ordinal() == other.ordinal()
    }
}

impl vstd::std_specs::cmp::PartialEqSpecImpl for Precedence {
    open spec fn obeys_eq_spec() -> bool {
        true
    }

    open spec fn eq_spec(&self, other: &Self) -> bool {
        prec_ordinal(*self) == prec_ordinal(*other)
    }
}

/// The operation of a written entry and the text of its value: a leading `-` unsets.
pub open spec fn entry_parts(s: Seq<char>) -> (Operation, Seq<char>) {
    if s.len() > 0 && s[0] == '-' {
        (Operation::Unset, s.skip(1))
    } else {
        (Operation::Apply, s)
    }
}

/// A value of a line-based file with its operation and precedence.
#[derive(Debug)]
pub struct Entry<T: FileEntry> {
    pub prec: Precedence,
    pub op: Operation,
    inner: T,
}

impl<T: FileEntry> View for Entry<T> {
    type V = (Precedence, Operation, T::V);

    closed spec fn view(&self) -> (Precedence, Operation, T::V) {
        (self.prec, self.op, self.inner@)
    }
}

impl<T: FileEntry> Entry<T> {
    /// Reads an entry written as `value` (a leading `-` unsets) with precedence `prec`.
    pub fn from_str(value: &str, prec: Precedence) -> (r: Result<Self, Error>)
        ensures
            r is Ok <==> T::accepts_entry(entry_parts(value@).1),
            r matches Ok(e) ==> e@.0 == prec && e@.1 == entry_parts(value@).0 && T::reads_as(
                entry_parts(value@).1,
                e@.2,
            ),
    {
        let v = chars_of(value);
        if v.len() > 0 && v[0] == '-' {
            let rest = crate::text::string_from(&v, 1, v.len());
            assert(rest@ =~= value@.skip(1));
            match T::parse_entry(rest.as_str()) {
                Ok(inner) => Ok(Entry { prec, op: Operation::Unset, inner }),
                Err(e) => Err(e),
            }
        } else {
            match T::parse_entry(value) {
                Ok(inner) => Ok(Entry { prec, op: Operation::Apply, inner }),
                Err(e) => Err(e),
            }
        }
    }

    /// Builds an entry from its parts.
    pub fn from_parts(prec: Precedence, op: Operation, inner: T) -> (r: Self)
        ensures
            r@ == (prec, op, inner@),
    {
        Entry { prec, op, inner }
    }

    /// Returns the operation.
    pub fn operation(&self) -> (r: Operation)
        ensures
            r == self@.1,
    {
        self.op
    }

    /// Returns the precedence.
    pub fn precedence(&self) -> (r: Precedence)
        ensures
            r == self@.0,
    {
        self.prec
    }

    /// Returns the value.
    pub fn inner(&self) -> (r: &T)
        ensures
            r@ == self@.2,
    {
        &self.inner
    }

    /// Returns the value, consuming the entry.
    pub fn into_inner(self) -> (r: T)
        ensures
            r@ == self@.2,
    {
        self.inner
    }

    /// Returns the key of the value.
    pub fn key(&self) -> (r: String)
        ensures
            r@ == T::key(self@.2),
    {
        self.inner.entry_key()
    }

    /// Returns a copy of this entry.
    pub fn copy(&self) -> (r: Self)
        ensures
            r@ == self@,
    {
        Entry { prec: self.prec, op: self.op, inner: self.inner.copy_entry() }
    }
}

/// A package of the system set: an atom written with a leading `*`.
#[derive(Debug)]
pub struct SysAtom {
    atom: Atom,
}

impl View for SysAtom {
    type V = AtomView;

    closed spec fn view(&self) -> AtomView {
        self.atom@
    }
}

impl SysAtom {
    /// Reads a system package such as `*sys-libs/glibc`.
    pub fn from_str(value: &str) -> (r: Result<Self, Error>)
        ensures
            r is Ok <==> value@.len() > 0 && value@[0] == '*' && is_atom_text(value@.skip(1)),
            r matches Ok(a) ==> seq!['*'] + atom_text(a@) == value@,
            (value@.len() == 0 || value@[0] != '*') ==> (r matches Err(e) && e.text() == subject_message(
                "invalid system package syntax"@,
                value@,
            )),
    {
        let v = chars_of(value);
        if v.len() == 0 || v[0] != '*' {
            return Err(Error::with_subject("invalid system package syntax", value));
        }
        let rest = crate::text::string_from(&v, 1, v.len());
        assert(rest@ =~= value@.skip(1));
        match Atom::new(rest.as_str()) {
            Ok(atom) => {
                assert(value@ =~= seq!['*'] + value@.skip(1));
                Ok(SysAtom { atom })
            },
            Err(e) => Err(e),
        }
    }

    /// Returns the atom.
    pub fn atom(&self) -> (r: &Atom)
        ensures
            r@ == self@,
    {
        &self.atom
    }
}

impl FileEntry for SysAtom {
    open spec fn accepts_entry(s: Seq<char>) -> bool {
        s.len() > 0 && s[0] == '*' && is_atom_text(s.skip(1))
    }

    open spec fn reads_as(s: Seq<char>, v: AtomView) -> bool {
        seq!['*'] + atom_text(v) == s
    }

    open spec fn key(v: AtomView) -> Seq<char> {
        atom_key(v)
    }

    fn parse_entry(value: &str) -> (r: Result<Self, Error>) {
        SysAtom::from_str(value)
    }

    fn entry_key(&self) -> (r: String) {
        self.atom.key_string()
    }

    fn copy_entry(&self) -> (r: Self) {
        SysAtom { atom: self.atom.copy() }
    }
}

} // verus!
