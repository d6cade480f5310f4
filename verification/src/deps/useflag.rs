//! USE flags as they appear in dependency expressions and configuration files.
use crate::error::{Error, subject_message};
use crate::grammar::{NameKind, is_name, is_name_str, lemma_name_nonempty};
use crate::text::{append_str, chars_of, push_char, string_from};
use vstd::prelude::*;

verus! {

/// A USE flag may be prefixed with `+` or `-` to say whether it is enabled or disabled.
#[derive(Debug, Clone, Copy, PartialEq, Eq, Structural)]
pub enum UseFlagPrefix {
    Plain,
    Enable,
    Disable,
}

/// Text of a prefix: ``, `+` or `-`.
pub open spec fn prefix_text(p: UseFlagPrefix) -> Seq<char> {
    match p {
        UseFlagPrefix::Plain => Seq::empty(),
        UseFlagPrefix::Enable => seq!['+'],
        UseFlagPrefix::Disable => seq!['-'],
    }
}

impl Default for UseFlagPrefix {
    /// No prefix.
    fn default() -> (r: Self)
        ensures
            r == UseFlagPrefix::Plain,
    {
        UseFlagPrefix::Plain
    }
}

impl UseFlagPrefix {
    /// Returns the text of this prefix.
    pub fn to_string(&self) -> (r: String)
        ensures
            r@ == prefix_text(*self),
    {
        let mut s = String::new();
        match self {
            UseFlagPrefix::Plain => {},
            UseFlagPrefix::Enable => push_char(&mut s, '+'),
            UseFlagPrefix::Disable => push_char(&mut s, '-'),
        }
        s
    }
}

/// A USE flag name; the only rule enforced is that it is not empty.
#[derive(Debug, Clone)]
pub struct UseFlag {
    name: String,
}

impl View for UseFlag {
    type V = Seq<char>;

    closed spec fn view(&self) -> Seq<char> {
        self.name@
    }
}

impl UseFlag {
    /// Creates a USE flag from `flag`, failing where it is empty.
    pub fn new(flag: String) -> (r: Result<Self, Error>)
        ensures
            r is Ok <==> flag@.len() > 0,
            r matches Ok(u) ==> u@ == flag@,
            r matches Err(e) ==> e.text() == "use flag cannot be empty"@,
    {
        if flag.as_str().is_empty() {
            return Err(Error::new("use flag cannot be empty"));
        }
        Ok(UseFlag { name: flag })
    }

    /// Parses a USE flag from `s`.
    pub fn parse(s: &str) -> (r: Result<Self, Error>)
        ensures
            r is Ok <==> s@.len() > 0,
            r matches Ok(u) ==> u@ == s@,
            r matches Err(e) ==> e.text() == "use flag cannot be empty"@,
    {
        Self::new(s.to_owned())
    }

    /// Reads a USE flag from `v[from..to]`.
    pub fn from_range(v: &Vec<char>, from: usize, to: usize) -> (r: Result<Self, Error>)
        requires
            from <= to <= v.len(),
        ensures
            r is Ok <==> from < to,
            r matches Ok(u) ==> u@ == v@.subrange(from as int, to as int),
            r matches Err(e) ==> e.text() == "use flag cannot be empty"@,
    {
        Self::new(string_from(v, from, to))
    }

    /// Returns the name of this flag.
    pub fn as_str(&self) -> (r: &str)
        ensures
            r@ == self@,
    {
        self.name.as_str()
    }

    /// Returns the name of this flag as an owned string.
    pub fn to_string(&self) -> (r: String)
        ensures
            r@ == self@,
    {
        self.name.clone()
    }

    /// Returns a copy of this flag.
    pub fn copy(&self) -> (r: Self)
        ensures
            r@ == self@,
    {
        UseFlag { name: self.name.clone() }
    }
}

impl PartialEq for UseFlag {
    fn eq(&self, other: &Self) -> (r: bool) {
        self.name == other.name
    }
}

impl vstd::std_specs::cmp::PartialEqSpecImpl for UseFlag {
    open spec fn obeys_eq_spec() -> bool {
        true
    }

    open spec fn eq_spec(&self, other: &Self) -> bool {
        self@ == other@
    }
}

/// A USE flag with an optional `+` or `-` prefix.
#[derive(Debug, Clone)]
pub struct PrefixedUseFlag {
    prefix: UseFlagPrefix,
    flag: UseFlag,
}

impl View for PrefixedUseFlag {
    type V = (UseFlagPrefix, Seq<char>);

    closed spec fn view(&self) -> (UseFlagPrefix, Seq<char>) {
        (self.prefix, self.flag@)
    }
}

/// The prefix that `s` starts with.
pub open spec fn leading_prefix(s: Seq<char>) -> UseFlagPrefix {
    if s.len() > 0 && s[0] == '+' {
        UseFlagPrefix::Enable
    } else if s.len() > 0 && s[0] == '-' {
        UseFlagPrefix::Disable
    } else {
        UseFlagPrefix::Plain
    }
}

impl PrefixedUseFlag {
    /// Parses a prefixed flag such as `+foo`, `-foo` or `foo`.
    pub fn new(flag: &str) -> (r: Result<Self, Error>)
        ensures
            r is Ok <==> flag@.len() > prefix_text(leading_prefix(flag@)).len(),
            r matches Ok(p) ==> p@.0 == leading_prefix(flag@) && prefix_text(p@.0) + p@.1
                == flag@,
            r matches Err(e) ==> e.text() == "use flag cannot be empty"@,
    {
        let v = chars_of(flag);
        let (prefix, start): (UseFlagPrefix, usize) = if v.len() > 0 && v[0] == '+' {
            (UseFlagPrefix::Enable, 1)
        } else if v.len() > 0 && v[0] == '-' {
            (UseFlagPrefix::Disable, 1)
        } else {
            (UseFlagPrefix::Plain, 0)
        };
        let name = match UseFlag::from_range(&v, start, v.len()) {
            Ok(u) => u,
            Err(e) => {
                return Err(e);
            },
        };
        assert(prefix_text(prefix) + v@.subrange(start as int, v@.len() as int) =~= v@);
        Ok(Self::from_parts(prefix, name))
    }

    /// Combines a prefix and a flag.
    pub fn from_parts(prefix: UseFlagPrefix, flag: UseFlag) -> (r: Self)
        ensures
            r@ == (prefix, flag@),
    {
        PrefixedUseFlag { prefix, flag }
    }

    /// Returns the prefix.
    pub fn prefix(&self) -> (r: UseFlagPrefix)
        ensures
            r == self@.0,
    {
        self.prefix
    }

    /// Returns the flag without its prefix.
    pub fn inner(&self) -> (r: &UseFlag)
        ensures
            r@ == self@.1,
    {
        &self.flag
    }

    /// Returns the prefix followed by the flag.
    pub fn to_string(&self) -> (r: String)
        ensures
            r@ == prefix_text(self@.0) + self@.1,
    {
        let mut s = self.prefix.to_string();
        append_str(&mut s, self.flag.as_str());
        s
    }
}

/// The flag name of an IUSE entry: the text after its optional `+` or `-`.
pub open spec fn iuse_name(s: Seq<char>) -> Seq<char> {
    s.skip(prefix_text(leading_prefix(s)).len() as int)
}

/// An IUSE entry: a USE flag name (PMS 3.1.4) with an optional `+` or `-` default.
#[derive(Debug, Clone)]
pub struct IUseEntry {
    entry: PrefixedUseFlag,
}

impl View for IUseEntry {
    type V = (UseFlagPrefix, Seq<char>);

    closed spec fn view(&self) -> (UseFlagPrefix, Seq<char>) {
        self.entry@
    }
}

impl IUseEntry {
    /// Parses an IUSE entry such as `foo`, `+foo` or `-foo`.
    pub fn from_str(entry: &str) -> (r: Result<Self, Error>)
        ensures
            r is Ok <==> is_name(NameKind::UseFlag, iuse_name(entry@)),
            r matches Ok(x) ==> x@ == (leading_prefix(entry@), iuse_name(entry@)),
            r matches Err(e) ==> e.text() == subject_message("invalid IUSE entry"@, entry@),
    {
        let parsed = match PrefixedUseFlag::new(entry) {
            Ok(p) => p,
            Err(_) => {
                assert(iuse_name(entry@).len() == 0);
                proof {
                    lemma_name_nonempty(NameKind::UseFlag, iuse_name(entry@));
                }
                return Err(Error::with_subject("invalid IUSE entry", entry));
            },
        };
        assert(parsed@.1 =~= iuse_name(entry@));
        if !is_name_str(NameKind::UseFlag, parsed.inner().as_str()) {
            return Err(Error::with_subject("invalid IUSE entry", entry));
        }
        Ok(IUseEntry { entry: parsed })
    }

    /// Returns the flag.
    pub fn flag(&self) -> (r: &UseFlag)
        ensures
            r@ == self@.1,
    {
        self.entry.inner()
    }

    /// Returns the default: `+` enabled, `-` disabled, none unset.
    pub fn default(&self) -> (r: UseFlagPrefix)
        ensures
            r == self@.0,
    {
        self.entry.prefix()
    }

    /// Returns the entry as written: the default followed by the flag.
    pub fn to_string(&self) -> (r: String)
        ensures
            r@ == prefix_text(self@.0) + self@.1,
    {
        self.entry.to_string()
    }
}

} // verus!
