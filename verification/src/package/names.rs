//! Validated category and package names (PMS 3.1.1 and 3.1.2).
use crate::error::{Error, subject_message};
use crate::grammar::{NameKind, is_name, is_name_range};
use crate::package::version::{PackageVersion, is_version_text};
use crate::text::{chars_of, string_from};
use vstd::prelude::*;

verus! {

/// PMS 3.1.1: a category name.
pub closed spec fn is_category_name(s: Seq<char>) -> bool {
    is_name(NameKind::Category, s)
}

/// PMS 3.1.2: a package name; no part of it after a hyphen may look like a version.
pub closed spec fn is_package_name(s: Seq<char>) -> bool {
    &&& is_name(NameKind::Package, s)
    &&& forall|k: int| 0 <= k < s.len() && s[k] == '-' ==> !is_version_text(#[trigger] s.skip(k + 1))
}

/// What a category name is: a name of the category kind.
pub proof fn lemma_category_name_def(s: Seq<char>)
    ensures
        is_category_name(s) <==> is_name(NameKind::Category, s),
{
}

/// What a package name is: a name of the package kind where nothing after a hyphen is a
/// version.
pub proof fn lemma_package_name_def(s: Seq<char>)
    ensures
        is_package_name(s) <==> (is_name(NameKind::Package, s) && forall|k: int|
            0 <= k < s.len() && s[k] == '-' ==> !is_version_text(#[trigger] s.skip(k + 1))),
{
}

/// Returns `true` if `v[from..to]` is a valid package name.
pub fn is_package_name_range(v: &Vec<char>, from: usize, to: usize) -> (r: bool)
    requires
        from <= to <= v.len(),
    ensures
        r == is_package_name(v@.subrange(from as int, to as int)),
{
    let ghost s = v@.subrange(from as int, to as int);
    if !is_name_range(NameKind::Package, v, from, to) {
        return false;
    }
    let mut k = from;
    while k < to
        invariant
            from <= k <= to <= v.len(),
            s == v@.subrange(from as int, to as int),
            forall|j: int| 0 <= j < k - from && s[j] == '-' ==> !is_version_text(#[trigger] s.skip(j + 1)),
        decreases to - k,
    {
        assert(s[k - from] == v@[k as int]);
        assert(s.skip(k - from + 1) == v@.subrange(k + 1, to as int));
        if v[k] == '-' && PackageVersion::parse(v, k + 1, to).is_some() {
            return false;
        }
        k += 1;
    }
    true
}

/// A validated category name, e.g. `dev-lang`.
#[derive(Debug, Clone)]
pub struct CatName {
    name: String,
}

impl View for CatName {
    type V = Seq<char>;

    closed spec fn view(&self) -> Seq<char> {
        self.name@
    }
}

impl CatName {
    /// Creates a category name from `category`, failing where it is not valid.
    pub fn new(category: &str) -> (r: Result<Self, Error>)
        ensures
            r is Ok <==> is_category_name(category@),
            r matches Ok(c) ==> c@ == category@,
            r matches Err(e) ==> e.text() == subject_message("invalid category name"@, category@),
    {
        let v = chars_of(category);
        assert(v@.subrange(0, v@.len() as int) == v@);
        if is_name_range(NameKind::Category, &v, 0, v.len()) {
            Ok(CatName { name: category.to_owned() })
        } else {
            Err(Error::with_subject("invalid category name", category))
        }
    }

    /// Reads a category name from `v[from..to]`.
    pub fn from_range(v: &Vec<char>, from: usize, to: usize) -> (r: Option<Self>)
        requires
            from <= to <= v.len(),
        ensures
            r is Some <==> is_category_name(v@.subrange(from as int, to as int)),
            r matches Some(c) ==> c@ == v@.subrange(from as int, to as int),
    {
        if is_name_range(NameKind::Category, v, from, to) {
            Some(CatName { name: string_from(v, from, to) })
        } else {
            None
        }
    }

    /// Returns the name.
    pub fn as_str(&self) -> (r: &str)
        ensures
            r@ == self@,
    {
        self.name.as_str()
    }

    /// Returns the name as an owned string.
    pub fn to_string(&self) -> (r: String)
        ensures
            r@ == self@,
    {
        self.name.clone()
    }
}

impl CatName {
    /// Returns a copy of this name.
    pub fn copy(&self) -> (r: Self)
        ensures
            r@ == self@,
    {
        CatName { name: self.name.clone() }
    }
}

impl PartialEq for CatName {
    fn eq(&self, other: &Self) -> (r: bool) {
        self.name == other.name
    }
}

impl vstd::std_specs::cmp::PartialEqSpecImpl for CatName {
    open spec fn obeys_eq_spec() -> bool {
        true
    }

    open spec fn eq_spec(&self, other: &Self) -> bool {
        self@ == other@
    }
}

/// A validated package name, e.g. `vim`.
#[derive(Debug, Clone)]
pub struct PkgName {
    name: String,
}

impl View for PkgName {
    type V = Seq<char>;

    closed spec fn view(&self) -> Seq<char> {
        self.name@
    }
}

impl PkgName {
    /// Creates a package name from `package`, failing where it is not valid.
    pub fn new(package: &str) -> (r: Result<Self, Error>)
        ensures
            r is Ok <==> is_package_name(package@),
            r matches Ok(c) ==> c@ == package@,
            r matches Err(e) ==> e.text() == subject_message("invalid package name"@, package@),
    {
        let v = chars_of(package);
        assert(v@.subrange(0, v@.len() as int) == v@);
        if is_package_name_range(&v, 0, v.len()) {
            Ok(PkgName { name: package.to_owned() })
        } else {
            Err(Error::with_subject("invalid package name", package))
        }
    }

    /// Reads a package name from `v[from..to]`.
    pub fn from_range(v: &Vec<char>, from: usize, to: usize) -> (r: Option<Self>)
        requires
            from <= to <= v.len(),
        ensures
            r is Some <==> is_package_name(v@.subrange(from as int, to as int)),
            r matches Some(c) ==> c@ == v@.subrange(from as int, to as int),
    {
        if is_package_name_range(v, from, to) {
            Some(PkgName { name: string_from(v, from, to) })
        } else {
            None
        }
    }

    /// Returns the name.
    pub fn as_str(&self) -> (r: &str)
        ensures
            r@ == self@,
    {
        self.name.as_str()
    }

    /// Returns the name as an owned string.
    pub fn to_string(&self) -> (r: String)
        ensures
            r@ == self@,
    {
        self.name.clone()
    }
}

impl PkgName {
    /// Returns a copy of this name.
    pub fn copy(&self) -> (r: Self)
        ensures
            r@ == self@,
    {
        PkgName { name: self.name.clone() }
    }
}

impl PartialEq for PkgName {
    fn eq(&self, other: &Self) -> (r: bool) {
        self.name == other.name
    }
}

impl vstd::std_specs::cmp::PartialEqSpecImpl for PkgName {
    open spec fn obeys_eq_spec() -> bool {
        true
    }

    open spec fn eq_spec(&self, other: &Self) -> bool {
        self@ == other@
    }
}

} // verus!
