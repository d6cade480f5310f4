//! Repositories: their names (PMS 3.1.5), architectures and eclasses.
use crate::error::{Error, subject_message};
use crate::grammar::{NameKind, is_name, is_name_range};
use crate::package::names::{is_package_name, is_package_name_range};
use crate::text::{chars_of, str_eq, string_from, texts};
use vstd::prelude::*;

verus! {

/// PMS 3.1.5: a repository name, which must also be a valid package name.
pub open spec fn is_repo_name(s: Seq<char>) -> bool {
    is_name(NameKind::Repository, s) && is_package_name(s)
}

/// A validated repository name, e.g. `gentoo`.
#[derive(Debug, Clone)]
pub struct RepoName {
    name: String,
}

impl View for RepoName {
    type V = Seq<char>;

    closed spec fn view(&self) -> Seq<char> {
        self.name@
    }
}

impl RepoName {
    /// Creates a repository name from `name`, failing where it is not valid.
    pub fn new(name: &str) -> (r: Result<Self, Error>)
        ensures
            r is Ok <==> is_repo_name(name@),
            r matches Ok(x) ==> x@ == name@,
            r matches Err(e) ==> e.text() == subject_message("invalid repository name"@, name@),
    {
        let v = chars_of(name);
        assert(v@.subrange(0, v@.len() as int) == v@);
        match Self::from_range(&v, 0, v.len()) {
            Some(x) => Ok(x),
            None => Err(Error::with_subject("invalid repository name", name)),
        }
    }

    /// Reads a repository name from `v[from..to]`.
    pub fn from_range(v: &Vec<char>, from: usize, to: usize) -> (r: Option<Self>)
        requires
            from <= to <= v.len(),
        ensures
            r is Some <==> is_repo_name(v@.subrange(from as int, to as int)),
            r matches Some(x) ==> x@ == v@.subrange(from as int, to as int),
    {
        if is_name_range(NameKind::Repository, v, from, to) && is_package_name_range(v, from, to) {
            Some(RepoName { name: string_from(v, from, to) })
        } else {
            None
        }
    }

    /// Returns the name.
    pub fn as_str(&self) -> (r: &str)
        ensures
            r@ == self@,
    {
        self.name.as_str()
    }

    /// Returns a copy of this name.
    pub fn copy(&self) -> (r: Self)
        ensures
            r@ == self@,
    {
        RepoName { name: self.name.clone() }
    }
}

impl PartialEq for RepoName {
    fn eq(&self, other: &Self) -> (r: bool) {
        self.name == other.name
    }
}

impl vstd::std_specs::cmp::PartialEqSpecImpl for RepoName {
    open spec fn obeys_eq_spec() -> bool {
        true
    }

    open spec fn eq_spec(&self, other: &Self) -> bool {
        self@ == other@
    }
}

/// PMS 3.1.7: an architecture (keyword) name.
pub open spec fn is_arch_name(s: Seq<char>) -> bool {
    is_name(NameKind::Keyword, s)
}

/// A validated architecture name, e.g. `amd64`.
#[derive(Debug, Clone)]
pub struct Arch {
    name: String,
}

impl View for Arch {
    type V = Seq<char>;

    closed spec fn view(&self) -> Seq<char> {
        self.name@
    }
}

impl Arch {
    /// Creates an architecture name from `name`, failing where it is not valid.
    pub fn new(name: &str) -> (r: Result<Self, Error>)
        ensures
            r is Ok <==> is_arch_name(name@),
            r matches Ok(x) ==> x@ == name@,
            r matches Err(e) ==> e.text() == subject_message("invalid arch name"@, name@),
    {
        let v = chars_of(name);
        assert(v@.subrange(0, v@.len() as int) == v@);
        match Self::from_range(&v, 0, v.len()) {
            Some(x) => Ok(x),
            None => Err(Error::with_subject("invalid arch name", name)),
        }
    }

    /// Reads an architecture name from `v[from..to]`.
    pub fn from_range(v: &Vec<char>, from: usize, to: usize) -> (r: Option<Self>)
        requires
            from <= to <= v.len(),
        ensures
            r is Some <==> is_arch_name(v@.subrange(from as int, to as int)),
            r matches Some(x) ==> x@ == v@.subrange(from as int, to as int),
    {
        if is_name_range(NameKind::Keyword, v, from, to) {
            Some(Arch { name: string_from(v, from, to) })
        } else {
            None
        }
    }

    /// Returns the name.
    pub fn as_str(&self) -> (r: &str)
        ensures
            r@ == self@,
    {
        self.name.as_str()
    }

    /// Returns a copy of this name.
    pub fn copy(&self) -> (r: Self)
        ensures
            r@ == self@,
    {
        Arch { name: self.name.clone() }
    }
}

impl PartialEq for Arch {
    fn eq(&self, other: &Self) -> (r: bool) {
        self.name == other.name
    }
}

impl vstd::std_specs::cmp::PartialEqSpecImpl for Arch {
    open spec fn obeys_eq_spec() -> bool {
        true
    }

    open spec fn eq_spec(&self, other: &Self) -> bool {
        self@ == other@
    }
}

/// An eclass of a repository: its name and the path of its file.
#[derive(Debug, Clone)]
pub struct Eclass {
    name: String,
    path: String,
}

impl View for Eclass {
    type V = (Seq<char>, Seq<char>);

    closed spec fn view(&self) -> (Seq<char>, Seq<char>) {
        (self.name@, self.path@)
    }
}

impl Eclass {
    /// An eclass called `name` whose file is at `path`.
    pub fn new(name: String, path: String) -> (r: Self)
        ensures
            r@ == (name@, path@),
    {
        Eclass { name, path }
    }

    /// Returns the name.
    pub fn name(&self) -> (r: &str)
        ensures
            r@ == self@.0,
    {
        self.name.as_str()
    }

    /// Returns the path of the eclass file.
    pub fn path(&self) -> (r: &str)
        ensures
            r@ == self@.1,
    {
        self.path.as_str()
    }
}

/// The position of the first eclass called `name`.
pub open spec fn eclass_index(eclasses: Seq<(Seq<char>, Seq<char>)>, name: Seq<char>) -> Option<int>
    decreases eclasses.len(),
{
    if eclasses.len() == 0 {
        None
    } else {
        match eclass_index(eclasses.drop_last(), name) {
            Some(i) => Some(i),
            None => if eclasses.last().0 == name {
                Some(eclasses.len() - 1)
            } else {
                None
            },
        }
    }
}

/// A repository at `location`, with the eclasses it can inherit, those of its masters
/// included, and the locations they are looked up in.
#[derive(Debug)]
pub struct Repository {
    name: RepoName,
    location: String,
    eclasses: Vec<Eclass>,
    eclass_locations: Vec<String>,
}

/// Model of a repository.
pub struct RepositoryView {
    pub name: Seq<char>,
    pub location: Seq<char>,
    pub eclasses: Seq<(Seq<char>, Seq<char>)>,
    pub eclass_locations: Seq<Seq<char>>,
}

impl View for Repository {
    type V = RepositoryView;

    closed spec fn view(&self) -> RepositoryView {
        RepositoryView {
            name: self.name@,
            location: self.location@,
            eclasses: self.eclasses@.map_values(|e: Eclass| e@),
            eclass_locations: texts(self.eclass_locations@),
        }
    }
}

impl Repository {
    /// A repository called `name` at `location`, with its `eclasses` and the locations
    /// they are looked up in: its own and those of its masters.
    pub fn new(name: RepoName, location: String, eclasses: Vec<Eclass>, eclass_locations: Vec<String>) -> (r: Self)
        ensures
            r@.name == name@,
            r@.location == location@,
            r@.eclasses == eclasses@.map_values(|e: Eclass| e@),
            r@.eclass_locations == texts(eclass_locations@),
    {
        Repository { name, location, eclasses, eclass_locations }
    }

    /// Returns the location.
    pub fn location(&self) -> (r: &str)
        ensures
            r@ == self@.location,
    {
        self.location.as_str()
    }

    /// Returns the locations the eclasses are looked up in.
    pub fn eclass_locations(&self) -> (r: &Vec<String>)
        ensures
            texts(r@) == self@.eclass_locations,
    {
        &self.eclass_locations
    }

    /// Returns the name.
    pub fn name(&self) -> (r: &RepoName)
        ensures
            r@ == self@.name,
    {
        &self.name
    }

    /// Returns the eclass called `name`, if the repository has one.
    pub fn eclass(&self, name: &str) -> (r: Option<&Eclass>)
        ensures
            match eclass_index(self@.eclasses, name@) {
                Some(i) => r matches Some(e) && e@ == self@.eclasses[i],
                None => r is None,
            },
    {
        let ghost all = self@.eclasses;
        let mut i: usize = 0;
        while i < self.eclasses.len()
            invariant
                0 <= i <= self.eclasses@.len(),
                all == self.eclasses@.map_values(|e: Eclass| e@),
                eclass_index(all.subrange(0, i as int), name@) is None,
            decreases self.eclasses.len() - i,
        {
            let ghost sub = all.subrange(0, i + 1);
            assert(sub.drop_last() =~= all.subrange(0, i as int));
            if str_eq(self.eclasses[i].name(), name) {
                proof {
                    lemma_eclass_index_prefix(all, name@, i as int + 1);
                }
                return Some(&self.eclasses[i]);
            }
            i += 1;
        }
        assert(all.subrange(0, i as int) =~= all);
        None
    }

    /// Returns the name of the repository.
    pub fn to_string(&self) -> (r: String)
        ensures
            r@ == self@.name,
    {
        self.name.as_str().to_owned()
    }
}

/// A name found in a prefix is found at the same position in the whole list.
proof fn lemma_eclass_index_prefix(all: Seq<(Seq<char>, Seq<char>)>, name: Seq<char>, k: int)
    requires
        0 <= k <= all.len(),
        eclass_index(all.subrange(0, k), name) is Some,
    ensures
        eclass_index(all, name) == eclass_index(all.subrange(0, k), name),
    decreases all.len() - k,
{
    if k < all.len() {
        let sub = all.subrange(0, k + 1);
        assert(sub.drop_last() =~= all.subrange(0, k));
        lemma_eclass_index_prefix(all, name, k + 1);
    } else {
        assert(all.subrange(0, k) =~= all);
    }
}

} // verus!
