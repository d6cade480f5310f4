//! Names of make variables (PMS 5.2.4).
use crate::error::{Error, subject_message};
use crate::text::{chars_of, is_alnum, is_alnum_char, is_alpha, is_alpha_char};
use vstd::prelude::*;

verus! {

/// A make variable name: an ASCII letter, then ASCII letters, digits and `_`.
pub open spec fn is_env_name(s: Seq<char>) -> bool {
    &&& s.len() > 0
    &&& is_alpha(s[0])
    &&& forall|i: int| 1 <= i < s.len() ==> is_alnum(#[trigger] s[i]) || s[i] == '_'
}

/// Returns `true` if `name` is a valid make variable name.
pub fn is_env_name_exec(name: &str) -> (r: bool)
    ensures
        r == is_env_name(name@),
{
    let v = chars_of(name);
    if v.len() == 0 || !is_alpha_char(v[0]) {
        return false;
    }
    let mut i: usize = 1;
    while i < v.len()
        invariant
            1 <= i <= v@.len(),
            v@ == name@,
            forall|j: int| 1 <= j < i ==> is_alnum(#[trigger] v@[j]) || v@[j] == '_',
        decreases v.len() - i,
    {
        if !(is_alnum_char(v[i]) || v[i] == '_') {
            return false;
        }
        i += 1;
    }
    true
}

/// A validated make variable name, e.g. `USE`.
#[derive(Debug, Clone)]
pub struct EnvVarName {
    name: String,
}

impl View for EnvVarName {
    type V = Seq<char>;

    closed spec fn view(&self) -> Seq<char> {
        self.name@
    }
}

impl EnvVarName {
    /// Creates a name from `name`, failing where it is not a valid make variable name.
    pub fn new(name: &str) -> (r: Result<Self, Error>)
        ensures
            r is Ok <==> is_env_name(name@),
            r matches Ok(n) ==> n@ == name@,
            r matches Err(e) ==> e.text() == subject_message("invalid make variable name"@, name@),
    {
        if is_env_name_exec(name) {
            Ok(EnvVarName { name: name.to_owned() })
        } else {
            Err(Error::with_subject("invalid make variable name", name))
        }
    }

    /// Returns the name.
    pub fn as_str(&self) -> (r: &str)
        ensures
            r@ == self@,
    {
        self.name.as_str()
    }

    /// Returns a copy of this name.
    pub fn copy(&self) -> (r: Self)
        ensures
            r@ == self@,
    {
        EnvVarName { name: self.name.clone() }
    }
}

impl PartialEq for EnvVarName {
    fn eq(&self, other: &Self) -> (r: bool) {
        self.name == other.name
    }
}

impl vstd::std_specs::cmp::PartialEqSpecImpl for EnvVarName {
    open spec fn obeys_eq_spec() -> bool {
        true
    }

    open spec fn eq_spec(&self, other: &Self) -> bool {
        self@ == other@
    }
}

} // verus!
