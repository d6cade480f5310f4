//! The ebuild functions that the ebuild process may ask for, and calls of them.
use super::{ProtocolError, ProtocolErrorView};
use crate::text::{append_str, join_words, push_char};
use vstd::prelude::*;

verus! {

/// Name of the ebuild function with the given code, in the order of [`FuncType`].
pub open spec fn func_name(code: u8) -> Seq<char> {
    if code == 0 {
        "__resolve_eclass"@
    } else if code == 1 {
        "debug-print"@
    } else if code == 2 {
        "die"@
    } else if code == 3 {
        "has"@
    } else if code == 4 {
        "hasv"@
    } else if code == 5 {
        "hasq"@
    } else if code == 6 {
        "ver_cut"@
    } else if code == 7 {
        "ver_rs"@
    } else {
        "ver_test"@
    }
}

/// The code of the ebuild function named `name`, if there is one.
pub open spec fn func_code_of(name: Seq<char>) -> Option<u8> {
    if exists|c: u8| c <= 8 && func_name(c) == name {
        Some(choose|c: u8| c <= 8 && func_name(c) == name)
    } else {
        None
    }
}

/// The ebuild functions that can be called from the ebuild process.
#[derive(Debug, Clone, Copy, PartialEq, Eq, Structural)]
pub enum FuncType {
    ResolveEclass,
    DebugPrint,
    Die,
    Has,
    HasV,
    HasQ,
    VerCut,
    VerRs,
    VerTest,
}

impl View for FuncType {
    type V = u8;

    open spec fn view(&self) -> u8 {
        match self {
            FuncType::ResolveEclass => 0,
            FuncType::DebugPrint => 1,
            FuncType::Die => 2,
            FuncType::Has => 3,
            FuncType::HasV => 4,
            FuncType::HasQ => 5,
            FuncType::VerCut => 6,
            FuncType::VerRs => 7,
            FuncType::VerTest => 8,
        }
    }
}

/// The names of distinct functions differ.
proof fn lemma_func_names_distinct()
    ensures
        forall|a: u8, b: u8| a <= 8 && b <= 8 && func_name(a) == func_name(b) ==> a == b,
{
    reveal_strlit("__resolve_eclass");
    reveal_strlit("debug-print");
    reveal_strlit("die");
    reveal_strlit("has");
    reveal_strlit("hasv");
    reveal_strlit("hasq");
    reveal_strlit("ver_cut");
    reveal_strlit("ver_rs");
    reveal_strlit("ver_test");
    assert forall|a: u8, b: u8| a <= 8 && b <= 8 && func_name(a) == func_name(b) implies a == b by {
        if a != b {
            let x = func_name(a);
            let y = func_name(b);
            assert(x.len() != y.len() || exists|i: int| 0 <= i < x.len() && x[i] != y[i]) by {
                if x.len() == y.len() {
                    if x.len() == 3 {
                        assert(x[2] != y[2] || x[0] != y[0]);
                    } else if x.len() == 4 {
                        assert(x[3] != y[3]);
                    } else if x.len() == 6 {
                        assert(x[4] != y[4]);
                    } else if x.len() == 7 {
                        assert(x[4] != y[4]);
                    }
                }
            }
        }
    }
}

impl FuncType {
    /// Resolves the function named `value`.
    pub fn from_name(value: &str) -> (r: Option<Self>)
        ensures
            r matches Some(f) ==> f@ <= 8 && func_name(f@) == value@,
            r is None ==> forall|c: u8| c <= 8 ==> func_name(c) != value@,
            func_code_of(value@) == match r {
                Some(f) => Some(f@),
                None => None::<u8>,
            },
    {
        proof {
            lemma_func_names_distinct();
        }
        let r = if crate::text::str_eq(value, "__resolve_eclass") {
            Some(FuncType::ResolveEclass)
        } else if crate::text::str_eq(value, "debug-print") {
            Some(FuncType::DebugPrint)
        } else if crate::text::str_eq(value, "die") {
            Some(FuncType::Die)
        } else if crate::text::str_eq(value, "has") {
            Some(FuncType::Has)
        } else if crate::text::str_eq(value, "hasv") {
            Some(FuncType::HasV)
        } else if crate::text::str_eq(value, "hasq") {
            Some(FuncType::HasQ)
        } else if crate::text::str_eq(value, "ver_cut") {
            Some(FuncType::VerCut)
        } else if crate::text::str_eq(value, "ver_rs") {
            Some(FuncType::VerRs)
        } else if crate::text::str_eq(value, "ver_test") {
            Some(FuncType::VerTest)
        } else {
            None
        };
        proof {
            match r {
                Some(f) => {
                    assert(func_name(f@) == value@);
                },
                None => {
                    assert forall|c: u8| c <= 8 implies func_name(c) != value@ by {
                        if c == 0 {} else if c == 1 {} else if c == 2 {} else if c == 3 {} else if c == 4 {} else if c == 5 {} else if c == 6 {} else if c == 7 {} else {}
                    }
                },
            }
        }
        r
    }

    /// Returns the name of this function.
    pub fn name(&self) -> (r: &'static str)
        ensures
            r@ == func_name(self@),
    {
        match self {
            FuncType::ResolveEclass => "__resolve_eclass",
            FuncType::DebugPrint => "debug-print",
            FuncType::Die => "die",
            FuncType::Has => "has",
            FuncType::HasV => "hasv",
            FuncType::HasQ => "hasq",
            FuncType::VerCut => "ver_cut",
            FuncType::VerRs => "ver_rs",
            FuncType::VerTest => "ver_test",
        }
    }

    /// Returns the name of this function as an owned string.
    pub fn to_string(&self) -> (r: String)
        ensures
            r@ == func_name(self@),
    {
        self.name().to_owned()
    }
}

/// A call of an ebuild function with its arguments.
#[derive(Debug, Clone, PartialEq, Eq)]
pub struct FuncCall {
    pub func: FuncType,
    pub args: Vec<String>,
}

/// The texts of a list of strings.
pub open spec fn string_views(v: Seq<String>) -> Seq<Seq<char>> {
    v.map_values(|s: String| s@)
}

impl FuncCall {
    /// Creates a call of the function named `func` with the arguments `args`.
    pub fn from_raw(func: &str, args: &[&str]) -> (r: Result<Self, ProtocolError>)
        ensures
            r is Ok <==> func_code_of(func@) is Some,
            r matches Ok(c) ==> Some(c.func@) == func_code_of(func@) && string_views(c.args@)
                == args@.map_values(|a: &str| a@),
            r matches Err(e) ==> e@ == ProtocolErrorView::UnknownFunction(func@),
    {
        let f = match FuncType::from_name(func) {
            Some(f) => f,
            None => {
                return Err(ProtocolError::UnknownFunction { func: func.to_owned() });
            },
        };
        let mut out: Vec<String> = Vec::new();
        let mut i: usize = 0;
        while i < args.len()
            invariant
                0 <= i <= args@.len(),
                string_views(out@) == args@.subrange(0, i as int).map_values(|a: &str| a@),
            decreases args.len() - i,
        {
            let ghost before = out@;
            out.push(args[i].to_owned());
            proof {
                assert(out@ == before.push(out@.last()));
                assert(string_views(out@) =~= string_views(before).push(args@[i as int]@));
                assert(args@.subrange(0, i + 1).map_values(|a: &str| a@) =~= args@.subrange(0, i as int).map_values(|a: &str| a@).push(args@[i as int]@));
            }
            i += 1;
        }
        assert(args@.subrange(0, i as int) == args@);
        Ok(FuncCall { func: f, args: out })
    }

    /// Returns the function name and the arguments separated by spaces.
    pub fn to_string(&self) -> (r: String)
        ensures
            r@ == func_name(self.func@) + seq![' '] + join_words(string_views(self.args@)),
    {
        let mut s = self.func.to_string();
        push_char(&mut s, ' ');
        let ghost start = s@;
        let mut i: usize = 0;
        while i < self.args.len()
            invariant
                0 <= i <= self.args@.len(),
                s@ == start + join_words(string_views(self.args@.subrange(0, i as int))),
            decreases self.args.len() - i,
        {
            if i > 0 {
                push_char(&mut s, ' ');
            }
            append_str(&mut s, self.args[i].as_str());
            proof {
                let sub = string_views(self.args@.subrange(0, i + 1));
                assert(sub.drop_last() =~= string_views(self.args@.subrange(0, i as int)));
                assert(sub.last() == self.args@[i as int]@);
                assert(s@ =~= start + join_words(sub));
            }
            i += 1;
        }
        assert(self.args@.subrange(0, i as int) == self.args@);
        s
    }
}

} // verus!
