//! EAPI versions (PMS 2) and the features that depend on them.
use crate::text::str_eq;
use vstd::prelude::*;

verus! {

/// The EAPI named by `s`, as its number.
pub open spec fn eapi_number(s: Seq<char>) -> Option<u8> {
    if s.len() == 1 && '0' <= s[0] && s[0] <= '8' {
        Some(((s[0] as u32) - ('0' as u32)) as u8)
    } else {
        None
    }
}

/// The EAPI with number `n`, for `n` up to 8.
pub open spec fn eapi_of(n: u8) -> Eapi {
    if n == 0 {
        Eapi::Zero
    } else if n == 1 {
        Eapi::One
    } else if n == 2 {
        Eapi::Two
    } else if n == 3 {
        Eapi::Three
    } else if n == 4 {
        Eapi::Four
    } else if n == 5 {
        Eapi::Five
    } else if n == 6 {
        Eapi::Six
    } else if n == 7 {
        Eapi::Seven
    } else {
        Eapi::Eight
    }
}

/// The bash version an EAPI requires.
pub open spec fn bash_version_of(e: Eapi) -> Seq<char> {
    if e@ >= 8 {
        "5.0"@
    } else if e@ >= 6 {
        "4.2"@
    } else {
        "3.2"@
    }
}

/// The text of an EAPI: its number.
pub open spec fn eapi_text(e: Eapi) -> Seq<char> {
    seq![(('0' as u32) + (e@ as u32)) as char]
}

/// An EAPI version.
#[derive(Debug, Clone, Copy, PartialEq, Eq, Structural)]
pub enum Eapi {
    Zero,
    One,
    Two,
    Three,
    Four,
    Five,
    Six,
    Seven,
    Eight,
}

impl View for Eapi {
    type V = u8;

    open spec fn view(&self) -> u8 {
        match self {
            Eapi::Zero => 0,
            Eapi::One => 1,
            Eapi::Two => 2,
            Eapi::Three => 3,
            Eapi::Four => 4,
            Eapi::Five => 5,
            Eapi::Six => 6,
            Eapi::Seven => 7,
            Eapi::Eight => 8,
        }
    }
}

/// Errors of reading an EAPI.
#[derive(Debug, Clone)]
pub enum EapiError {
    /// The value names no known EAPI.
    Unrecognized(String),
}

impl EapiError {
    /// Returns the description of this error.
    pub fn to_string(&self) -> (r: String)
        ensures
            match self {
                EapiError::Unrecognized(v) => r@ == "unrecognized EAPI '"@ + v@ + "'"@,
            },
    {
        match self {
            EapiError::Unrecognized(v) => {
                let mut s = "unrecognized EAPI '".to_owned();
                crate::text::append_str(&mut s, v.as_str());
                crate::text::append_str(&mut s, "'");
                s
            },
        }
    }
}

impl Eapi {
    /// Reads the EAPI `value`, e.g. `8`.
    pub fn new(value: &str) -> (r: Result<Self, EapiError>)
        ensures
            match eapi_number(value@) {
                Some(n) => r matches Ok(e) && e@ == n,
                None => r matches Err(EapiError::Unrecognized(v)) && v@ == value@,
            },
    {
        proof {
            reveal_strlit("0");
            reveal_strlit("1");
            reveal_strlit("2");
            reveal_strlit("3");
            reveal_strlit("4");
            reveal_strlit("5");
            reveal_strlit("6");
            reveal_strlit("7");
            reveal_strlit("8");
        }
        if str_eq(value, "0") {
            Ok(Eapi::Zero)
        } else if str_eq(value, "1") {
            Ok(Eapi::One)
        } else if str_eq(value, "2") {
            Ok(Eapi::Two)
        } else if str_eq(value, "3") {
            Ok(Eapi::Three)
        } else if str_eq(value, "4") {
            Ok(Eapi::Four)
        } else if str_eq(value, "5") {
            Ok(Eapi::Five)
        } else if str_eq(value, "6") {
            Ok(Eapi::Six)
        } else if str_eq(value, "7") {
            Ok(Eapi::Seven)
        } else if str_eq(value, "8") {
            Ok(Eapi::Eight)
        } else {
            proof {
                if value@.len() == 1 && '0' <= value@[0] && value@[0] <= '8' {
                    let c = value@[0];
                    if c == '0' { assert(value@ =~= "0"@); } else if c == '1' { assert(value@ =~= "1"@); } else if c == '2' { assert(value@ =~= "2"@); } else if c == '3' { assert(value@ =~= "3"@); } else if c == '4' { assert(value@ =~= "4"@); } else if c == '5' { assert(value@ =~= "5"@); } else if c == '6' { assert(value@ =~= "6"@); } else if c == '7' { assert(value@ =~= "7"@); } else { assert(value@ =~= "8"@); }
                }
            }
            Err(EapiError::Unrecognized(value.to_owned()))
        }
    }

    /// Returns the number of this EAPI as text.
    pub fn as_str(&self) -> (r: &'static str)
        ensures
            r@ == eapi_text(*self),
    {
        proof {
            reveal_strlit("0");
            reveal_strlit("1");
            reveal_strlit("2");
            reveal_strlit("3");
            reveal_strlit("4");
            reveal_strlit("5");
            reveal_strlit("6");
            reveal_strlit("7");
            reveal_strlit("8");
        }
        match self {
            Eapi::Zero => "0",
            Eapi::One => "1",
            Eapi::Two => "2",
            Eapi::Three => "3",
            Eapi::Four => "4",
            Eapi::Five => "5",
            Eapi::Six => "6",
            Eapi::Seven => "7",
            Eapi::Eight => "8",
        }
    }

    /// Returns the bash version the EAPI requires (PMS 6.1): 3.2 up to EAPI 5, 4.2 for
    /// EAPIs 6 and 7, 5.0 from EAPI 8 on.
    pub fn supported_bash_version(&self) -> (r: &'static str)
        ensures
            r@ == bash_version_of(*self),
    {
        match self {
            Eapi::Six | Eapi::Seven => "4.2",
            Eapi::Eight => "5.0",
            _ => "3.2",
        }
    }

    /// Only EAPIs 7 and 8 are supported for ebuilds.
    pub fn is_supported_for_ebuilds(&self) -> (r: bool)
        ensures
            r == (self@ == 7 || self@ == 8),
    {
        match self {
            Eapi::Seven | Eapi::Eight => true,
            _ => false,
        }
    }

    /// `BDEPEND` exists from EAPI 7 on.
    pub fn supports_bdepend(&self) -> (r: bool)
        ensures
            r == (self@ >= 7),
    {
        match self {
            Eapi::Seven | Eapi::Eight => true,
            _ => false,
        }
    }

    /// `IDEPEND` exists from EAPI 8 on.
    pub fn supports_idepend(&self) -> (r: bool)
        ensures
            r == (self@ >= 8),
    {
        match self {
            Eapi::Eight => true,
            _ => false,
        }
    }

    /// `hasv` was removed in EAPI 8.
    pub fn supports_hasv(&self) -> (r: bool)
        ensures
            r == (self@ < 8),
    {
        match self {
            Eapi::Eight => false,
            _ => true,
        }
    }

    /// `hasq` was removed in EAPI 8.
    pub fn supports_hasq(&self) -> (r: bool)
        ensures
            r == (self@ < 8),
    {
        match self {
            Eapi::Eight => false,
            _ => true,
        }
    }
}

} // verus!
