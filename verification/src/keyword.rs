//! Keywords of packages (`amd64`, `~arm64`, `-x86`, `-*`) and the selectors that accept them.
use crate::error::{Error, subject_message};
use crate::grammar::{NameKind, lemma_name_def};
use crate::repository::{Arch, is_arch_name};
use crate::text::{append_str, chars_of, push_char};
use vstd::prelude::*;

verus! {

/// Model of a keyword: its kind (0 stable, 1 testing `~`, 2 unsupported `-`, 3 `-*`) and
/// its architecture (empty for `-*`).
pub type KeywordView = (u8, Seq<char>);

/// Text of a keyword.
pub open spec fn keyword_text(k: KeywordView) -> Seq<char> {
    if k.0 == 0 {
        k.1
    } else if k.0 == 1 {
        seq!['~'] + k.1
    } else if k.0 == 2 {
        seq!['-'] + k.1
    } else {
        seq!['-', '*']
    }
}

/// The parts of a keyword text.
pub open spec fn keyword_parts(s: Seq<char>) -> KeywordView {
    if s == seq!['-', '*'] {
        (3, Seq::empty())
    } else if s.len() > 0 && s[0] == '~' {
        (1, s.skip(1))
    } else if s.len() > 0 && s[0] == '-' {
        (2, s.skip(1))
    } else {
        (0, s)
    }
}

/// A valid keyword text: `-*`, or an architecture with an optional `~` or `-`.
pub open spec fn is_keyword_text(s: Seq<char>) -> bool {
    let k = keyword_parts(s);
    k.0 == 3 || is_arch_name(k.1)
}

/// A keyword of a package for an architecture.
#[derive(Debug, Clone)]
pub enum Keyword {
    /// `arch`: stable.
    Stable(Arch),
    /// `~arch`: testing.
    Testing(Arch),
    /// `-arch`: known not to work.
    Unsupported(Arch),
    /// `-*`: not worth trying on architectures not listed.
    UnlistedUnsupported,
}

impl View for Keyword {
    type V = KeywordView;

    open spec fn view(&self) -> KeywordView {
        match self {
            Keyword::Stable(a) => (0, a@),
            Keyword::Testing(a) => (1, a@),
            Keyword::Unsupported(a) => (2, a@),
            Keyword::UnlistedUnsupported => (3, Seq::empty()),
        }
    }
}

/// Returns `true` if `v[from..to]` is `-*`.
fn is_dash_star(v: &Vec<char>, from: usize, to: usize) -> (r: bool)
    requires
        from <= to <= v.len(),
    ensures
        r == (v@.subrange(from as int, to as int) == seq!['-', '*']),
{
    let ghost s = v@.subrange(from as int, to as int);
    if to - from != 2 {
        assert(s.len() != 2);
        return false;
    }
    assert(s[0] == v@[from as int] && s[1] == v@[from + 1]);
    if v[from] == '-' && v[from + 1] == '*' {
        assert(s =~= seq!['-', '*']);
        true
    } else {
        false
    }
}

impl Keyword {
    /// Parses a keyword such as `amd64`, `~arm64`, `-x86` or `-*`.
    pub fn from_str(keyword: &str) -> (r: Result<Self, Error>)
        ensures
            r is Ok <==> is_keyword_text(keyword@),
            r matches Ok(k) ==> k@ == keyword_parts(keyword@) && keyword_text(k@) == keyword@,
            r matches Err(e) ==> e.text() == subject_message("invalid keyword"@, keyword@),
    {
        let v = chars_of(keyword);
        assert(v@.subrange(0, v@.len() as int) == v@);
        let n = v.len();
        if is_dash_star(&v, 0, n) {
            return Ok(Keyword::UnlistedUnsupported);
        }
        let kind: u8 = if n > 0 && v[0] == '~' {
            1
        } else if n > 0 && v[0] == '-' {
            2
        } else {
            0
        };
        let start: usize = if kind > 0 {
            1
        } else {
            0
        };
        assert(v@.skip(1) == v@.subrange(1, n as int));
        match Arch::from_range(&v, start, n) {
            Some(a) => {
                let k = if kind == 1 {
                    Keyword::Testing(a)
                } else if kind == 2 {
                    Keyword::Unsupported(a)
                } else {
                    Keyword::Stable(a)
                };
                assert(keyword_text(k@) =~= keyword@);
                Ok(k)
            },
            None => Err(Error::with_subject("invalid keyword", keyword)),
        }
    }

    /// Returns the architecture, if any.
    pub fn arch(&self) -> (r: Option<&Arch>)
        ensures
            match r {
                Some(a) => self@.0 < 3 && a@ == self@.1,
                None => self@.0 == 3,
            },
    {
        match self {
            Keyword::Stable(a) | Keyword::Testing(a) | Keyword::Unsupported(a) => Some(a),
            Keyword::UnlistedUnsupported => None,
        }
    }

    /// Returns the text of this keyword.
    pub fn to_string(&self) -> (r: String)
        ensures
            r@ == keyword_text(self@),
    {
        let mut s = String::new();
        match self {
            Keyword::Stable(a) => append_str(&mut s, a.as_str()),
            Keyword::Testing(a) => {
                push_char(&mut s, '~');
                append_str(&mut s, a.as_str());
            },
            Keyword::Unsupported(a) => {
                push_char(&mut s, '-');
                append_str(&mut s, a.as_str());
            },
            Keyword::UnlistedUnsupported => {
                push_char(&mut s, '-');
                push_char(&mut s, '*');
            },
        }
        s
    }

    /// Returns a copy of this keyword.
    pub fn copy(&self) -> (r: Self)
        ensures
            r@ == self@,
    {
        match self {
            Keyword::Stable(a) => Keyword::Stable(a.copy()),
            Keyword::Testing(a) => Keyword::Testing(a.copy()),
            Keyword::Unsupported(a) => Keyword::Unsupported(a.copy()),
            Keyword::UnlistedUnsupported => Keyword::UnlistedUnsupported,
        }
    }
}

impl PartialEq for Keyword {
    fn eq(&self, other: &Self) -> (r: bool) {
        match (self, other) {
            (Keyword::Stable(a), Keyword::Stable(b)) => *a == *b,
            (Keyword::Testing(a), Keyword::Testing(b)) => *a == *b,
            (Keyword::Unsupported(a), Keyword::Unsupported(b)) => *a == *b,
            (Keyword::UnlistedUnsupported, Keyword::UnlistedUnsupported) => true,
            _ => false,
        }
    }
}

impl vstd::std_specs::cmp::PartialEqSpecImpl for Keyword {
    open spec fn obeys_eq_spec() -> bool {
        true
    }

    open spec fn eq_spec(&self, other: &Self) -> bool {
        self@ == other@
    }
}

/// Model of a keyword selector: its kind (0 `arch`, 1 `~arch`, 2 `*`, 3 `~*`, 4 `**`) and
/// its architecture (empty for the wildcards).
pub type SelectorView = (u8, Seq<char>);

/// The parts of a selector text.
pub open spec fn selector_parts(s: Seq<char>) -> SelectorView {
    if s == seq!['*'] {
        (2, Seq::empty())
    } else if s == seq!['~', '*'] {
        (3, Seq::empty())
    } else if s == seq!['*', '*'] {
        (4, Seq::empty())
    } else if s.len() > 0 && s[0] == '~' {
        (1, s.skip(1))
    } else {
        (0, s)
    }
}

/// A valid selector text: `*`, `~*`, `**`, or an architecture with an optional `~`.
pub open spec fn is_selector_text(s: Seq<char>) -> bool {
    let k = selector_parts(s);
    k.0 >= 2 || is_arch_name(k.1)
}

/// A selector accepts a keyword of a package (or its absence).
pub open spec fn selector_matches(sel: SelectorView, k: Option<KeywordView>) -> bool {
    if sel.0 == 4 {
        true
    } else {
        match k {
            Some(kw) => (sel.0 == 0 && kw.0 == 0 && kw.1 == sel.1) || (sel.0 == 1 && kw.0 == 1
                && kw.1 == sel.1) || (sel.0 == 2 && kw.0 == 0) || (sel.0 == 3 && kw.0 == 1),
            None => false,
        }
    }
}

/// What a selector accepts, by the texts written: a selector naming an architecture,
/// `arch` or `~arch`, accepts exactly the keyword written the same way, so a stable
/// selector never accepts the keyword of another architecture; `*` accepts exactly the
/// stable keywords, `~*` exactly the testing ones, and `**` every keyword.
pub proof fn lemma_selector_accepts(s: Seq<char>, t: Seq<char>)
    requires
        is_selector_text(s),
        is_keyword_text(t),
    ensures
        selector_parts(s).0 <= 1 ==> (selector_matches(selector_parts(s), Some(keyword_parts(t))) <==> t == s),
        selector_parts(s).0 == 0 && selector_matches(selector_parts(s), Some(keyword_parts(t))) ==> keyword_parts(t)
            == (0u8, s),
        s == seq!['*'] ==> (selector_matches(selector_parts(s), Some(keyword_parts(t))) <==> keyword_parts(t).0 == 0),
        s == seq!['~', '*'] ==> (selector_matches(selector_parts(s), Some(keyword_parts(t))) <==> keyword_parts(t).0
            == 1),
        s == seq!['*', '*'] ==> selector_matches(selector_parts(s), Some(keyword_parts(t))),
{
    let sel = selector_parts(s);
    let kw = keyword_parts(t);
    if sel.0 <= 1 {
        assert(is_arch_name(sel.1));
        lemma_name_def(NameKind::Keyword, sel.1);
        assert(sel.1.len() > 0);
        if sel.0 == 0 {
            assert(s == sel.1);
            assert(s[0] != '~' && s[0] != '-');
            if t == s {
                assert(s != seq!['-', '*']);
                assert(kw == (0u8, s));
            }
            if selector_matches(sel, Some(kw)) {
                assert(kw.0 == 0 && kw.1 == s);
                assert(t != seq!['-', '*']);
                assert(!(t.len() > 0 && t[0] == '~'));
                assert(!(t.len() > 0 && t[0] == '-'));
                assert(t == kw.1);
            }
        } else {
            assert(s[0] == '~');
            assert(s =~= seq!['~'] + sel.1);
            assert(sel.1[0] != '~' && sel.1[0] != '-' && sel.1[0] != '*');
            if t == s {
                assert(t != seq!['-', '*']);
                assert(kw == (1u8, t.skip(1)));
                assert(t.skip(1) =~= sel.1);
            }
            if selector_matches(sel, Some(kw)) {
                assert(kw.0 == 1 && kw.1 == sel.1);
                assert(t.len() > 0 && t[0] == '~');
                assert(t =~= seq!['~'] + t.skip(1));
            }
        }
    }
}

/// Text of a selector.
pub open spec fn selector_text(sel: SelectorView) -> Seq<char> {
    if sel.0 == 0 {
        sel.1
    } else if sel.0 == 1 {
        seq!['~'] + sel.1
    } else if sel.0 == 2 {
        seq!['*']
    } else if sel.0 == 3 {
        seq!['~', '*']
    } else {
        seq!['*', '*']
    }
}

/// A configured selector of keywords, matched against the keywords of packages.
#[derive(Debug, Clone)]
pub enum KeywordSelector {
    /// `arch`.
    Stable(Arch),
    /// `~arch`.
    Testing(Arch),
    /// `*`: any stable keyword.
    AnyStable,
    /// `~*`: any testing keyword.
    AnyTesting,
    /// `**`: anything, also no keyword at all.
    Any,
}

impl View for KeywordSelector {
    type V = SelectorView;

    open spec fn view(&self) -> SelectorView {
        match self {
            KeywordSelector::Stable(a) => (0, a@),
            KeywordSelector::Testing(a) => (1, a@),
            KeywordSelector::AnyStable => (2, Seq::empty()),
            KeywordSelector::AnyTesting => (3, Seq::empty()),
            KeywordSelector::Any => (4, Seq::empty()),
        }
    }
}

impl KeywordSelector {
    /// Parses a selector such as `amd64`, `~arm64`, `*`, `~*` or `**`.
    pub fn from_str(selector: &str) -> (r: Result<Self, Error>)
        ensures
            r is Ok <==> is_selector_text(selector@),
            r matches Ok(k) ==> k@ == selector_parts(selector@),
            r matches Err(e) ==> e.text() == subject_message("invalid keyword selector"@, selector@),
    {
        let v = chars_of(selector);
        assert(v@.subrange(0, v@.len() as int) == v@);
        let n = v.len();
        let ghost s = v@;
        if n == 1 && v[0] == '*' {
            assert(s =~= seq!['*']);
            return Ok(KeywordSelector::AnyStable);
        }
        if n == 2 && v[0] == '~' && v[1] == '*' {
            assert(s =~= seq!['~', '*']);
            return Ok(KeywordSelector::AnyTesting);
        }
        if n == 2 && v[0] == '*' && v[1] == '*' {
            assert(s =~= seq!['*', '*']);
            return Ok(KeywordSelector::Any);
        }
        assert(s != seq!['*'] && s != seq!['~', '*'] && s != seq!['*', '*']) by {
            if s.len() == 1 {
                assert(s[0] == seq!['*'][0] ==> s =~= seq!['*']);
            }
            if s.len() == 2 {
                assert(s[0] == seq!['~', '*'][0] && s[1] == seq!['~', '*'][1] ==> s =~= seq!['~', '*']);
                assert(s[0] == seq!['*', '*'][0] && s[1] == seq!['*', '*'][1] ==> s =~= seq!['*', '*']);
            }
        }
        let testing = n > 0 && v[0] == '~';
        let start: usize = if testing {
            1
        } else {
            0
        };
        assert(v@.skip(1) == v@.subrange(1, n as int));
        match Arch::from_range(&v, start, n) {
            Some(a) => if testing {
                Ok(KeywordSelector::Testing(a))
            } else {
                Ok(KeywordSelector::Stable(a))
            },
            None => Err(Error::with_subject("invalid keyword selector", selector)),
        }
    }

    /// Returns `true` if this selector accepts the package keyword `keyword`.
    pub fn matches(&self, keyword: Option<&Keyword>) -> (r: bool)
        ensures
            r == selector_matches(
                self@,
                match keyword {
                    Some(k) => Some(k@),
                    None => None,
                },
            ),
    {
        match (self, keyword) {
            (KeywordSelector::Stable(expected), Some(Keyword::Stable(actual))) => *expected
                == *actual,
            (KeywordSelector::Testing(expected), Some(Keyword::Testing(actual))) => *expected
                == *actual,
            (KeywordSelector::AnyStable, Some(Keyword::Stable(_))) => true,
            (KeywordSelector::AnyTesting, Some(Keyword::Testing(_))) => true,
            (KeywordSelector::Any, _) => true,
            _ => false,
        }
    }

    /// Returns the text of this selector.
    pub fn to_string(&self) -> (r: String)
        ensures
            r@ == selector_text(self@),
    {
        let mut s = String::new();
        match self {
            KeywordSelector::Stable(a) => append_str(&mut s, a.as_str()),
            KeywordSelector::Testing(a) => {
                push_char(&mut s, '~');
                append_str(&mut s, a.as_str());
            },
            KeywordSelector::AnyStable => push_char(&mut s, '*'),
            KeywordSelector::AnyTesting => {
                push_char(&mut s, '~');
                push_char(&mut s, '*');
            },
            KeywordSelector::Any => {
                push_char(&mut s, '*');
                push_char(&mut s, '*');
            },
        }
        s
    }

    /// Returns a copy of this selector.
    pub fn copy(&self) -> (r: Self)
        ensures
            r@ == self@,
    {
        match self {
            KeywordSelector::Stable(a) => KeywordSelector::Stable(a.copy()),
            KeywordSelector::Testing(a) => KeywordSelector::Testing(a.copy()),
            KeywordSelector::AnyStable => KeywordSelector::AnyStable,
            KeywordSelector::AnyTesting => KeywordSelector::AnyTesting,
            KeywordSelector::Any => KeywordSelector::Any,
        }
    }
}

impl PartialEq for KeywordSelector {
    fn eq(&self, other: &Self) -> (r: bool) {
        match (self, other) {
            (KeywordSelector::Stable(a), KeywordSelector::Stable(b)) => *a == *b,
            (KeywordSelector::Testing(a), KeywordSelector::Testing(b)) => *a == *b,
            (KeywordSelector::AnyStable, KeywordSelector::AnyStable) => true,
            (KeywordSelector::AnyTesting, KeywordSelector::AnyTesting) => true,
            (KeywordSelector::Any, KeywordSelector::Any) => true,
            _ => false,
        }
    }
}

impl vstd::std_specs::cmp::PartialEqSpecImpl for KeywordSelector {
    open spec fn obeys_eq_spec() -> bool {
        true
    }

    open spec fn eq_spec(&self, other: &Self) -> bool {
        self@ == other@
    }
}

} // verus!
