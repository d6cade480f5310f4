//! Version suffixes such as `_alpha1`, `_pre`, `_rc2` or `_p20240101`.
use super::numeric::{NumericComponent, lemma_numeric_order, numeric_order};
use crate::error::Error;
use crate::text::{
    append_str, chars_of, first_index, is_digit, is_digit_char, is_digits, lemma_first_index,
    range_eq,
};
use vstd::prelude::*;

verus! {

/// Model of a suffix: its kind (`0` alpha, `1` beta, `2` pre, `3` rc, `4` p) and number.
pub type SuffixView = (u8, Option<Seq<char>>);

/// Name of the suffix kind `kind`.
pub open spec fn suffix_name(kind: u8) -> Seq<char> {
    if kind == 0 {
        seq!['a', 'l', 'p', 'h', 'a']
    } else if kind == 1 {
        seq!['b', 'e', 't', 'a']
    } else if kind == 2 {
        seq!['p', 'r', 'e']
    } else if kind == 3 {
        seq!['r', 'c']
    } else {
        seq!['p']
    }
}

/// Kind of the suffix named `name`, if it is one.
pub open spec fn suffix_kind_of(name: Seq<char>) -> Option<u8> {
    if name == suffix_name(0) {
        Some(0u8)
    } else if name == suffix_name(1) {
        Some(1u8)
    } else if name == suffix_name(2) {
        Some(2u8)
    } else if name == suffix_name(3) {
        Some(3u8)
    } else if name == suffix_name(4) {
        Some(4u8)
    } else {
        None
    }
}

/// Length of the leading run of non-digits of `s`.
pub open spec fn name_len(s: Seq<char>) -> int
    decreases s.len(),
{
    if s.len() == 0 || is_digit(s[0]) {
        0
    } else {
        1 + name_len(s.drop_first())
    }
}

/// A single suffix without its `_`: a known name followed by optional digits.
pub open spec fn is_suffix_item(s: Seq<char>) -> bool {
    &&& suffix_kind_of(s.take(name_len(s))) is Some
    &&& forall|i: int| name_len(s) <= i < s.len() ==> is_digit(#[trigger] s[i])
}

/// Source text of one suffix, without its `_`.
pub open spec fn suffix_text(x: SuffixView) -> Seq<char> {
    suffix_name(x.0) + match x.1 {
        Some(n) => n,
        None => Seq::empty(),
    }
}

/// Well-formed suffix.
pub open spec fn suffix_wf(x: SuffixView) -> bool {
    x.0 < 5 && (x.1 matches Some(n) ==> is_digits(n))
}

/// The number of a suffix, where none is the empty sequence.
pub open spec fn suffix_number(x: SuffixView) -> Seq<char> {
    match x.1 {
        Some(n) => n,
        None => Seq::empty(),
    }
}

/// The suffix names in PMS order, lowest first: `alpha`, `beta`, `pre`, `rc`, `p`.
pub open spec fn pms_suffix_names() -> Seq<Seq<char>> {
    seq![
        seq!['a', 'l', 'p', 'h', 'a'],
        seq!['b', 'e', 't', 'a'],
        seq!['p', 'r', 'e'],
        seq!['r', 'c'],
        seq!['p'],
    ]
}

/// Suffix kinds order as PMS 3.3 lists them, `_alpha < _beta < _pre < _rc < _p`, whatever
/// their numbers: a suffix named earlier in the list compares less than one named later.
pub proof fn lemma_suffix_kind_order(a: SuffixView, b: SuffixView, i: int, j: int)
    requires
        suffix_wf(a),
        suffix_wf(b),
        0 <= i < j < 5,
        suffix_name(a.0) == pms_suffix_names()[i],
        suffix_name(b.0) == pms_suffix_names()[j],
    ensures
        suffix_order(a, b) == -1,
        suffix_order(b, a) == 1,
{
    assert(suffix_name(a.0).len() == 5 - a.0);
    assert(suffix_name(b.0).len() == 5 - b.0);
    assert(pms_suffix_names()[i].len() == 5 - i);
    assert(pms_suffix_names()[j].len() == 5 - j);
}

/// PMS 3.3 ordering of two suffixes: by kind, then by number where none equals zero.
pub open spec fn suffix_order(a: SuffixView, b: SuffixView) -> int {
    if a.0 < b.0 {
        -1
    } else if a.0 > b.0 {
        1
    } else {
        numeric_order(suffix_number(a), suffix_number(b))
    }
}

/// PMS 3.3 ordering of suffix lists: pairwise, then the next suffix of the longer
/// list decides: a `_p` makes it greater, anything else smaller.
pub open spec fn suffixes_order(a: Seq<SuffixView>, b: Seq<SuffixView>) -> int
    decreases a.len(),
{
    if a.len() == 0 && b.len() == 0 {
        0
    } else if a.len() == 0 {
        if b[0].0 == 4 {
            -1
        } else {
            1
        }
    } else if b.len() == 0 {
        if a[0].0 == 4 {
            1
        } else {
            -1
        }
    } else if suffix_order(a[0], b[0]) != 0 {
        suffix_order(a[0], b[0])
    } else {
        suffixes_order(a.drop_first(), b.drop_first())
    }
}

/// Source text of a suffix list: each suffix preceded by `_`.
pub open spec fn suffixes_text(s: Seq<SuffixView>) -> Seq<char>
    decreases s.len(),
{
    if s.len() == 0 {
        Seq::empty()
    } else {
        suffixes_text(s.drop_last()) + seq!['_'] + suffix_text(s.last())
    }
}

/// PMS 3.2 suffix list syntax: `(_(alpha|beta|pre|rc|p)[0-9]*)*`.
pub open spec fn is_suffix_list(s: Seq<char>) -> bool
    decreases s.len(),
{
    if s.len() == 0 {
        true
    } else if s[0] != '_' {
        false
    } else {
        match first_index(s.drop_first(), '_') {
            None => is_suffix_item(s.drop_first()),
            Some(k) => {
                proof {
                    lemma_first_index(s.drop_first(), '_');
                }
                is_suffix_item(s.drop_first().take(k)) && is_suffix_list(s.drop_first().skip(k))
            },
        }
    }
}

/// Every suffix of the list is well formed.
pub open spec fn suffixes_wf(s: Seq<SuffixView>) -> bool {
    forall|i: int| 0 <= i < s.len() ==> suffix_wf(#[trigger] s[i])
}

/// A version suffix as outlined in PMS section 3.2, e.g. `alpha1`, `beta2`, `pre`, `rc`
/// or `p20230101`.
#[derive(Debug, Clone)]
pub enum VersionSuffix {
    Alpha(Option<NumericComponent>),
    Beta(Option<NumericComponent>),
    Pre(Option<NumericComponent>),
    Rc(Option<NumericComponent>),
    Patch(Option<NumericComponent>),
}

/// The model of an optional number.
pub open spec fn number_view(n: Option<NumericComponent>) -> Option<Seq<char>> {
    match n {
        Some(x) => Some(x@),
        None => None,
    }
}

impl View for VersionSuffix {
    type V = SuffixView;

    open spec fn view(&self) -> SuffixView {
        match self {
            VersionSuffix::Alpha(n) => (0u8, number_view(*n)),
            VersionSuffix::Beta(n) => (1u8, number_view(*n)),
            VersionSuffix::Pre(n) => (2u8, number_view(*n)),
            VersionSuffix::Rc(n) => (3u8, number_view(*n)),
            VersionSuffix::Patch(n) => (4u8, number_view(*n)),
        }
    }
}

/// Returns a copy of an optional number.
fn copy_number(n: &Option<NumericComponent>) -> (r: Option<NumericComponent>)
    ensures
        number_view(r) == number_view(*n),
{
    match n {
        Some(x) => Some(x.copy()),
        None => None,
    }
}

/// Kind of the suffix named `v[from..to]`, if it is one.
fn kind_of_range(v: &Vec<char>, from: usize, to: usize) -> (r: Option<u8>)
    requires
        from <= to <= v.len(),
    ensures
        r == suffix_kind_of(v@.subrange(from as int, to as int)),
{
    let alpha: [char; 5] = ['a', 'l', 'p', 'h', 'a'];
    let beta: [char; 4] = ['b', 'e', 't', 'a'];
    let pre: [char; 3] = ['p', 'r', 'e'];
    let rc: [char; 2] = ['r', 'c'];
    let p: [char; 1] = ['p'];
    assert(alpha@ == suffix_name(0));
    assert(beta@ == suffix_name(1));
    assert(pre@ == suffix_name(2));
    assert(rc@ == suffix_name(3));
    assert(p@ == suffix_name(4));
    if range_eq(v, from, to, &alpha) {
        Some(0)
    } else if range_eq(v, from, to, &beta) {
        Some(1)
    } else if range_eq(v, from, to, &pre) {
        Some(2)
    } else if range_eq(v, from, to, &rc) {
        Some(3)
    } else if range_eq(v, from, to, &p) {
        Some(4)
    } else {
        None
    }
}

impl VersionSuffix {
    /// Creates a new [`VersionSuffix`] from the given suffix text, which must start with
    /// one of `alpha`, `beta`, `pre`, `rc` or `p`, followed by optional digits.
    pub fn new(suffix: &str) -> (r: Result<Self, Error>)
        ensures
            r is Ok <==> is_suffix_item(suffix@),
            r matches Ok(x) ==> suffix_wf(x@) && suffix_text(x@) == suffix@,
    {
        let v = chars_of(suffix);
        assert(v@.subrange(0, v@.len() as int) == v@);
        match Self::parse(&v, 0, v.len()) {
            Some(x) => Ok(x),
            None => Err(Error::with_subject("invalid version suffix", suffix)),
        }
    }

    /// Parses the suffix `v[from..to]`, given without its `_`.
    pub fn parse(v: &Vec<char>, from: usize, to: usize) -> (r: Option<Self>)
        requires
            from <= to <= v.len(),
        ensures
            r is Some <==> is_suffix_item(v@.subrange(from as int, to as int)),
            r matches Some(x) ==> suffix_wf(x@) && suffix_text(x@) == v@.subrange(
                from as int,
                to as int,
            ),
    {
        let ghost s = v@.subrange(from as int, to as int);
        let mut k = from;
        while k < to && !is_digit_char(v[k])
            invariant
                from <= k <= to <= v.len(),
                s == v@.subrange(from as int, to as int),
                name_len(s) == (k - from) + name_len(v@.subrange(k as int, to as int)),
            decreases to - k,
        {
            assert(v@.subrange(k as int, to as int).drop_first() == v@.subrange(k + 1, to as int));
            k += 1;
        }
        assert(name_len(v@.subrange(k as int, to as int)) == 0);
        assert(s.take(name_len(s)) == v@.subrange(from as int, k as int));
        let kind = match kind_of_range(v, from, k) {
            Some(kind) => kind,
            None => {
                return None;
            },
        };
        let mut i = k;
        while i < to
            invariant
                from <= k <= i <= to <= v.len(),
                s == v@.subrange(from as int, to as int),
                name_len(s) == k - from,
                forall|j: int| k <= j < i ==> is_digit(v@[j]),
            decreases to - i,
        {
            if !is_digit_char(v[i]) {
                assert(!is_digit(s[i - from]));
                return None;
            }
            i += 1;
        }
        assert forall|j: int| name_len(s) <= j < s.len() implies is_digit(#[trigger] s[j]) by {
            assert(s[j] == v@[from + j]);
        }
        let number = if k == to {
            None
        } else {
            Some(NumericComponent::from_range(v, k, to))
        };
        let r = if kind == 0 {
            VersionSuffix::Alpha(number)
        } else if kind == 1 {
            VersionSuffix::Beta(number)
        } else if kind == 2 {
            VersionSuffix::Pre(number)
        } else if kind == 3 {
            VersionSuffix::Rc(number)
        } else {
            VersionSuffix::Patch(number)
        };
        proof {
            assert(s == v@.subrange(from as int, k as int) + v@.subrange(k as int, to as int));
            if k < to {
                assert forall|j: int| 0 <= j < v@.subrange(k as int, to as int).len() implies is_digit(
                    #[trigger] v@.subrange(k as int, to as int)[j],
                ) by {
                    assert(v@.subrange(k as int, to as int)[j] == v@[k + j]);
                }
            } else {
                assert(v@.subrange(k as int, to as int) == Seq::<char>::empty());
            }
        }
        Some(r)
    }

    /// Returns the name of this suffix, e.g. `alpha`.
    pub fn name(&self) -> (r: &'static str)
        ensures
            r@ == suffix_name(self@.0),
    {
        let r = match self {
            VersionSuffix::Alpha(_) => "alpha",
            VersionSuffix::Beta(_) => "beta",
            VersionSuffix::Pre(_) => "pre",
            VersionSuffix::Rc(_) => "rc",
            VersionSuffix::Patch(_) => "p",
        };
        proof {
            reveal_strlit("alpha");
            reveal_strlit("beta");
            reveal_strlit("pre");
            reveal_strlit("rc");
            reveal_strlit("p");
        }
        r
    }

    /// Returns the optional number of this suffix.
    pub fn number(&self) -> (r: Option<&NumericComponent>)
        ensures
            match r {
                Some(n) => self@.1 == Some(n@),
                None => self@.1 is None,
            },
    {
        match self {
            VersionSuffix::Alpha(n) | VersionSuffix::Beta(n) | VersionSuffix::Pre(n)
            | VersionSuffix::Rc(n) | VersionSuffix::Patch(n) => match n {
                Some(x) => Some(x),
                None => None,
            },
        }
    }

    /// Returns the kind of this suffix as its position in the PMS order.
    pub fn ordinal(&self) -> (r: u8)
        ensures
            r == self@.0,
    {
        match self {
            VersionSuffix::Alpha(_) => 0,
            VersionSuffix::Beta(_) => 1,
            VersionSuffix::Pre(_) => 2,
            VersionSuffix::Rc(_) => 3,
            VersionSuffix::Patch(_) => 4,
        }
    }

    /// Returns a copy of this suffix.
    pub fn copy(&self) -> (r: Self)
        ensures
            r@ == self@,
    {
        match self {
            VersionSuffix::Alpha(n) => VersionSuffix::Alpha(copy_number(n)),
            VersionSuffix::Beta(n) => VersionSuffix::Beta(copy_number(n)),
            VersionSuffix::Pre(n) => VersionSuffix::Pre(copy_number(n)),
            VersionSuffix::Rc(n) => VersionSuffix::Rc(copy_number(n)),
            VersionSuffix::Patch(n) => VersionSuffix::Patch(copy_number(n)),
        }
    }

    /// Compares two suffixes according to PMS 3.3: -1, 0 or 1.
    pub fn order(&self, other: &Self) -> (r: i8)
        ensures
            r as int == suffix_order(self@, other@),
    {
        let a = self.ordinal();
        let b = other.ordinal();
        if a < b {
            return -1;
        }
        if a > b {
            return 1;
        }
        let x = match self.number() {
            Some(n) => n.as_str(),
            None => "",
        };
        let y = match other.number() {
            Some(n) => n.as_str(),
            None => "",
        };
        proof {
            reveal_strlit("");
        }
        super::numeric::numeric_order_exec(x, y)
    }

    /// Returns the source text of this suffix, e.g. `p20231231`.
    pub fn to_string(&self) -> (s: String)
        ensures
            s@ == suffix_text(self@),
    {
        let mut s = self.name().to_owned();
        if let Some(n) = self.number() {
            append_str(&mut s, n.as_str());
        }
        s
    }
}

/// A list of [`VersionSuffix`] of a package version, e.g. `_rc1_p20`.
#[derive(Debug, Clone)]
pub struct VersionSuffixes(Vec<VersionSuffix>);

impl View for VersionSuffixes {
    type V = Seq<SuffixView>;

    closed spec fn view(&self) -> Seq<SuffixView> {
        self.0@.map_values(|x: VersionSuffix| x@)
    }
}

impl VersionSuffixes {
    /// Creates an empty suffix list.
    pub fn empty() -> (r: Self)
        ensures
            r@ == Seq::<SuffixView>::empty(),
    {
        let r = VersionSuffixes(Vec::new());
        assert(r@ =~= Seq::<SuffixView>::empty());
        r
    }

    /// Parses suffixes separated by underscores; the initial `_` is required,
    /// e.g. `_beta_p20230101`.
    pub fn new(suffixes: &str) -> (r: Result<Self, Error>)
        ensures
            r is Ok <==> is_suffix_list(suffixes@),
            r matches Ok(x) ==> suffixes_wf(x@) && suffixes_text(x@) == suffixes@,
    {
        let v = chars_of(suffixes);
        assert(v@.subrange(0, v@.len() as int) == v@);
        match Self::parse(&v, 0, v.len()) {
            Some(x) => Ok(x),
            None => Err(Error::with_subject("invalid version suffixes", suffixes)),
        }
    }

    /// Parses the suffix list `v[from..to]`.
    pub fn parse(v: &Vec<char>, from: usize, to: usize) -> (r: Option<Self>)
        requires
            from <= to <= v.len(),
        ensures
            r is Some <==> is_suffix_list(v@.subrange(from as int, to as int)),
            r matches Some(x) ==> suffixes_wf(x@) && suffixes_text(x@) == v@.subrange(
                from as int,
                to as int,
            ),
    {
        let mut items: Vec<VersionSuffix> = Vec::new();
        let mut i = from;
        while i < to
            invariant
                from <= i <= to <= v.len(),
                is_suffix_list(v@.subrange(from as int, to as int)) == is_suffix_list(
                    v@.subrange(i as int, to as int),
                ),
                suffixes_wf(items@.map_values(|x: VersionSuffix| x@)),
                suffixes_text(items@.map_values(|x: VersionSuffix| x@)) == v@.subrange(
                    from as int,
                    i as int,
                ),
            decreases to - i,
        {
            let ghost rest = v@.subrange(i as int, to as int);
            if v[i] != '_' {
                return None;
            }
            let mut j = i + 1;
            while j < to && v[j] != '_'
                invariant
                    i < j <= to <= v.len(),
                    forall|k: int| i < k < j ==> v@[k] != '_',
                decreases to - j,
            {
                j += 1;
            }
            proof {
                let t = rest.drop_first();
                assert(t == v@.subrange(i + 1, to as int));
                if j < to {
                    lemma_first_index(t, '_');
                    crate::text::lemma_first_index_unique(t, '_', j - i - 1);
                    assert(t.take(j - i - 1) == v@.subrange(i + 1, j as int));
                    assert(t.skip(j - i - 1) == v@.subrange(j as int, to as int));
                } else {
                    crate::text::lemma_first_index_none(t, '_');
                }
            }
            let item = match VersionSuffix::parse(v, i + 1, j) {
                Some(item) => item,
                None => {
                    return None;
                },
            };
            let ghost before = items@.map_values(|x: VersionSuffix| x@);
            items.push(item);
            proof {
                let after = items@.map_values(|x: VersionSuffix| x@);
                assert(after == before.push(item@));
                assert(after.drop_last() == before);
                assert(v@.subrange(from as int, j as int) == v@.subrange(from as int, i as int)
                    + seq!['_'] + v@.subrange(i + 1, j as int));
            }
            i = j;
        }
        assert(v@.subrange(i as int, to as int).len() == 0);
        Some(VersionSuffixes(items))
    }

    /// Returns the suffixes.
    pub fn iter(&self) -> (r: &Vec<VersionSuffix>)
        ensures
            r@.map_values(|x: VersionSuffix| x@) == self@,
    {
        &self.0
    }

    /// Returns a copy of this list.
    pub fn copy(&self) -> (r: Self)
        ensures
            r@ == self@,
    {
        let mut items: Vec<VersionSuffix> = Vec::new();
        let mut i: usize = 0;
        while i < self.0.len()
            invariant
                0 <= i <= self.0@.len(),
                items@.map_values(|x: VersionSuffix| x@) == self.0@.subrange(0, i as int).map_values(
                    |x: VersionSuffix| x@,
                ),
            decreases self.0.len() - i,
        {
            let ghost before = items@;
            items.push(self.0[i].copy());
            proof {
                assert(items@ == before.push(items@.last()));
                assert(self.0@.subrange(0, i + 1) == self.0@.subrange(0, i as int).push(
                    self.0@[i as int],
                ));
                assert(items@.map_values(|x: VersionSuffix| x@) == before.map_values(
                    |x: VersionSuffix| x@,
                ).push(self.0@[i as int]@));
                assert(self.0@.subrange(0, i + 1).map_values(|x: VersionSuffix| x@) == self.0@.subrange(
                    0,
                    i as int,
                ).map_values(|x: VersionSuffix| x@).push(self.0@[i as int]@));
            }
            i += 1;
        }
        assert(self.0@.subrange(0, i as int) == self.0@);
        VersionSuffixes(items)
    }

    /// Compares two suffix lists according to PMS 3.3: -1, 0 or 1.
    pub fn order(&self, other: &Self) -> (r: i8)
        ensures
            r as int == suffixes_order(self@, other@),
    {
        let ghost a = self@;
        let ghost b = other@;
        let mut i: usize = 0;
        assert(a.skip(0) == a);
        assert(b.skip(0) == b);
        while i < self.0.len() && i < other.0.len()
            invariant
                0 <= i <= self.0@.len(),
                i <= other.0@.len(),
                a == self.0@.map_values(|x: VersionSuffix| x@),
                b == other.0@.map_values(|x: VersionSuffix| x@),
                suffixes_order(a, b) == suffixes_order(a.skip(i as int), b.skip(i as int)),
            decreases self.0.len() - i,
        {
            let c = self.0[i].order(&other.0[i]);
            assert(a.skip(i as int)[0] == a[i as int]);
            assert(b.skip(i as int)[0] == b[i as int]);
            if c != 0 {
                return c;
            }
            assert(a.skip(i as int).drop_first() == a.skip(i + 1));
            assert(b.skip(i as int).drop_first() == b.skip(i + 1));
            i += 1;
        }
        if i < self.0.len() {
            assert(a.skip(i as int)[0] == a[i as int]);
            if self.0[i].ordinal() == 4 {
                1
            } else {
                -1
            }
        } else if i < other.0.len() {
            assert(b.skip(i as int)[0] == b[i as int]);
            if other.0[i].ordinal() == 4 {
                -1
            } else {
                1
            }
        } else {
            0
        }
    }

    /// Returns the source text of these suffixes, e.g. `_alpha1_p2`.
    pub fn to_string(&self) -> (s: String)
        ensures
            s@ == suffixes_text(self@),
    {
        let ghost all = self@;
        let mut s = String::new();
        let mut i: usize = 0;
        while i < self.0.len()
            invariant
                0 <= i <= self.0@.len(),
                all == self.0@.map_values(|x: VersionSuffix| x@),
                s@ == suffixes_text(all.subrange(0, i as int)),
            decreases self.0.len() - i,
        {
            crate::text::push_char(&mut s, '_');
            let t = self.0[i].to_string();
            append_str(&mut s, t.as_str());
            proof {
                assert(all.subrange(0, i + 1).drop_last() == all.subrange(0, i as int));
            }
            i += 1;
        }
        assert(all.subrange(0, i as int) == all);
        s
    }
}

/// Properties of the suffix ordering.
pub proof fn lemma_suffix_order(a: SuffixView, b: SuffixView)
    ensures
        suffix_order(a, b) == -suffix_order(b, a),
        -1 <= suffix_order(a, b) <= 1,
        suffix_order(a, a) == 0,
{
    lemma_numeric_order(suffix_number(a), suffix_number(b));
    lemma_numeric_order(suffix_number(a), suffix_number(a));
}

/// Properties of the suffix list ordering.
pub proof fn lemma_suffixes_order(a: Seq<SuffixView>, b: Seq<SuffixView>)
    ensures
        suffixes_order(a, b) == -suffixes_order(b, a),
        -1 <= suffixes_order(a, b) <= 1,
        suffixes_order(a, a) == 0,
    decreases a.len(),
{
    if a.len() > 0 && b.len() > 0 {
        lemma_suffix_order(a[0], b[0]);
        lemma_suffixes_order(a.drop_first(), b.drop_first());
    }
    if a.len() > 0 {
        lemma_suffix_order(a[0], a[0]);
        lemma_suffixes_order(a.drop_first(), a.drop_first());
    }
}

} // verus!
