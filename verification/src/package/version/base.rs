//! The base version number: dot separated numeric components and an optional letter.
use super::numeric::{NumericComponent, lemma_numeric_order, lemma_numeric_order_trans, numeric_order};
use crate::error::Error;
use crate::text::{
    append_str, chars_of, copy_string, is_digit, is_digit_char, is_digits, is_digits_range,
    is_lower, is_lower_char, lemma_lex_order_props, lemma_lex_order_trans, lex_order,
    lex_order_range, push_char, sign, skip_trailing, string_from, strip_trailing,
};
use vstd::prelude::*;

verus! {

/// Model of a number component: whether it compares numerically, and its digits.
pub type ComponentView = (bool, Seq<char>);

/// Model of a version number: its components and the optional letter.
pub type NumberView = (Seq<ComponentView>, Option<char>);

/// Ordering of two number components (PMS 3.3): numeric components compare as
/// numbers, otherwise the digits without trailing zeros compare as strings.
pub open spec fn component_order(a: ComponentView, b: ComponentView) -> int {
    if a.0 && b.0 {
        numeric_order(a.1, b.1)
    } else {
        lex_order(strip_trailing(a.1, '0'), strip_trailing(b.1, '0'))
    }
}

/// Ordering of two component lists: the first differing pair decides,
/// otherwise the shorter list is smaller.
pub open spec fn components_order(a: Seq<ComponentView>, b: Seq<ComponentView>) -> int
    decreases a.len(),
{
    if a.len() == 0 || b.len() == 0 {
        sign(a.len() - b.len())
    } else if component_order(a[0], b[0]) != 0 {
        component_order(a[0], b[0])
    } else {
        components_order(a.drop_first(), b.drop_first())
    }
}

/// Ordering of the optional letters: a letter is greater than none.
pub open spec fn letter_order(a: Option<char>, b: Option<char>) -> int {
    match (a, b) {
        (Some(x), Some(y)) => if x < y {
            -1
        } else if x > y {
            1
        } else {
            0
        },
        (Some(_), None) => 1,
        (None, Some(_)) => -1,
        (None, None) => 0,
    }
}

/// Ordering of two version numbers.
pub open spec fn number_order(a: NumberView, b: NumberView) -> int {
    if components_order(a.0, b.0) != 0 {
        components_order(a.0, b.0)
    } else {
        letter_order(a.1, b.1)
    }
}

/// The parts joined by dots.
pub open spec fn join_dot(parts: Seq<Seq<char>>) -> Seq<char>
    decreases parts.len(),
{
    if parts.len() == 0 {
        Seq::empty()
    } else if parts.len() == 1 {
        parts[0]
    } else {
        join_dot(parts.drop_last()) + seq!['.'] + parts.last()
    }
}

/// The digits of each component.
pub open spec fn component_texts(c: Seq<ComponentView>) -> Seq<Seq<char>> {
    c.map_values(|x: ComponentView| x.1)
}

/// The optional letter as a sequence.
pub open spec fn letter_text(l: Option<char>) -> Seq<char> {
    match l {
        Some(c) => seq![c],
        None => Seq::empty(),
    }
}

/// Source text of a version number.
pub open spec fn number_text(n: NumberView) -> Seq<char> {
    join_dot(component_texts(n.0)) + letter_text(n.1)
}

/// A component is numeric exactly when it is the first one or does not start with `0`.
pub open spec fn component_wf(c: ComponentView, index: int) -> bool {
    is_digits(c.1) && c.0 == (index == 0 || c.1[0] != '0')
}

/// Well-formed version number.
pub open spec fn number_wf(n: NumberView) -> bool {
    &&& n.0.len() > 0
    &&& forall|k: int| 0 <= k < n.0.len() ==> component_wf(#[trigger] n.0[k], k)
    &&& n.1 matches Some(c) ==> is_lower(c)
}

/// Digits separated by single dots: `[0-9]+(\.[0-9]+)*`.
pub open spec fn is_dotted_digits(s: Seq<char>) -> bool {
    &&& s.len() > 0
    &&& is_digit(s[0])
    &&& is_digit(s.last())
    &&& forall|i: int| 0 <= i < s.len() ==> is_digit(#[trigger] s[i]) || s[i] == '.'
    &&& forall|i: int| 0 <= i < s.len() - 1 ==> !(#[trigger] s[i] == '.' && s[i + 1] == '.')
}

/// PMS 3.2 base version syntax: `[0-9]+(\.[0-9]+)*[a-z]?`.
pub open spec fn is_version_base(s: Seq<char>) -> bool {
    if s.len() > 0 && is_lower(s.last()) {
        is_dotted_digits(s.drop_last())
    } else {
        is_dotted_digits(s)
    }
}

/// A component of the base version, either `Numeric` or `Alphabetic`.
///
/// Components after the first one that start with a `0` are `Alphabetic` and compare
/// as strings, all others are `Numeric` and compare as integers. Both hold only digits.
#[derive(Debug, Clone)]
pub enum NumberComponent {
    Numeric(NumericComponent),
    Alphabetic(String),
}

impl View for NumberComponent {
    type V = ComponentView;

    open spec fn view(&self) -> ComponentView {
        match self {
            NumberComponent::Numeric(n) => (true, n@),
            NumberComponent::Alphabetic(a) => (false, a@),
        }
    }
}

impl NumberComponent {
    /// Creates a new [`NumberComponent`] from the given `number` and its `index` in the version.
    ///
    /// Fails if `number` is empty or holds a character that is not a digit.
    pub fn new(number: &str, index: usize) -> (r: Result<Self, Error>)
        ensures
            r is Ok <==> is_digits(number@),
            r matches Ok(c) ==> c@.1 == number@ && component_wf(c@, index as int),
    {
        let v = chars_of(number);
        assert(v@.subrange(0, v@.len() as int) == v@);
        if !is_digits_range(&v, 0, v.len()) {
            return Err(Error::with_subject("invalid version component", number));
        }
        Ok(Self::from_range(&v, 0, v.len(), index))
    }

    /// Creates a component from the digits `v[from..to]` at position `index`.
    pub fn from_range(v: &Vec<char>, from: usize, to: usize, index: usize) -> (r: Self)
        requires
            from < to <= v.len(),
        ensures
            r@.1 == v@.subrange(from as int, to as int),
            r@.0 == (index == 0 || v@[from as int] != '0'),
    {
        if index == 0 || v[from] != '0' {
            NumberComponent::Numeric(NumericComponent::from_range(v, from, to))
        } else {
            NumberComponent::Alphabetic(string_from(v, from, to))
        }
    }

    /// Returns the digits of this component.
    pub fn as_str(&self) -> (r: &str)
        ensures
            r@ == self@.1,
    {
        match self {
            NumberComponent::Numeric(n) => n.as_str(),
            NumberComponent::Alphabetic(a) => a.as_str(),
        }
    }

    /// Returns the digits as written.
    pub fn to_string(&self) -> (r: String)
        ensures
            r@ == self@.1,
    {
        match self {
            NumberComponent::Numeric(n) => n.to_string(),
            NumberComponent::Alphabetic(a) => a.clone(),
        }
    }

    /// Returns a copy of this component.
    pub fn copy(&self) -> (r: Self)
        ensures
            r@ == self@,
    {
        match self {
            NumberComponent::Numeric(n) => NumberComponent::Numeric(n.copy()),
            NumberComponent::Alphabetic(a) => NumberComponent::Alphabetic(copy_string(a)),
        }
    }

    /// Compares two components: -1, 0 or 1.
    pub fn order(&self, other: &Self) -> (r: i8)
        ensures
            r as int == component_order(self@, other@),
    {
        match (self, other) {
            (NumberComponent::Numeric(a), NumberComponent::Numeric(b)) => a.order(b),
            _ => {
                let x = chars_of(self.as_str());
                let y = chars_of(other.as_str());
                let i = skip_trailing(&x, 0, x.len(), '0');
                let j = skip_trailing(&y, 0, y.len(), '0');
                assert(x@.subrange(0, x@.len() as int) == x@);
                assert(y@.subrange(0, y@.len() as int) == y@);
                lex_order_range(&x, 0, i, &y, 0, j)
            },
        }
    }
}

/// The base version number as individual components and an optional letter.
#[derive(Debug, Clone)]
pub struct VersionNumber {
    components: Vec<NumberComponent>,
    letter: Option<char>,
}

impl View for VersionNumber {
    type V = NumberView;

    closed spec fn view(&self) -> NumberView {
        (self.components@.map_values(|c: NumberComponent| c@), self.letter)
    }
}

/// Appending a component extends the joined text by a dot and its digits.
proof fn lemma_join_push(parts: Seq<Seq<char>>, p: Seq<char>)
    requires
        parts.len() > 0,
    ensures
        join_dot(parts.push(p)) == join_dot(parts) + seq!['.'] + p,
{
    assert(parts.push(p).drop_last() == parts);
}

impl VersionNumber {
    /// Creates a [`VersionNumber`] by splitting `version` into its numeric components
    /// and an optional letter suffix, e.g. `"1.2.3a"` becomes `1`, `2`, `3` and `a`.
    ///
    /// Fails unless `version` has the syntax `[0-9]+(\.[0-9]+)*[a-z]?`.
    pub fn new(version: &str) -> (r: Result<Self, Error>)
        ensures
            r is Ok <==> is_version_base(version@),
            r matches Ok(n) ==> number_wf(n@) && number_text(n@) == version@,
    {
        let v = chars_of(version);
        assert(v@.subrange(0, v@.len() as int) == v@);
        match Self::parse(&v, 0, v.len()) {
            Some(n) => Ok(n),
            None => Err(Error::with_subject("invalid version number", version)),
        }
    }

    /// Parses the version number `v[from..to]`.
    pub fn parse(v: &Vec<char>, from: usize, to: usize) -> (r: Option<Self>)
        requires
            from <= to <= v.len(),
        ensures
            r is Some <==> is_version_base(v@.subrange(from as int, to as int)),
            r matches Some(n) ==> number_wf(n@) && number_text(n@) == v@.subrange(
                from as int,
                to as int,
            ),
    {
        let ghost s = v@.subrange(from as int, to as int);
        if from == to {
            return None;
        }
        let last = v[to - 1];
        let (end, letter) = if is_lower_char(last) {
            (to - 1, Some(last))
        } else {
            (to, None)
        };
        assert(s.len() > 0 && is_lower(s.last()) ==> s.drop_last() == v@.subrange(
            from as int,
            end as int,
        ));
        assert(!(s.len() > 0 && is_lower(s.last())) ==> s == v@.subrange(from as int, end as int));
        let ghost body = v@.subrange(from as int, end as int);
        assert(is_version_base(s) == is_dotted_digits(body));
        let mut components: Vec<NumberComponent> = Vec::new();
        let mut i = from;
        loop
            invariant_except_break
                from <= i <= end <= to <= v.len(),
                body == v@.subrange(from as int, end as int),
                is_version_base(v@.subrange(from as int, to as int)) == is_dotted_digits(body),
                components@.len() == 0 <==> i == from,
                components@.len() > 0 ==> i > from && v@[i - 1] == '.' && join_dot(
                    component_texts(components@.map_values(|c: NumberComponent| c@)),
                ) == v@.subrange(from as int, i - 1),
                forall|k: int|
                    0 <= k < components@.len() ==> component_wf(
                        #[trigger] components@[k]@,
                        k,
                    ),
                i > from ==> is_digit(v@[from as int]),
                forall|k: int| from <= k < i ==> is_digit(#[trigger] v@[k]) || v@[k] == '.',
                forall|k: int| from <= k < i - 1 ==> !(#[trigger] v@[k] == '.' && v@[k + 1] == '.'),
            ensures
                components@.len() > 0,
                join_dot(component_texts(components@.map_values(|c: NumberComponent| c@))) == body,
                forall|k: int|
                    0 <= k < components@.len() ==> component_wf(
                        #[trigger] components@[k]@,
                        k,
                    ),
                is_dotted_digits(body),
            decreases end - i,
        {
            let mut j = i;
            while j < end && v[j] != '.'
                invariant
                    i <= j <= end <= v.len(),
                    forall|k: int| i <= k < j ==> v@[k] != '.',
                decreases end - j,
            {
                j += 1;
            }
            if !is_digits_range(v, i, j) {
                proof {
                    if i == j {
                        if i == from {
                            assert(body.len() == 0 || body[0] == '.');
                        } else if i == end {
                            assert(body.last() == '.');
                        } else {
                            let k = i - 1 - from;
                            assert(body[k] == '.' && body[k + 1] == '.');
                            assert(0 <= k < body.len() - 1);
                        }
                        assert(!is_dotted_digits(body));
                    } else {
                        let k = choose|k: int|
                            0 <= k < j - i && !is_digit(
                                #[trigger] v@.subrange(i as int, j as int)[k],
                            );
                        assert(v@.subrange(i as int, j as int)[k] == v@[i + k]);
                        assert(body[i + k - from] == v@[i + k]);
                        assert(v@[i + k] != '.');
                        assert(!is_dotted_digits(body));
                    }
                }
                return None;
            }
            let ghost old_comps = components@.map_values(|c: NumberComponent| c@);
            let comp = NumberComponent::from_range(v, i, j, components.len());
            components.push(comp);
            let ghost new_comps = components@.map_values(|c: NumberComponent| c@);
            proof {
                assert(new_comps == old_comps.push(comp@));
                assert(component_texts(new_comps) == component_texts(old_comps).push(
                    v@.subrange(i as int, j as int),
                ));
                if old_comps.len() > 0 {
                    lemma_join_push(component_texts(old_comps), v@.subrange(i as int, j as int));
                    assert(v@.subrange(from as int, j as int) == v@.subrange(from as int, i - 1)
                        + seq!['.'] + v@.subrange(i as int, j as int));
                } else {
                    assert(component_texts(new_comps).len() == 1);
                }
                assert(is_digits(v@.subrange(i as int, j as int)));
                assert forall|k: int| i <= k < j implies is_digit(#[trigger] v@[k]) by {
                    assert(v@.subrange(i as int, j as int)[k - i] == v@[k]);
                }
            }
            if j == end {
                proof {
                    assert(join_dot(component_texts(new_comps)) == body);
                    assert forall|k: int| 0 <= k < body.len() implies is_digit(#[trigger] body[k])
                        || body[k] == '.' by {
                        assert(body[k] == v@[from + k]);
                    }
                    assert forall|k: int| 0 <= k < body.len() - 1 implies !(#[trigger] body[k]
                        == '.' && body[k + 1] == '.') by {
                        assert(body[k] == v@[from + k]);
                        assert(body[k + 1] == v@[from + k + 1]);
                    }
                    assert(body[0] == v@[from as int]);
                    assert(body.last() == v@[end - 1]);
                }
                break;
            }
            i = j + 1;
        }
        assert(is_version_base(s));
        proof {
            let n = (components@.map_values(|c: NumberComponent| c@), letter);
            if letter is Some {
                assert(s == body + letter_text(letter));
            } else {
                assert(s == body + letter_text(letter));
            }
            assert(number_text(n) == s);
        }
        Some(VersionNumber { components, letter })
    }

    /// Returns the components.
    pub fn components(&self) -> (r: &Vec<NumberComponent>)
        ensures
            r@.map_values(|c: NumberComponent| c@) == self@.0,
    {
        &self.components
    }

    /// Returns the optional letter.
    pub fn letter(&self) -> (r: Option<char>)
        ensures
            r == self@.1,
    {
        self.letter
    }

    /// Returns a copy of this number.
    pub fn copy(&self) -> (r: Self)
        ensures
            r@ == self@,
    {
        let mut components: Vec<NumberComponent> = Vec::new();
        let mut i: usize = 0;
        while i < self.components.len()
            invariant
                0 <= i <= self.components@.len(),
                components@.map_values(|c: NumberComponent| c@) == self.components@.subrange(
                    0,
                    i as int,
                ).map_values(|c: NumberComponent| c@),
            decreases self.components.len() - i,
        {
            let ghost before = components@;
            components.push(self.components[i].copy());
            proof {
                assert(self.components@.subrange(0, i + 1) == self.components@.subrange(
                    0,
                    i as int,
                ).push(self.components@[i as int]));
                assert(components@ == before.push(components@.last()));
                assert(components@.map_values(|c: NumberComponent| c@) == before.map_values(
                    |c: NumberComponent| c@,
                ).push(self.components@[i as int]@));
                assert(self.components@.subrange(0, i + 1).map_values(|c: NumberComponent| c@)
                    == self.components@.subrange(0, i as int).map_values(|c: NumberComponent| c@).push(
                    self.components@[i as int]@,
                ));
            }
            i += 1;
        }
        assert(self.components@.subrange(0, i as int) == self.components@);
        VersionNumber { components, letter: self.letter }
    }

    /// Compares two version numbers: -1, 0 or 1.
    pub fn order(&self, other: &Self) -> (r: i8)
        ensures
            r as int == number_order(self@, other@),
    {
        let ghost a = self@.0;
        let ghost b = other@.0;
        let mut i: usize = 0;
        assert(a.skip(0) == a);
        assert(b.skip(0) == b);
        while i < self.components.len() && i < other.components.len()
            invariant
                0 <= i <= self.components@.len(),
                i <= other.components@.len(),
                a == self.components@.map_values(|c: NumberComponent| c@),
                b == other.components@.map_values(|c: NumberComponent| c@),
                components_order(a, b) == components_order(a.skip(i as int), b.skip(i as int)),
            decreases self.components.len() - i,
        {
            let c = self.components[i].order(&other.components[i]);
            assert(a.skip(i as int)[0] == a[i as int]);
            assert(b.skip(i as int)[0] == b[i as int]);
            if c != 0 {
                return c;
            }
            assert(a.skip(i as int).drop_first() == a.skip(i + 1));
            assert(b.skip(i as int).drop_first() == b.skip(i + 1));
            i += 1;
        }
        if self.components.len() < other.components.len() {
            return -1;
        }
        if self.components.len() > other.components.len() {
            return 1;
        }
        match (self.letter, other.letter) {
            (Some(x), Some(y)) => if x < y {
                -1
            } else if x > y {
                1
            } else {
                0
            },
            (Some(_), None) => 1,
            (None, Some(_)) => -1,
            (None, None) => 0,
        }
    }

    /// Returns the source-sensitive text of this number, e.g. `1.2.03a`.
    pub fn to_string(&self) -> (s: String)
        ensures
            s@ == number_text(self@),
    {
        let ghost comps = self@.0;
        let mut s = String::new();
        let mut i: usize = 0;
        while i < self.components.len()
            invariant
                0 <= i <= self.components@.len(),
                comps == self.components@.map_values(|c: NumberComponent| c@),
                s@ == join_dot(component_texts(comps.subrange(0, i as int))),
            decreases self.components.len() - i,
        {
            let ghost before = component_texts(comps.subrange(0, i as int));
            if i > 0 {
                push_char(&mut s, '.');
            }
            append_str(&mut s, self.components[i].as_str());
            proof {
                assert(comps.subrange(0, i + 1) == comps.subrange(0, i as int).push(comps[i as int]));
                assert(component_texts(comps.subrange(0, i + 1)) == before.push(comps[i as int].1));
                if i > 0 {
                    lemma_join_push(before, comps[i as int].1);
                } else {
                    assert(component_texts(comps.subrange(0, i + 1)).len() == 1);
                }
            }
            i += 1;
        }
        assert(comps.subrange(0, i as int) == comps);
        if let Some(c) = self.letter {
            push_char(&mut s, c);
        }
        s
    }
}

/// Properties of the component ordering.
pub proof fn lemma_component_order(a: ComponentView, b: ComponentView)
    ensures
        component_order(a, b) == -component_order(b, a),
        -1 <= component_order(a, b) <= 1,
        component_order(a, a) == 0,
{
    lemma_numeric_order(a.1, b.1);
    lemma_numeric_order(a.1, a.1);
    lemma_lex_order_props(strip_trailing(a.1, '0'), strip_trailing(b.1, '0'));
    lemma_lex_order_props(strip_trailing(a.1, '0'), strip_trailing(a.1, '0'));
}

/// Properties of the component list ordering.
pub proof fn lemma_components_order(a: Seq<ComponentView>, b: Seq<ComponentView>)
    ensures
        components_order(a, b) == -components_order(b, a),
        -1 <= components_order(a, b) <= 1,
        components_order(a, a) == 0,
    decreases a.len(),
{
    if a.len() > 0 && b.len() > 0 {
        lemma_component_order(a[0], b[0]);
        lemma_components_order(a.drop_first(), b.drop_first());
    }
    if a.len() > 0 {
        lemma_component_order(a[0], a[0]);
        lemma_components_order(a.drop_first(), a.drop_first());
    }
}

/// Properties of the version number ordering.
pub proof fn lemma_number_order(a: NumberView, b: NumberView)
    ensures
        number_order(a, b) == -number_order(b, a),
        -1 <= number_order(a, b) <= 1,
        number_order(a, a) == 0,
{
    lemma_components_order(a.0, b.0);
    lemma_components_order(a.0, a.0);
}

} // verus!
