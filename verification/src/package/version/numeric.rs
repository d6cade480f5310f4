//! Numeric version fields of arbitrary width.
use crate::error::Error;
use crate::text::{
    all_digits, chars_of, copy_string, digits_value, is_digit, is_digits, is_digits_range, lemma_lex_order_props, lemma_lex_order_trans,
    lex_order, lex_order_range, sign, skip_leading, string_from, strip_leading,
};
use vstd::prelude::*;

verus! {

/// Numeric comparison of two digit strings: leading zeros are ignored, a longer
/// remainder is greater, equal lengths compare digit by digit.
pub open spec fn numeric_order(a: Seq<char>, b: Seq<char>) -> int {
    let x = strip_leading(a, '0');
    let y = strip_leading(b, '0');
    if x.len() != y.len() {
        sign(x.len() - y.len())
    } else {
        lex_order(x, y)
    }
}

/// Ten to the power `n`.
pub open spec fn pow10(n: nat) -> nat
    decreases n,
{
    if n == 0 {
        1
    } else {
        10 * pow10((n - 1) as nat)
    }
}

/// Powers of ten grow with the exponent.
proof fn lemma_pow10_mono(m: nat, n: nat)
    requires
        m <= n,
    ensures
        pow10(m) <= pow10(n),
    decreases n,
{
    if m < n {
        lemma_pow10_mono(m, (n - 1) as nat);
    }
}

/// The value of digits read from the front: the first digit counts `10^(len-1)` times.
proof fn lemma_value_front(s: Seq<char>)
    requires
        s.len() > 0,
        all_digits(s),
    ensures
        digits_value(s) == ((s[0] as nat) - ('0' as nat)) * pow10((s.len() - 1) as nat)
            + digits_value(s.drop_first()),
    decreases s.len(),
{
    let f: int = (s[0] as nat) - ('0' as nat);
    assert(is_digit(s[0]));
    if s.len() == 1 {
        assert(s.drop_last().len() == 0);
        assert(s.drop_first().len() == 0);
        assert(digits_value(s.drop_last()) == 0);
        assert(digits_value(s.drop_first()) == 0);
        assert(s.last() == s[0]);
        assert(pow10(0) == 1);
        assert(digits_value(s) == f);
        assert(f * pow10(0) == f);
    } else {
        let p = s.drop_last();
        assert(all_digits(p)) by {
            assert forall|i: int| 0 <= i < p.len() implies is_digit(#[trigger] p[i]) by {
                assert(p[i] == s[i]);
            }
        }
        lemma_value_front(p);
        assert(p[0] == s[0]);
        assert(p.drop_first() == s.drop_first().drop_last());
        let n = (s.len() - 1) as nat;
        let q = pow10((n - 1) as nat);
        assert(pow10(n) == 10 * q);
        let mid = digits_value(p.drop_first());
        let last: int = (s.last() as nat) - ('0' as nat);
        assert(s.drop_first().last() == s.last());
        assert(digits_value(s.drop_first()) == mid * 10 + last);
        assert(digits_value(s) == digits_value(p) * 10 + last);
        assert(digits_value(p) == f * q + mid);
        assert((f * q + mid) * 10 + last == f * (10 * q) + (mid * 10 + last)) by (nonlinear_arith);
        assert(digits_value(s) == f * pow10(n) + digits_value(s.drop_first()));
    }
}

/// The value of `len` digits is below `10^len`.
proof fn lemma_value_below(s: Seq<char>)
    requires
        all_digits(s),
    ensures
        digits_value(s) < pow10(s.len()),
    decreases s.len(),
{
    if s.len() > 0 {
        let p = s.drop_last();
        assert(all_digits(p)) by {
            assert forall|i: int| 0 <= i < p.len() implies is_digit(#[trigger] p[i]) by {
                assert(p[i] == s[i]);
            }
        }
        lemma_value_below(p);
        assert(is_digit(s[s.len() - 1]));
        let v = digits_value(p);
        let q = pow10(p.len());
        let last: int = (s.last() as nat) - ('0' as nat);
        assert(pow10(s.len()) == 10 * q);
        assert(v < q && 0 <= last <= 9 ==> v * 10 + last < 10 * q) by (nonlinear_arith);
    }
}

/// Leading zeros do not change the value, and what remains starts with a non-zero digit.
proof fn lemma_strip_zeros(s: Seq<char>)
    requires
        all_digits(s),
    ensures
        all_digits(strip_leading(s, '0')),
        digits_value(strip_leading(s, '0')) == digits_value(s),
        strip_leading(s, '0').len() > 0 ==> strip_leading(s, '0')[0] != '0',
    decreases s.len(),
{
    if s.len() > 0 && s[0] == '0' {
        let t = s.drop_first();
        assert(all_digits(t)) by {
            assert forall|i: int| 0 <= i < t.len() implies is_digit(#[trigger] t[i]) by {
                assert(t[i] == s[i + 1]);
            }
        }
        lemma_strip_zeros(t);
        lemma_value_front(s);
        assert(((s[0] as nat) - ('0' as nat)) == 0);
    }
}

/// Equal-length digit runs compare by value as they compare character by character.
proof fn lemma_lex_is_value_order(a: Seq<char>, b: Seq<char>)
    requires
        all_digits(a),
        all_digits(b),
        a.len() == b.len(),
    ensures
        lex_order(a, b) == sign(digits_value(a) - digits_value(b)),
    decreases a.len(),
{
    if a.len() > 0 {
        let ta = a.drop_first();
        let tb = b.drop_first();
        assert(all_digits(ta)) by {
            assert forall|i: int| 0 <= i < ta.len() implies is_digit(#[trigger] ta[i]) by {
                assert(ta[i] == a[i + 1]);
            }
        }
        assert(all_digits(tb)) by {
            assert forall|i: int| 0 <= i < tb.len() implies is_digit(#[trigger] tb[i]) by {
                assert(tb[i] == b[i + 1]);
            }
        }
        lemma_value_front(a);
        lemma_value_front(b);
        lemma_value_below(ta);
        lemma_value_below(tb);
        lemma_lex_is_value_order(ta, tb);
        assert(is_digit(a[0]) && is_digit(b[0]));
        let fa: int = (a[0] as nat) - ('0' as nat);
        let fb: int = (b[0] as nat) - ('0' as nat);
        let p = pow10(ta.len());
        let ra = digits_value(ta);
        let rb = digits_value(tb);
        assert(ta.len() == (a.len() - 1) as nat);
        if a[0] < b[0] {
            assert(fa < fb);
            assert(0 <= ra < p && 0 <= rb < p && fa < fb ==> fa * p + ra < fb * p + rb) by (nonlinear_arith);
        } else if a[0] > b[0] {
            assert(fa > fb);
            assert(0 <= ra < p && 0 <= rb < p && fa > fb ==> fa * p + ra > fb * p + rb) by (nonlinear_arith);
        } else {
            assert(fa == fb);
        }
    }
}

/// Numeric comparison of two runs of digits is the order of the natural numbers they
/// write: leading zeros are ignored and no width limits the value.
pub proof fn lemma_numeric_order_is_value_order(a: Seq<char>, b: Seq<char>)
    requires
        all_digits(a),
        all_digits(b),
    ensures
        numeric_order(a, b) == sign(digits_value(a) - digits_value(b)),
{
    let x = strip_leading(a, '0');
    let y = strip_leading(b, '0');
    lemma_strip_zeros(a);
    lemma_strip_zeros(b);
    lemma_value_below(x);
    lemma_value_below(y);
    if x.len() < y.len() {
        lemma_value_front(y);
        assert(is_digit(y[0]) && y[0] != '0');
        let fy: int = (y[0] as nat) - ('0' as nat);
        let p = pow10((y.len() - 1) as nat);
        assert(fy >= 1 && digits_value(y.drop_first()) >= 0 ==> fy * p + digits_value(y.drop_first()) >= p) by (nonlinear_arith);
        lemma_pow10_mono(x.len(), (y.len() - 1) as nat);
    } else if x.len() > y.len() {
        lemma_value_front(x);
        assert(is_digit(x[0]) && x[0] != '0');
        let fx: int = (x[0] as nat) - ('0' as nat);
        let p = pow10((x.len() - 1) as nat);
        assert(fx >= 1 && digits_value(x.drop_first()) >= 0 ==> fx * p + digits_value(x.drop_first()) >= p) by (nonlinear_arith);
        lemma_pow10_mono(y.len(), (x.len() - 1) as nat);
    } else {
        lemma_lex_is_value_order(x, y);
    }
}

/// A numeric value without a fixed width that uses numeric comparison.
#[derive(Debug, Clone)]
pub struct NumericComponent {
    raw: String,
}

impl View for NumericComponent {
    type V = Seq<char>;

    closed spec fn view(&self) -> Seq<char> {
        self.raw@
    }
}

impl NumericComponent {
    /// Creates a [`NumericComponent`] from the given `value`.
    ///
    /// Fails if the value is empty or contains a character that is not an ASCII digit.
    pub fn new(value: &str) -> (r: Result<Self, Error>)
        ensures
            r is Ok <==> is_digits(value@),
            r matches Ok(n) ==> n@ == value@,
    {
        let v = chars_of(value);
        if !is_digits_range(&v, 0, v.len()) {
            assert(v@.subrange(0, v@.len() as int) == v@);
            return Err(Error::with_subject("invalid numeric component", value));
        }
        assert(v@.subrange(0, v@.len() as int) == v@);
        Ok(Self::new_unchecked(value))
    }

    /// Creates a [`NumericComponent`] from the given `value` without validation.
    pub fn new_unchecked(value: &str) -> (r: Self)
        ensures
            r@ == value@,
    {
        NumericComponent { raw: value.to_owned() }
    }

    /// Creates a [`NumericComponent`] from the characters `v[from..to]`.
    pub fn from_range(v: &Vec<char>, from: usize, to: usize) -> (r: Self)
        requires
            from <= to <= v.len(),
        ensures
            r@ == v@.subrange(from as int, to as int),
    {
        NumericComponent { raw: string_from(v, from, to) }
    }

    /// Returns `true` if the numeric component is zero.
    pub fn is_zero(&self) -> (r: bool)
        ensures
            r == (strip_leading(self@, '0').len() == 0),
    {
        let v = chars_of(self.raw.as_str());
        let k = skip_leading(&v, 0, v.len(), '0');
        assert(v@.subrange(0, v@.len() as int) == v@);
        k == v.len()
    }

    /// Returns the value without leading zeros, as used for comparison.
    pub fn normalized(&self) -> (r: String)
        ensures
            r@ == strip_leading(self@, '0'),
    {
        let v = chars_of(self.raw.as_str());
        let k = skip_leading(&v, 0, v.len(), '0');
        assert(v@.subrange(0, v@.len() as int) == v@);
        string_from(&v, k, v.len())
    }

    /// Returns the raw inner value.
    pub fn as_str(&self) -> (r: &str)
        ensures
            r@ == self@,
    {
        self.raw.as_str()
    }

    /// Returns the digits as written.
    pub fn to_string(&self) -> (r: String)
        ensures
            r@ == self@,
    {
        self.raw.clone()
    }

    /// Returns a copy of this component.
    pub fn copy(&self) -> (r: Self)
        ensures
            r@ == self@,
    {
        NumericComponent { raw: copy_string(&self.raw) }
    }

    /// Compares two components numerically: -1, 0 or 1.
    pub fn order(&self, other: &Self) -> (r: i8)
        ensures
            r as int == numeric_order(self@, other@),
    {
        numeric_order_exec(self.raw.as_str(), other.raw.as_str())
    }

    /// Returns `true` if both components denote the same number.
    pub fn same_number(&self, other: &Self) -> (r: bool)
        ensures
            r == (numeric_order(self@, other@) == 0),
    {
        self.order(other) == 0
    }
}

/// Numeric comparison of two digit strings given as string slices.
pub fn numeric_order_exec(a: &str, b: &str) -> (r: i8)
    ensures
        r as int == numeric_order(a@, b@),
{
    let x = chars_of(a);
    let y = chars_of(b);
    let i = skip_leading(&x, 0, x.len(), '0');
    let j = skip_leading(&y, 0, y.len(), '0');
    assert(x@.subrange(0, x@.len() as int) == x@);
    assert(y@.subrange(0, y@.len() as int) == y@);
    let lx = x.len() - i;
    let ly = y.len() - j;
    if lx < ly {
        -1
    } else if lx > ly {
        1
    } else {
        lex_order_range(&x, i, x.len(), &y, j, y.len())
    }
}

/// Properties of the numeric comparison.
pub proof fn lemma_numeric_order(a: Seq<char>, b: Seq<char>)
    ensures
        numeric_order(a, b) == -numeric_order(b, a),
        -1 <= numeric_order(a, b) <= 1,
        numeric_order(a, a) == 0,
{
    lemma_lex_order_props(strip_leading(a, '0'), strip_leading(b, '0'));
    lemma_lex_order_props(strip_leading(a, '0'), strip_leading(a, '0'));
}

/// Transitivity of the numeric comparison.
pub proof fn lemma_numeric_order_trans(a: Seq<char>, b: Seq<char>, c: Seq<char>)
    requires
        numeric_order(a, b) <= 0,
        numeric_order(b, c) <= 0,
    ensures
        numeric_order(a, c) <= 0,
        numeric_order(a, b) < 0 || numeric_order(b, c) < 0 ==> numeric_order(a, c) < 0,
{
    let x = strip_leading(a, '0');
    let y = strip_leading(b, '0');
    let z = strip_leading(c, '0');
    if x.len() == y.len() && y.len() == z.len() {
        lemma_lex_order_trans(x, y, z);
    }
    lemma_lex_order_props(x, y);
    lemma_lex_order_props(y, z);
    lemma_lex_order_props(x, z);
}

} // verus!
