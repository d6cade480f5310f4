//! Character classes, sequence helpers and string conversions shared by all parsers.
use vstd::prelude::*;

verus! {

/// ASCII digit `0-9`.
pub open spec fn is_digit(c: char) -> bool {
    '0' <= c && c <= '9'
}

/// ASCII lower case letter `a-z`.
pub open spec fn is_lower(c: char) -> bool {
    'a' <= c && c <= 'z'
}

/// ASCII upper case letter `A-Z`.
pub open spec fn is_upper(c: char) -> bool {
    'A' <= c && c <= 'Z'
}

/// ASCII letter.
pub open spec fn is_alpha(c: char) -> bool {
    is_lower(c) || is_upper(c)
}

/// ASCII letter or digit.
pub open spec fn is_alnum(c: char) -> bool {
    is_alpha(c) || is_digit(c)
}

/// The whitespace characters recognized by the parsers.
pub open spec fn is_space(c: char) -> bool {
    c == ' ' || c == '\t' || c == '\n' || c == '\r' || c == '\x0b' || c == '\x0c'
}

/// The characters with the Unicode `White_Space` property, those for which
/// `char::is_whitespace` holds.
pub open spec fn is_unicode_ws(c: char) -> bool {
    ('\u{9}' <= c && c <= '\u{d}') || c == ' ' || c == '\u{85}' || c == '\u{a0}' || c == '\u{1680}'
        || ('\u{2000}' <= c && c <= '\u{200a}') || c == '\u{2028}' || c == '\u{2029}'
        || c == '\u{202f}' || c == '\u{205f}' || c == '\u{3000}'
}

/// Every character of `s` is Unicode whitespace.
pub open spec fn all_unicode_ws(s: Seq<char>) -> bool {
    forall|i: int| 0 <= i < s.len() ==> is_unicode_ws(#[trigger] s[i])
}

/// Every character of `s` is an ASCII digit.
pub open spec fn all_digits(s: Seq<char>) -> bool {
    forall|i: int| 0 <= i < s.len() ==> is_digit(#[trigger] s[i])
}

/// A non-empty run of ASCII digits.
pub open spec fn is_digits(s: Seq<char>) -> bool {
    s.len() > 0 && all_digits(s)
}

/// Three-way lexicographic comparison of two character sequences: -1, 0 or 1.
pub open spec fn lex_order(a: Seq<char>, b: Seq<char>) -> int
    decreases a.len(),
{
    if a.len() == 0 {
        if b.len() == 0 {
            0
        } else {
            -1
        }
    } else if b.len() == 0 {
        1
    } else if a[0] < b[0] {
        -1
    } else if a[0] > b[0] {
        1
    } else {
        lex_order(a.drop_first(), b.drop_first())
    }
}

/// `s` without its leading occurrences of `c`.
pub open spec fn strip_leading(s: Seq<char>, c: char) -> Seq<char>
    decreases s.len(),
{
    if s.len() > 0 && s[0] == c {
        strip_leading(s.drop_first(), c)
    } else {
        s
    }
}

/// `s` without its trailing occurrences of `c`.
pub open spec fn strip_trailing(s: Seq<char>, c: char) -> Seq<char>
    decreases s.len(),
{
    if s.len() > 0 && s.last() == c {
        strip_trailing(s.drop_last(), c)
    } else {
        s
    }
}

/// Sign of an integer difference, as -1, 0 or 1.
pub open spec fn sign(d: int) -> int {
    if d < 0 {
        -1
    } else if d > 0 {
        1
    } else {
        0
    }
}

/// `c` occurs in `s`.
pub open spec fn has_char(s: Seq<char>, c: char) -> bool {
    exists|i: int| 0 <= i < s.len() && s[i] == c
}

/// Index of the first occurrence of `c` in `s`, if any.
pub open spec fn first_index(s: Seq<char>, c: char) -> Option<int>
    decreases s.len(),
{
    if s.len() == 0 {
        None
    } else if s[0] == c {
        Some(0)
    } else {
        match first_index(s.drop_first(), c) {
            Some(i) => Some(i + 1),
            None => None,
        }
    }
}

/// Properties of [`first_index`].
pub proof fn lemma_first_index(s: Seq<char>, c: char)
    ensures
        match first_index(s, c) {
            Some(i) => 0 <= i < s.len() && s[i] == c && forall|j: int|
                0 <= j < i ==> s[j] != c,
            None => forall|j: int| 0 <= j < s.len() ==> s[j] != c,
        },
    decreases s.len(),
{
    if s.len() > 0 && s[0] != c {
        lemma_first_index(s.drop_first(), c);
        match first_index(s.drop_first(), c) {
            Some(i) => {
                assert forall|j: int| 0 <= j < i + 1 implies s[j] != c by {
                    if j > 0 {
                        assert(s[j] == s.drop_first()[j - 1]);
                    }
                }
            },
            None => {
                assert forall|j: int| 0 <= j < s.len() implies s[j] != c by {
                    if j > 0 {
                        assert(s[j] == s.drop_first()[j - 1]);
                    }
                }
            },
        }
    }
}

/// Any index with the stated properties is the one [`first_index`] gives.
pub proof fn lemma_first_index_unique(s: Seq<char>, c: char, i: int)
    requires
        0 <= i < s.len(),
        s[i] == c,
        forall|j: int| 0 <= j < i ==> s[j] != c,
    ensures
        first_index(s, c) == Some(i),
{
    lemma_first_index(s, c);
}

/// A sequence with no occurrence of `c` has no [`first_index`].
pub proof fn lemma_first_index_none(s: Seq<char>, c: char)
    requires
        forall|j: int| 0 <= j < s.len() ==> s[j] != c,
    ensures
        first_index(s, c) == None::<int>,
{
    lemma_first_index(s, c);
}

/// Collects the characters of `s` into a vector.
pub fn chars_of(s: &str) -> (v: Vec<char>)
    ensures
        v@ == s@,
{
    let mut v: Vec<char> = Vec::new();
    for c in it: s.chars()
        invariant
            v@ == it.seq().take(it.index() as int),
            it.seq() == s@,
    {
        v.push(c);
    }
    v
}

/// Appends the character `c` to `s`.
#[verifier::external_body]
pub fn push_char(s: &mut String, c: char)
    ensures
        final(s)@ == old(s)@.push(c),
{
    s.push(c);
}

/// Builds a string from the characters `v[from..to]`.
pub fn string_from(v: &Vec<char>, from: usize, to: usize) -> (s: String)
    requires
        from <= to <= v.len(),
    ensures
        s@ == v@.subrange(from as int, to as int),
{
    let mut s = String::new();
    let mut i = from;
    while i < to
        invariant
            from <= i <= to <= v.len(),
            s@ == v@.subrange(from as int, i as int),
        decreases to - i,
    {
        push_char(&mut s, v[i]);
        assert(v@.subrange(from as int, i + 1) == v@.subrange(from as int, i as int).push(v@[i as int]));
        i += 1;
    }
    s
}

/// Builds a string holding all characters of `v`.
pub fn string_of(v: &Vec<char>) -> (s: String)
    ensures
        s@ == v@,
{
    let s = string_from(v, 0, v.len());
    assert(v@.subrange(0, v@.len() as int) == v@);
    s
}

/// Appends the string `t` to `s`.
pub fn append_str(s: &mut String, t: &str)
    ensures
        final(s)@ == old(s)@ + t@,
{
    s.append(t);
}

/// Copies a string.
pub fn copy_string(s: &String) -> (r: String)
    ensures
        r@ == s@,
{
    s.clone()
}

/// Returns `true` if `c` is an ASCII digit.
pub fn is_digit_char(c: char) -> (r: bool)
    ensures
        r == is_digit(c),
{
    '0' <= c && c <= '9'
}

/// Returns `true` if `c` is an ASCII lower case letter.
pub fn is_lower_char(c: char) -> (r: bool)
    ensures
        r == is_lower(c),
{
    'a' <= c && c <= 'z'
}

/// Returns `true` if `c` is an ASCII letter.
pub fn is_alpha_char(c: char) -> (r: bool)
    ensures
        r == is_alpha(c),
{
    ('a' <= c && c <= 'z') || ('A' <= c && c <= 'Z')
}

/// Returns `true` if `c` is an ASCII letter or digit.
pub fn is_alnum_char(c: char) -> (r: bool)
    ensures
        r == is_alnum(c),
{
    is_alpha_char(c) || is_digit_char(c)
}

/// Returns `true` if `c` is whitespace.
pub fn is_space_char(c: char) -> (r: bool)
    ensures
        r == is_space(c),
{
    c == ' ' || c == '\t' || c == '\n' || c == '\r' || c == '\x0b' || c == '\x0c'
}

/// Returns `true` if `c` has the Unicode `White_Space` property.
pub fn is_unicode_ws_char(c: char) -> (r: bool)
    ensures
        r == is_unicode_ws(c),
{
    ('\u{9}' <= c && c <= '\u{d}') || c == ' ' || c == '\u{85}' || c == '\u{a0}' || c == '\u{1680}'
        || ('\u{2000}' <= c && c <= '\u{200a}') || c == '\u{2028}' || c == '\u{2029}'
        || c == '\u{202f}' || c == '\u{205f}' || c == '\u{3000}'
}

/// Returns `true` if every character of `s` is Unicode whitespace.
pub fn is_blank(s: &str) -> (r: bool)
    ensures
        r == all_unicode_ws(s@),
{
    let v = chars_of(s);
    let mut i: usize = 0;
    while i < v.len()
        invariant
            0 <= i <= v@.len(),
            v@ == s@,
            forall|j: int| 0 <= j < i ==> is_unicode_ws(v@[j]),
        decreases v.len() - i,
    {
        if !is_unicode_ws_char(v[i]) {
            return false;
        }
        i += 1;
    }
    true
}

/// Returns `true` if `v[from..to]` is a non-empty run of digits.
pub fn is_digits_range(v: &Vec<char>, from: usize, to: usize) -> (r: bool)
    requires
        from <= to <= v.len(),
    ensures
        r == is_digits(v@.subrange(from as int, to as int)),
{
    if from == to {
        return false;
    }
    let mut i = from;
    while i < to
        invariant
            from <= i <= to <= v.len(),
            forall|j: int| from <= j < i ==> is_digit(v@[j]),
        decreases to - i,
    {
        if !is_digit_char(v[i]) {
            assert(!is_digit(v@.subrange(from as int, to as int)[i - from]));
            return false;
        }
        i += 1;
    }
    assert forall|j: int| 0 <= j < v@.subrange(from as int, to as int).len() implies is_digit(
        #[trigger] v@.subrange(from as int, to as int)[j],
    ) by {
        assert(v@.subrange(from as int, to as int)[j] == v@[from + j]);
    }
    true
}

/// Returns `true` if `a` and `b` hold the same characters.
pub fn seq_eq(a: &Vec<char>, b: &Vec<char>) -> (r: bool)
    ensures
        r == (a@ == b@),
{
    if a.len() != b.len() {
        return false;
    }
    let mut i: usize = 0;
    while i < a.len()
        invariant
            a.len() == b.len(),
            0 <= i <= a.len(),
            forall|j: int| 0 <= j < i ==> a@[j] == b@[j],
        decreases a.len() - i,
    {
        if a[i] != b[i] {
            return false;
        }
        i += 1;
    }
    assert(a@ =~= b@);
    true
}

/// Returns `true` if the strings `a` and `b` are equal.
pub fn str_eq(a: &str, b: &str) -> (r: bool)
    ensures
        r == (a@ == b@),
{
    let x = chars_of(a);
    let y = chars_of(b);
    seq_eq(&x, &y)
}

/// Lexicographic comparison of `a[af..at]` and `b[bf..bt]`.
pub fn lex_order_range(a: &Vec<char>, af: usize, at: usize, b: &Vec<char>, bf: usize, bt: usize) -> (r: i8)
    requires
        af <= at <= a.len(),
        bf <= bt <= b.len(),
    ensures
        r as int == lex_order(a@.subrange(af as int, at as int), b@.subrange(bf as int, bt as int)),
    decreases at - af,
{
    let ghost x = a@.subrange(af as int, at as int);
    let ghost y = b@.subrange(bf as int, bt as int);
    if af == at {
        if bf == bt {
            0
        } else {
            -1
        }
    } else if bf == bt {
        1
    } else if a[af] < b[bf] {
        -1
    } else if a[af] > b[bf] {
        1
    } else {
        assert(x.drop_first() == a@.subrange(af + 1, at as int));
        assert(y.drop_first() == b@.subrange(bf + 1, bt as int));
        lex_order_range(a, af + 1, at, b, bf + 1, bt)
    }
}

/// Lexicographic comparison of `a` and `b`.
pub fn lex_order_vec(a: &Vec<char>, b: &Vec<char>) -> (r: i8)
    ensures
        r as int == lex_order(a@, b@),
{
    assert(a@.subrange(0, a@.len() as int) == a@);
    assert(b@.subrange(0, b@.len() as int) == b@);
    lex_order_range(a, 0, a.len(), b, 0, b.len())
}

/// Properties of the lexicographic comparison.
pub proof fn lemma_lex_order_props(a: Seq<char>, b: Seq<char>)
    ensures
        lex_order(a, b) == -lex_order(b, a),
        (lex_order(a, b) == 0) <==> (a == b),
        -1 <= lex_order(a, b) <= 1,
    decreases a.len(),
{
    if a.len() > 0 && b.len() > 0 && a[0] == b[0] {
        lemma_lex_order_props(a.drop_first(), b.drop_first());
        if a.drop_first() == b.drop_first() {
            assert(a == seq![a[0]] + a.drop_first());
            assert(b == seq![b[0]] + b.drop_first());
        }
        if a == b {
            assert(a.drop_first() == b.drop_first());
        }
    } else if a.len() == 0 && b.len() == 0 {
        assert(a == b);
    }
}

/// Transitivity of the lexicographic comparison.
pub proof fn lemma_lex_order_trans(a: Seq<char>, b: Seq<char>, c: Seq<char>)
    requires
        lex_order(a, b) <= 0,
        lex_order(b, c) <= 0,
    ensures
        lex_order(a, c) <= 0,
        lex_order(a, b) < 0 || lex_order(b, c) < 0 ==> lex_order(a, c) < 0,
    decreases a.len(),
{
    if a.len() > 0 && b.len() > 0 && c.len() > 0 && a[0] == b[0] && b[0] == c[0] {
        lemma_lex_order_trans(a.drop_first(), b.drop_first(), c.drop_first());
    }
}

/// Start of `v[from..to]` once its leading `c` characters are skipped.
pub fn skip_leading(v: &Vec<char>, from: usize, to: usize, c: char) -> (k: usize)
    requires
        from <= to <= v.len(),
    ensures
        from <= k <= to,
        v@.subrange(k as int, to as int) == strip_leading(v@.subrange(from as int, to as int), c),
{
    let mut i = from;
    while i < to && v[i] == c
        invariant
            from <= i <= to <= v.len(),
            strip_leading(v@.subrange(from as int, to as int), c) == strip_leading(
                v@.subrange(i as int, to as int),
                c,
            ),
        decreases to - i,
    {
        assert(v@.subrange(i as int, to as int).drop_first() == v@.subrange(i + 1, to as int));
        i += 1;
    }
    i
}

/// End of `v[from..to]` once its trailing `c` characters are dropped.
pub fn skip_trailing(v: &Vec<char>, from: usize, to: usize, c: char) -> (k: usize)
    requires
        from <= to <= v.len(),
    ensures
        from <= k <= to,
        v@.subrange(from as int, k as int) == strip_trailing(v@.subrange(from as int, to as int), c),
{
    let mut i = to;
    while i > from && v[i - 1] == c
        invariant
            from <= i <= to <= v.len(),
            strip_trailing(v@.subrange(from as int, to as int), c) == strip_trailing(
                v@.subrange(from as int, i as int),
                c,
            ),
        decreases i - from,
    {
        assert(v@.subrange(from as int, i as int).drop_last() == v@.subrange(from as int, i - 1));
        i -= 1;
    }
    i
}

/// Returns `true` if `v[from..to]` equals the word `w`.
pub fn range_eq(v: &Vec<char>, from: usize, to: usize, w: &[char]) -> (r: bool)
    requires
        from <= to <= v.len(),
    ensures
        r == (v@.subrange(from as int, to as int) == w@),
{
    if to - from != w.len() {
        return false;
    }
    let mut i: usize = 0;
    while i < w.len()
        invariant
            to - from == w@.len(),
            from <= to <= v.len(),
            0 <= i <= w@.len(),
            forall|j: int| 0 <= j < i ==> v@[from + j] == w@[j],
        decreases w.len() - i,
    {
        if v[from + i] != w[i] {
            assert(v@.subrange(from as int, to as int)[i as int] != w@[i as int]);
            return false;
        }
        i += 1;
    }
    assert(v@.subrange(from as int, to as int) =~= w@);
    true
}

/// End of the part of `s` before its first `c`.
pub open spec fn end_before(s: Seq<char>, c: char) -> int {
    match first_index(s, c) {
        Some(k) => k,
        None => s.len() as int,
    }
}

/// Bounds of [`end_before`].
pub proof fn lemma_end_before(s: Seq<char>, c: char)
    ensures
        0 <= end_before(s, c) <= s.len(),
        forall|i: int| 0 <= i < end_before(s, c) ==> s[i] != c,
        end_before(s, c) < s.len() ==> s[end_before(s, c)] == c,
{
    lemma_first_index(s, c);
}

/// Returns the end of `v[from..to]` before its first `c`.
pub fn find_char(v: &Vec<char>, from: usize, to: usize, c: char) -> (k: usize)
    requires
        from <= to <= v.len(),
    ensures
        from <= k <= to,
        k - from == end_before(v@.subrange(from as int, to as int), c),
{
    let mut k = from;
    while k < to && v[k] != c
        invariant
            from <= k <= to <= v.len(),
            forall|j: int| from <= j < k ==> v@[j] != c,
        decreases to - k,
    {
        k += 1;
    }
    proof {
        let s = v@.subrange(from as int, to as int);
        if k < to {
            lemma_first_index_unique(s, c, k - from);
        } else {
            lemma_first_index_none(s, c);
        }
    }
    k
}

/// Value of a run of decimal digits.
pub open spec fn digits_value(s: Seq<char>) -> nat
    decreases s.len(),
{
    if s.len() == 0 {
        0
    } else {
        digits_value(s.drop_last()) * 10 + ((s.last() as nat) - ('0' as nat)) as nat
    }
}

/// The `usize` written in `s`: an optional `+` and decimal digits, without overflow.
pub open spec fn parse_usize_spec(s: Seq<char>) -> Option<usize> {
    let d = if s.len() > 0 && s[0] == '+' {
        s.skip(1)
    } else {
        s
    };
    if is_digits(d) && digits_value(d) <= usize::MAX {
        Some(digits_value(d) as usize)
    } else {
        None
    }
}

/// A longer run of digits has a value at least as large as any prefix of it.
proof fn lemma_digits_value_prefix(s: Seq<char>, i: int)
    requires
        0 <= i <= s.len(),
        all_digits(s),
    ensures
        digits_value(s.take(i)) <= digits_value(s),
    decreases s.len() - i,
{
    if i < s.len() {
        lemma_digits_value_prefix(s, i + 1);
        assert(s.take(i + 1).drop_last() == s.take(i));
    } else {
        assert(s.take(i) == s);
    }
}

/// Reads the `usize` written in `v[from..to]`.
pub fn parse_usize(v: &Vec<char>, from: usize, to: usize) -> (r: Option<usize>)
    requires
        from <= to <= v.len(),
    ensures
        r == parse_usize_spec(v@.subrange(from as int, to as int)),
{
    let ghost s = v@.subrange(from as int, to as int);
    let start = if to > from && v[from] == '+' {
        from + 1
    } else {
        from
    };
    proof {
        if to > from {
            assert(s[0] == v@[from as int]);
        }
    }
    let ghost d = v@.subrange(start as int, to as int);
    assert(d == if s.len() > 0 && s[0] == '+' { s.skip(1) } else { s });
    if !is_digits_range(v, start, to) {
        return None;
    }
    let mut acc: usize = 0;
    let mut i = start;
    while i < to
        invariant
            start <= i <= to <= v.len(),
            d == v@.subrange(start as int, to as int),
            s == v@.subrange(from as int, to as int),
            d == if s.len() > 0 && s[0] == '+' {
                s.skip(1)
            } else {
                s
            },
            is_digits(d),
            acc == digits_value(d.take(i - start)),
        decreases to - i,
    {
        assert(d.take(i - start + 1).drop_last() == d.take(i - start));
        assert(d.take(i - start + 1).last() == v@[i as int]);
        assert(is_digit(d[i - start]));
        let digit = (v[i] as u32 - '0' as u32) as usize;
        assert(digit == (v@[i as int] as nat) - ('0' as nat));
        let next = match acc.checked_mul(10) {
            Some(x) => x.checked_add(digit),
            None => None,
        };
        match next {
            Some(x) => {
                acc = x;
            },
            None => {
                proof {
                    lemma_digits_value_prefix(d, i - start + 1);
                    assert(digits_value(d.take(i - start + 1)) == acc * 10 + digit);
                    assert(acc * 10 + digit > usize::MAX);
                }
                return None;
            },
        }
        i += 1;
    }
    assert(d.take(i - start) == d);
    Some(acc)
}

/// Words joined by single spaces.
pub open spec fn join_words(words: Seq<Seq<char>>) -> Seq<char>
    decreases words.len(),
{
    if words.len() == 0 {
        Seq::empty()
    } else if words.len() == 1 {
        words[0]
    } else {
        join_words(words.drop_last()) + seq![' '] + words.last()
    }
}


/// The texts of a list of strings.
pub open spec fn texts(v: Seq<String>) -> Seq<Seq<char>> {
    v.map_values(|s: String| s@)
}

/// The ASCII whitespace that separates words: space, tab, line feed, form feed, carriage
/// return.
pub open spec fn is_ascii_ws(c: char) -> bool {
    c == ' ' || c == '\t' || c == '\n' || c == '\x0c' || c == '\r'
}

/// The separators of words: ASCII whitespace, or all Unicode whitespace where `unicode`.
pub open spec fn is_sep(c: char, unicode: bool) -> bool {
    if unicode {
        is_unicode_ws(c)
    } else {
        is_ascii_ws(c)
    }
}

/// Returns `true` if `c` separates words.
pub fn is_sep_char(c: char, unicode: bool) -> (r: bool)
    ensures
        r == is_sep(c, unicode),
{
    if unicode {
        is_unicode_ws_char(c)
    } else {
        c == ' ' || c == '\t' || c == '\n' || c == '\x0c' || c == '\r'
    }
}

/// Length of the word at the start of `s`.
pub open spec fn word_len(s: Seq<char>, unicode: bool) -> nat
    decreases s.len(),
{
    if s.len() > 0 && !is_sep(s[0], unicode) {
        1 + word_len(s.drop_first(), unicode)
    } else {
        0
    }
}

/// A word is no longer than the text and holds no separator.
pub proof fn lemma_word_len(s: Seq<char>, unicode: bool)
    ensures
        word_len(s, unicode) <= s.len(),
        forall|i: int| 0 <= i < word_len(s, unicode) ==> !is_sep(#[trigger] s[i], unicode),
        word_len(s, unicode) < s.len() ==> is_sep(s[word_len(s, unicode) as int], unicode),
        s.len() > 0 && !is_sep(s[0], unicode) ==> word_len(s, unicode) >= 1,
    decreases s.len(),
{
    if s.len() > 0 && !is_sep(s[0], unicode) {
        lemma_word_len(s.drop_first(), unicode);
        assert forall|i: int| 0 <= i < word_len(s, unicode) implies !is_sep(#[trigger] s[i], unicode) by {
            if i > 0 {
                assert(s[i] == s.drop_first()[i - 1]);
            }
        }
    }
}

/// The words of `s`: its maximal runs of characters other than separators.
pub open spec fn split_by(s: Seq<char>, unicode: bool) -> Seq<Seq<char>>
    decreases s.len(),
{
    if s.len() == 0 {
        Seq::empty()
    } else if is_sep(s[0], unicode) {
        split_by(s.drop_first(), unicode)
    } else {
        let k = word_len(s, unicode);
        proof {
            lemma_word_len(s, unicode);
        }
        seq![s.take(k as int)] + split_by(s.skip(k as int), unicode)
    }
}

/// Returns the end of the word starting at `from` in `v[from..to]`.
fn word_end(v: &Vec<char>, from: usize, to: usize, unicode: bool) -> (k: usize)
    requires
        from <= to <= v.len(),
    ensures
        from <= k <= to,
        k - from == word_len(v@.subrange(from as int, to as int), unicode),
{
    let ghost s = v@.subrange(from as int, to as int);
    proof {
        lemma_word_len(s, unicode);
    }
    let mut k = from;
    while k < to && !is_sep_char(v[k], unicode)
        invariant
            from <= k <= to <= v.len(),
            s == v@.subrange(from as int, to as int),
            k - from <= word_len(s, unicode),
            word_len(s, unicode) <= s.len(),
            forall|i: int| 0 <= i < word_len(s, unicode) ==> !is_sep(#[trigger] s[i], unicode),
            word_len(s, unicode) < s.len() ==> is_sep(s[word_len(s, unicode) as int], unicode),
        decreases to - k,
    {
        assert(s[k - from] == v@[k as int]);
        k += 1;
    }
    proof {
        if k < to {
            assert(s[k - from] == v@[k as int]);
        }
    }
    k
}

/// The words of `text`, split at ASCII whitespace, or at all Unicode whitespace where
/// `unicode`.
pub fn split_text(text: &str, unicode: bool) -> (r: Vec<String>)
    ensures
        texts(r@) == split_by(text@, unicode),
{
    let v = chars_of(text);
    let n = v.len();
    let mut out: Vec<String> = Vec::new();
    let mut i: usize = 0;
    assert(v@.skip(0) == v@);
    assert(texts(out@) + split_by(v@.skip(0), unicode) =~= split_by(text@, unicode));
    while i < n
        invariant
            0 <= i <= n == v@.len(),
            v@ == text@,
            split_by(text@, unicode) == texts(out@) + split_by(v@.skip(i as int), unicode),
        decreases n - i,
    {
        let ghost s = v@.skip(i as int);
        assert(s[0] == v@[i as int]);
        if is_sep_char(v[i], unicode) {
            assert(s.drop_first() == v@.skip(i + 1));
            i += 1;
        } else {
            let k = word_end(&v, i, n, unicode);
            assert(s == v@.subrange(i as int, n as int));
            let w = string_from(&v, i, k);
            let ghost before = out@;
            out.push(w);
            proof {
                assert(s.take(k - i) == v@.subrange(i as int, k as int));
                assert(s.skip(k - i) == v@.skip(k as int));
                assert(texts(out@) =~= texts(before).push(v@.subrange(i as int, k as int)));
                assert(split_by(text@, unicode) =~= texts(out@) + split_by(v@.skip(k as int), unicode));
            }
            i = k;
        }
    }
    assert(v@.skip(n as int) =~= Seq::<char>::empty());
    assert(texts(out@) + Seq::<Seq<char>>::empty() =~= texts(out@));
    out
}


/// `s` without its leading Unicode whitespace.
pub open spec fn trim_start_ws(s: Seq<char>) -> Seq<char>
    decreases s.len(),
{
    if s.len() > 0 && is_unicode_ws(s[0]) {
        trim_start_ws(s.drop_first())
    } else {
        s
    }
}

/// `s` without its trailing Unicode whitespace.
pub open spec fn trim_end_ws(s: Seq<char>) -> Seq<char>
    decreases s.len(),
{
    if s.len() > 0 && is_unicode_ws(s.last()) {
        trim_end_ws(s.drop_last())
    } else {
        s
    }
}

/// `s` without its leading and trailing Unicode whitespace, as `str::trim` gives it.
pub open spec fn trim_ws(s: Seq<char>) -> Seq<char> {
    trim_end_ws(trim_start_ws(s))
}

/// Returns `s` without its leading and trailing Unicode whitespace.
pub fn trim(s: &str) -> (r: String)
    ensures
        r@ == trim_ws(s@),
{
    let v = chars_of(s);
    let n = v.len();
    let mut a: usize = 0;
    assert(v@.subrange(0, n as int) =~= v@);
    while a < n && is_unicode_ws_char(v[a])
        invariant
            0 <= a <= n == v@.len(),
            trim_start_ws(v@) == trim_start_ws(v@.subrange(a as int, n as int)),
        decreases n - a,
    {
        assert(v@.subrange(a + 1, n as int) =~= v@.subrange(a as int, n as int).drop_first());
        a += 1;
    }
    assert(v@.subrange(0, n as int) =~= v@);
    let mut b: usize = n;
    while b > a && is_unicode_ws_char(v[b - 1])
        invariant
            0 <= a <= b <= n == v@.len(),
            trim_end_ws(v@.subrange(a as int, n as int)) == trim_end_ws(v@.subrange(a as int, b as int)),
        decreases b - a,
    {
        assert(v@.subrange(a as int, b - 1) =~= v@.subrange(a as int, b as int).drop_last());
        b -= 1;
    }
    assert(trim_start_ws(v@) == v@.subrange(a as int, n as int));
    string_from(&v, a, b)
}


/// Returns the strings joined by single spaces.
pub fn join_strings(v: &[String]) -> (r: String)
    ensures
        r@ == join_words(texts(v@)),
{
    let mut s = String::new();
    let mut i: usize = 0;
    while i < v.len()
        invariant
            0 <= i <= v@.len(),
            s@ == join_words(texts(v@).subrange(0, i as int)),
        decreases v.len() - i,
    {
        if i > 0 {
            push_char(&mut s, ' ');
        }
        append_str(&mut s, v[i].as_str());
        proof {
            let sub = texts(v@).subrange(0, i + 1);
            assert(sub.drop_last() =~= texts(v@).subrange(0, i as int));
            assert(sub.last() == v@[i as int]@);
            assert(s@ =~= join_words(sub));
        }
        i += 1;
    }
    assert(texts(v@).subrange(0, i as int) == texts(v@));
    s
}

/// The lines of a text as `BufRead::lines` gives them: split at line feeds, a carriage
/// return before a line feed dropped, no empty line after a final line feed.
pub open spec fn content_lines(s: Seq<char>) -> Seq<Seq<char>>
    decreases s.len(),
{
    if s.len() == 0 {
        Seq::empty()
    } else {
        let k = end_before(s, '\n');
        if 0 <= k < s.len() {
            let line = s.take(k);
            seq![
                if line.len() > 0 && line.last() == '\r' {
                    line.drop_last()
                } else {
                    line
                },
            ] + content_lines(s.skip(k + 1))
        } else {
            seq![s]
        }
    }
}

/// Returns the lines of `text` as `str::lines` gives them.
pub fn split_lines(text: &str) -> (r: Vec<String>)
    ensures
        texts(r@) == content_lines(text@),
{
    let v = chars_of(text);
    let n = v.len();
    let mut out: Vec<String> = Vec::new();
    let mut i: usize = 0;
    assert(v@.skip(0) =~= v@);
    while i < n
        invariant
            0 <= i <= n == v@.len(),
            v@ == text@,
            content_lines(text@) == texts(out@) + content_lines(v@.skip(i as int)),
        decreases n - i,
    {
        let ghost rest = v@.skip(i as int);
        let k = find_char(&v, i, n, '\n');
        proof {
            lemma_end_before(rest, '\n');
            assert(v@.subrange(i as int, n as int) =~= rest);
        }
        let mut end = k;
        if k < n && k > i && v[k - 1] == '\r' {
            end = k - 1;
        }
        let line = string_from(&v, i, end);
        let ghost before = out@;
        proof {
            let kk = end_before(rest, '\n');
            assert(kk == k - i);
            let raw = rest.take(kk);
            assert(raw =~= v@.subrange(i as int, k as int));
            if k < n {
                assert(rest.skip(kk + 1) =~= v@.skip(k + 1));
                if raw.len() > 0 && raw.last() == '\r' {
                    assert(raw.drop_last() =~= line@);
                } else {
                    assert(raw =~= line@);
                }
                assert(content_lines(rest) == seq![line@] + content_lines(v@.skip(k + 1)));
            } else {
                assert(rest =~= line@);
                assert(content_lines(rest) == seq![line@]);
                assert(v@.skip(k as int) =~= Seq::<char>::empty());
            }
        }
        out.push(line);
        proof {
            assert(texts(out@) =~= texts(before).push(line@));
        }
        if k >= n {
            proof {
                assert(content_lines(v@.skip(n as int)) =~= Seq::<Seq<char>>::empty());
                assert(content_lines(text@) =~= texts(out@));
            }
            return out;
        }
        proof {
            assert(content_lines(text@) =~= texts(out@) + content_lines(v@.skip(k + 1)));
        }
        i = k + 1;
    }
    proof {
        assert(v@.skip(i as int) =~= Seq::<char>::empty());
        assert(content_lines(text@) =~= texts(out@));
    }
    out
}

/// `line` without a comment that starts at its first `#`, then trimmed.
pub open spec fn strip_comment(line: Seq<char>) -> Seq<char> {
    trim_ws(line.take(end_before(line, '#')))
}

/// Returns `line` without its comment, trimmed.
pub fn strip_line_comment(line: &str) -> (r: String)
    ensures
        r@ == strip_comment(line@),
{
    let v = chars_of(line);
    let n = v.len();
    let k = find_char(&v, 0, n, '#');
    proof {
        assert(v@.subrange(0, n as int) =~= v@);
        lemma_end_before(v@, '#');
    }
    let body = string_from(&v, 0, k);
    assert(body@ =~= v@.take(end_before(v@, '#')));
    trim(body.as_str())
}

/// The decimal digit of `d`, for `d < 10`.
pub open spec fn digit_char(d: nat) -> char {
    if d == 0 {
        '0'
    } else if d == 1 {
        '1'
    } else if d == 2 {
        '2'
    } else if d == 3 {
        '3'
    } else if d == 4 {
        '4'
    } else if d == 5 {
        '5'
    } else if d == 6 {
        '6'
    } else if d == 7 {
        '7'
    } else if d == 8 {
        '8'
    } else {
        '9'
    }
}

/// `n` written in decimal, without leading zeros.
pub open spec fn decimal(n: nat) -> Seq<char>
    decreases n,
{
    if n < 10 {
        seq![digit_char(n)]
    } else {
        decimal(n / 10).push(digit_char(n % 10))
    }
}

/// Returns the decimal digit of `d`.
fn digit_of(d: usize) -> (r: char)
    requires
        d < 10,
    ensures
        r == digit_char(d as nat),
{
    if d == 0 {
        '0'
    } else if d == 1 {
        '1'
    } else if d == 2 {
        '2'
    } else if d == 3 {
        '3'
    } else if d == 4 {
        '4'
    } else if d == 5 {
        '5'
    } else if d == 6 {
        '6'
    } else if d == 7 {
        '7'
    } else if d == 8 {
        '8'
    } else {
        '9'
    }
}

/// Returns `n` written in decimal.
pub fn usize_string(n: usize) -> (r: String)
    ensures
        r@ == decimal(n as nat),
    decreases n,
{
    if n < 10 {
        let mut s = String::new();
        push_char(&mut s, digit_of(n));
        assert(s@ =~= seq![digit_char(n as nat)]);
        s
    } else {
        let mut s = usize_string(n / 10);
        push_char(&mut s, digit_of(n % 10));
        s
    }
}

} // verus!
