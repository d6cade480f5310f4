//! Tokens of dependency expressions.
use crate::text::{chars_of, is_unicode_ws, is_unicode_ws_char, push_char, string_from};
use vstd::prelude::*;

verus! {

/// A token of a dependency expression.
#[derive(Debug, PartialEq, Eq)]
pub enum Token {
    /// A run of whitespace.
    Whitespace,
    /// `!`
    Bang,
    /// `^^`
    OneOf,
    /// `||`
    AnyOf,
    /// `??`
    OnlyOneOf,
    /// `foo?` followed by whitespace or `(`: holds the USE flag.
    UseConditional(String),
    /// An atom or USE flag.
    Ident(String),
    /// `(`
    LParen,
    /// `)`
    RParen,
    /// A lone `^`, `|` or `?`.
    Illegal(char),
}

/// Model of a token.
pub enum Tok {
    Whitespace,
    Bang,
    OneOf,
    AnyOf,
    OnlyOneOf,
    UseConditional(Seq<char>),
    Ident(Seq<char>),
    LParen,
    RParen,
    Illegal(char),
}

impl View for Token {
    type V = Tok;

    open spec fn view(&self) -> Tok {
        match self {
            Token::Whitespace => Tok::Whitespace,
            Token::Bang => Tok::Bang,
            Token::OneOf => Tok::OneOf,
            Token::AnyOf => Tok::AnyOf,
            Token::OnlyOneOf => Tok::OnlyOneOf,
            Token::UseConditional(s) => Tok::UseConditional(s@),
            Token::Ident(s) => Tok::Ident(s@),
            Token::LParen => Tok::LParen,
            Token::RParen => Tok::RParen,
            Token::Illegal(c) => Tok::Illegal(*c),
        }
    }
}

/// The text of a token as it is shown in messages: whitespace as one space.
pub open spec fn tok_text(t: Tok) -> Seq<char> {
    match t {
        Tok::Whitespace => seq![' '],
        Tok::Bang => seq!['!'],
        Tok::OneOf => seq!['^', '^'],
        Tok::AnyOf => seq!['|', '|'],
        Tok::OnlyOneOf => seq!['?', '?'],
        Tok::UseConditional(s) => s,
        Tok::Ident(s) => s,
        Tok::LParen => seq!['('],
        Tok::RParen => seq![')'],
        Tok::Illegal(c) => seq![c],
    }
}

/// The end of the run of whitespace that starts at `j`.
pub open spec fn ws_end(s: Seq<char>, j: int) -> int
    decreases s.len() - j,
{
    if 0 <= j < s.len() && is_unicode_ws(s[j]) {
        ws_end(s, j + 1)
    } else {
        j
    }
}

/// Scans the rest of an identifier from `j`: whether it is a USE conditional, the end of
/// its text and the position after it. A `?` followed by whitespace or `(` ends a USE
/// conditional; whitespace ends an identifier.
pub open spec fn ident_scan(s: Seq<char>, j: int) -> (bool, int, int)
    decreases s.len() - j,
{
    if j < 0 || j >= s.len() {
        (false, j, j)
    } else if s[j] == '?' {
        if j + 1 < s.len() && (is_unicode_ws(s[j + 1]) || s[j + 1] == '(') {
            (true, j, j + 1)
        } else {
            ident_scan(s, j + 1)
        }
    } else if is_unicode_ws(s[j]) {
        (false, j, j)
    } else {
        ident_scan(s, j + 1)
    }
}

/// The token that starts at `i` and the position after it; `None` at the end.
pub open spec fn tok_at(s: Seq<char>, i: int) -> Option<(Tok, int)> {
    if i < 0 || i >= s.len() {
        None
    } else {
        let c = s[i];
        if is_unicode_ws(c) {
            Some((Tok::Whitespace, ws_end(s, i + 1)))
        } else if c == '!' {
            Some((Tok::Bang, i + 1))
        } else if c == '(' {
            Some((Tok::LParen, i + 1))
        } else if c == ')' {
            Some((Tok::RParen, i + 1))
        } else if c == '^' || c == '|' || c == '?' {
            if i + 1 < s.len() && s[i + 1] == c {
                Some(
                    (
                        if c == '^' {
                            Tok::OneOf
                        } else if c == '|' {
                            Tok::AnyOf
                        } else {
                            Tok::OnlyOneOf
                        },
                        i + 2,
                    ),
                )
            } else {
                Some((Tok::Illegal(c), i + 1))
            }
        } else {
            let (is_use, end, next) = ident_scan(s, i + 1);
            let text = s.subrange(i, end);
            Some(
                (
                    if is_use {
                        Tok::UseConditional(text)
                    } else {
                        Tok::Ident(text)
                    },
                    next,
                ),
            )
        }
    }
}

/// The position after the token at `i` lies after `i` and within `s`.
pub proof fn lemma_tok_at(s: Seq<char>, i: int)
    ensures
        tok_at(s, i) matches Some((t, j)) ==> i < j <= s.len(),
        tok_at(s, i) is None <==> (i < 0 || i >= s.len()),
{
    if 0 <= i < s.len() {
        let c = s[i];
        if is_unicode_ws(c) {
            lemma_ws_end(s, i + 1);
        } else if !(c == '!' || c == '(' || c == ')' || c == '^' || c == '|' || c == '?') {
            lemma_ident_scan(s, i + 1);
        }
    }
}

/// The whitespace run ends within `s`, after its start.
pub proof fn lemma_ws_end(s: Seq<char>, j: int)
    requires
        0 <= j <= s.len(),
    ensures
        j <= ws_end(s, j) <= s.len(),
    decreases s.len() - j,
{
    if j < s.len() && is_unicode_ws(s[j]) {
        lemma_ws_end(s, j + 1);
    }
}

/// The identifier's text ends at or before the position after it, within `s`.
pub proof fn lemma_ident_scan(s: Seq<char>, j: int)
    requires
        0 <= j <= s.len(),
    ensures
        j <= ident_scan(s, j).1 <= ident_scan(s, j).2 <= s.len(),
    decreases s.len() - j,
{
    if j < s.len() {
        if s[j] == '?' {
            if !(j + 1 < s.len() && (is_unicode_ws(s[j + 1]) || s[j + 1] == '(')) {
                lemma_ident_scan(s, j + 1);
            }
        } else if !is_unicode_ws(s[j]) {
            lemma_ident_scan(s, j + 1);
        }
    }
}

/// Returns the token that starts at `v[i]` and the position after it.
pub fn token_at(v: &Vec<char>, i: usize) -> (r: Option<(Token, usize)>)
    ensures
        match tok_at(v@, i as int) {
            Some((t, j)) => r matches Some((x, k)) && x@ == t && k == j,
            None => r is None,
        },
{
    proof {
        lemma_tok_at(v@, i as int);
    }
    let n = v.len();
    if i >= n {
        return None;
    }
    let c = v[i];
    if is_unicode_ws_char(c) {
        let mut j = i + 1;
        proof {
            lemma_ws_end(v@, j as int);
        }
        while j < n && is_unicode_ws_char(v[j])
            invariant
                i < j <= n == v@.len(),
                ws_end(v@, j as int) == ws_end(v@, i + 1),
            decreases n - j,
        {
            j += 1;
        }
        return Some((Token::Whitespace, j));
    }
    if c == '!' {
        return Some((Token::Bang, i + 1));
    }
    if c == '(' {
        return Some((Token::LParen, i + 1));
    }
    if c == ')' {
        return Some((Token::RParen, i + 1));
    }
    if c == '^' || c == '|' || c == '?' {
        if i + 1 < n && v[i + 1] == c {
            let t = if c == '^' {
                Token::OneOf
            } else if c == '|' {
                Token::AnyOf
            } else {
                Token::OnlyOneOf
            };
            return Some((t, i + 2));
        }
        return Some((Token::Illegal(c), i + 1));
    }
    let mut j = i + 1;
    while j < n
        invariant
            i < j <= n == v@.len(),
            ident_scan(v@, j as int) == ident_scan(v@, i + 1),
            c == v@[i as int],
            !is_unicode_ws(c),
            !(c == '!' || c == '(' || c == ')' || c == '^' || c == '|' || c == '?'),
        decreases n - j,
    {
        if v[j] == '?' {
            if j + 1 < n && (is_unicode_ws_char(v[j + 1]) || v[j + 1] == '(') {
                return Some((Token::UseConditional(string_from(v, i, j)), j + 1));
            }
        } else if is_unicode_ws_char(v[j]) {
            return Some((Token::Ident(string_from(v, i, j)), j));
        }
        j += 1;
    }
    Some((Token::Ident(string_from(v, i, j)), j))
}

impl Token {
    /// Returns the text of this token, whitespace as one space.
    pub fn to_string(&self) -> (r: String)
        ensures
            r@ == tok_text(self@),
    {
        let mut s = String::new();
        match self {
            Token::Whitespace => push_char(&mut s, ' '),
            Token::Bang => push_char(&mut s, '!'),
            Token::OneOf => {
                push_char(&mut s, '^');
                push_char(&mut s, '^');
            },
            Token::AnyOf => {
                push_char(&mut s, '|');
                push_char(&mut s, '|');
            },
            Token::OnlyOneOf => {
                push_char(&mut s, '?');
                push_char(&mut s, '?');
            },
            Token::UseConditional(x) => return x.clone(),
            Token::Ident(x) => return x.clone(),
            Token::LParen => push_char(&mut s, '('),
            Token::RParen => push_char(&mut s, ')'),
            Token::Illegal(c) => push_char(&mut s, *c),
        }
        assert(s@ =~= tok_text(self@));
        s
    }
}

/// Splits a dependency expression into tokens.
pub struct Lexer {
    chars: Vec<char>,
    pos: usize,
}

impl Lexer {
    /// The characters of the input.
    pub closed spec fn input(&self) -> Seq<char> {
        self.chars@
    }

    /// The position of the next token.
    pub closed spec fn pos(&self) -> int {
        self.pos as int
    }

    /// A lexer at the start of `input`.
    pub fn new(input: &str) -> (r: Self)
        ensures
            r.input() == input@,
            r.pos() == 0,
    {
        Lexer { chars: chars_of(input), pos: 0 }
    }

    /// Returns the next token and moves past it; `None` at the end.
    pub fn next(&mut self) -> (r: Option<Token>)
        ensures
            final(self).input() == old(self).input(),
            match tok_at(old(self).input(), old(self).pos()) {
                Some((t, j)) => r matches Some(x) && x@ == t && final(self).pos() == j,
                None => r is None && final(self).pos() == old(self).pos(),
            },
    {
        match token_at(&self.chars, self.pos) {
            Some((t, j)) => {
                self.pos = j;
                Some(t)
            },
            None => None,
        }
    }
}

} // verus!
