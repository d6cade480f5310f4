//! The parser of dependency expressions (PMS 8.2), such as those of `DEPEND` or
//! `REQUIRED_USE`.
//!
//! The grammar is stated by the spec functions `p_root`, `p_expr`, `p_use`, `p_group`
//! and `p_group_rest`, which read the tokens of `tok_at` and give either the
//! expressions or the message of the first error. Each takes a `fuel` that shrinks by
//! one at every step; [`parse_spec`] gives enough for every input, since each step past
//! the first of a chain reads at least one character.
pub mod arena;
pub mod lexer;

use crate::deps::ExpressionItem;
use crate::deps::expression::ExprView;
use crate::deps::useflag::UseFlag;
use crate::error::Error;
use crate::text::{append_str, str_eq};
use arena::{ArenaEntry, ExpressionArena, ExpressionId, NodeRange, range_ok};
use lexer::{Lexer, Tok, Token, lemma_tok_at, tok_at, tok_text};
use vstd::prelude::*;

verus! {

/// The value of a step taken without fuel; no input reaches it from [`parse_spec`].
pub open spec fn no_fuel() -> Seq<char> {
    Seq::empty()
}

/// Reads the token `want` at `j`.
pub open spec fn expect_next(s: Seq<char>, j: int, want: Tok) -> Result<int, Seq<char>> {
    match tok_at(s, j) {
        Some((t, k)) => if t == want {
            Ok(k)
        } else {
            Err("expected '"@ + tok_text(want) + "', got '"@ + tok_text(t) + "'"@)
        },
        None => Err("expected '"@ + tok_text(want) + "', got EOF"@),
    }
}

/// Reads whitespace and then the token `want` at `j`.
pub open spec fn expect_separated(s: Seq<char>, j: int, want: Tok) -> Result<int, Seq<char>> {
    match tok_at(s, j) {
        Some((Tok::Whitespace, k)) => expect_next(s, k, want),
        Some((t, _)) => Err("expected whitespace before '"@ + tok_text(want) + "', got '"@ + tok_text(t) + "'"@),
        None => Err("expected whitespace before '"@ + tok_text(want) + "', got EOF"@),
    }
}

/// The expression that starts with the token `t`, read on from `j`, and the position
/// after it.
pub open spec fn p_expr<T: ExpressionItem>(s: Seq<char>, t: Tok, j: int, fuel: nat) -> Result<(ExprView, int), Seq<char>>
    decreases fuel,
{
    if fuel == 0 {
        Err(no_fuel())
    } else {
        let f = (fuel - 1) as nat;
        match t {
            Tok::Ident(x) => if T::accepts(x) {
                Ok((ExprView::Item(x), j))
            } else {
                Err(T::rejection(x))
            },
            Tok::LParen => match p_group::<T>(s, j, f) {
                Ok((ns, k)) => Ok((ExprView::AllOf(ns), k)),
                Err(m) => Err(m),
            },
            Tok::OneOf => match expect_separated(s, j, Tok::LParen) {
                Ok(j1) => match p_group::<T>(s, j1, f) {
                    Ok((ns, k)) => Ok((ExprView::ExactlyOneOf(ns), k)),
                    Err(m) => Err(m),
                },
                Err(m) => Err(m),
            },
            Tok::AnyOf => match expect_separated(s, j, Tok::LParen) {
                Ok(j1) => match p_group::<T>(s, j1, f) {
                    Ok((ns, k)) => Ok((ExprView::AnyOf(ns), k)),
                    Err(m) => Err(m),
                },
                Err(m) => Err(m),
            },
            Tok::OnlyOneOf => match expect_separated(s, j, Tok::LParen) {
                Ok(j1) => match p_group::<T>(s, j1, f) {
                    Ok((ns, k)) => Ok((ExprView::AtMostOneOf(ns), k)),
                    Err(m) => Err(m),
                },
                Err(m) => Err(m),
            },
            Tok::UseConditional(flag) => p_use::<T>(s, flag, false, j, f),
            Tok::Bang => match tok_at(s, j) {
                None => Err("unexpected EOF"@),
                Some((Tok::Whitespace, _)) => Err("expected an adjacent operand after '!'"@),
                Some((Tok::Ident(x), j1)) => match p_expr::<T>(s, Tok::Ident(x), j1, f) {
                    Ok((e, k)) => Ok((ExprView::Not(Box::new(e)), k)),
                    Err(m) => Err(m),
                },
                Some((Tok::UseConditional(flag), j1)) => p_use::<T>(s, flag, true, j1, f),
                Some((Tok::Bang, j1)) => match tok_at(s, j1) {
                    Some((Tok::Ident(x), j2)) => match p_expr::<T>(s, Tok::Ident(x), j2, f) {
                        Ok((e, k)) => Ok((ExprView::Forbidden(Box::new(e)), k)),
                        Err(m) => Err(m),
                    },
                    Some((t2, _)) => Err("expected identifier, got '"@ + tok_text(t2) + "'"@),
                    None => Err("expected identifier, got EOF"@),
                },
                Some((t2, _)) => Err(
                    "expected identifier or USE conditional after '!', got '"@ + tok_text(t2) + "'"@,
                ),
            },
            _ => Err("unexpected token '"@ + tok_text(t) + "'"@),
        }
    }
}

/// The USE conditional on `flag` (negated or not), read on from `j` after the flag.
pub open spec fn p_use<T: ExpressionItem>(s: Seq<char>, flag: Seq<char>, negated: bool, j: int, fuel: nat) -> Result<
    (ExprView, int),
    Seq<char>,
>
    decreases fuel,
{
    if fuel == 0 {
        Err(no_fuel())
    } else {
        match expect_separated(s, j, Tok::LParen) {
            Err(m) => Err(m),
            Ok(j1) => if flag.len() == 0 {
                Err("use flag cannot be empty"@)
            } else {
                match p_group::<T>(s, j1, (fuel - 1) as nat) {
                    Ok((ns, k)) => Ok((ExprView::Use { flag, negated, nodes: ns }, k)),
                    Err(m) => Err(m),
                }
            },
        }
    }
}

/// The expressions of a group whose `(` was read, up to and with its `)`.
pub open spec fn p_group<T: ExpressionItem>(s: Seq<char>, j: int, fuel: nat) -> Result<(Seq<ExprView>, int), Seq<char>>
    decreases fuel,
{
    if fuel == 0 {
        Err(no_fuel())
    } else {
        let f = (fuel - 1) as nat;
        match tok_at(s, j) {
            Some((Tok::RParen, _)) => Err("empty groups are not supported"@),
            Some((Tok::Whitespace, j1)) => match tok_at(s, j1) {
                Some((Tok::RParen, _)) => Err("empty groups are not supported"@),
                Some((t, j2)) => match p_expr::<T>(s, t, j2, f) {
                    Ok((e, k)) => p_group_rest::<T>(s, k, seq![e], f),
                    Err(m) => Err(m),
                },
                None => Err("unexpected EOF while parsing group"@),
            },
            Some((t, _)) => Err("expected whitespace after '(', got '"@ + tok_text(t) + "'"@),
            None => Err("unexpected EOF while parsing group"@),
        }
    }
}

/// The rest of a group after its expressions `acc`.
pub open spec fn p_group_rest<T: ExpressionItem>(s: Seq<char>, j: int, acc: Seq<ExprView>, fuel: nat) -> Result<
    (Seq<ExprView>, int),
    Seq<char>,
>
    decreases fuel,
{
    if fuel == 0 {
        Err(no_fuel())
    } else {
        let f = (fuel - 1) as nat;
        match tok_at(s, j) {
            Some((Tok::Whitespace, j1)) => match tok_at(s, j1) {
                Some((Tok::RParen, j2)) => Ok((acc, j2)),
                Some((t, j2)) => match p_expr::<T>(s, t, j2, f) {
                    Ok((e, k)) => p_group_rest::<T>(s, k, acc.push(e), f),
                    Err(m) => Err(m),
                },
                None => Err("unexpected EOF while parsing group"@),
            },
            Some((Tok::RParen, _)) => Err("expected whitespace before ')', got ')'"@),
            Some((t, _)) => Err("expected whitespace between group items, got '"@ + tok_text(t) + "'"@),
            None => Err("unexpected EOF while parsing group"@),
        }
    }
}

/// The top-level expressions from `j` on, after the expressions `acc`: separated by
/// whitespace, with whitespace allowed around them.
pub open spec fn p_root<T: ExpressionItem>(s: Seq<char>, j: int, acc: Seq<ExprView>, fuel: nat) -> Result<
    Seq<ExprView>,
    Seq<char>,
>
    decreases fuel,
{
    if fuel == 0 {
        Err(no_fuel())
    } else {
        let f = (fuel - 1) as nat;
        match tok_at(s, j) {
            None => Ok(acc),
            Some((Tok::Whitespace, j1)) => p_root::<T>(s, j1, acc, f),
            Some((t, j1)) => match p_expr::<T>(s, t, j1, f) {
                Err(m) => Err(m),
                Ok((e, k)) => match tok_at(s, k) {
                    Some((Tok::Whitespace, k1)) => p_root::<T>(s, k1, acc.push(e), f),
                    Some((t2, _)) => Err("expected whitespace between expressions, got '"@ + tok_text(t2) + "'"@),
                    None => Ok(acc.push(e)),
                },
            },
        }
    }
}

/// The expressions of `s`, or the message of its first error.
pub open spec fn parse_spec<T: ExpressionItem>(s: Seq<char>) -> Result<Seq<ExprView>, Seq<char>> {
    p_root::<T>(s, 0, Seq::empty(), (2 * s.len() + 1) as nat)
}

/// The error `before` followed by the token's text and `'`.
fn token_error(before: &str, t: &Token) -> (e: Error)
    ensures
        e.text() == before@ + tok_text(t@) + "'"@,
{
    let mut m = before.to_owned();
    append_str(&mut m, t.to_string().as_str());
    append_str(&mut m, "'");
    Error::from_string(m)
}

/// The error `first` + `a` + `middle` + `b` + `'`.
fn tokens_error(first: &str, a: &Token, middle: &str, b: &Token) -> (e: Error)
    ensures
        e.text() == first@ + tok_text(a@) + middle@ + tok_text(b@) + "'"@,
{
    let mut m = first.to_owned();
    append_str(&mut m, a.to_string().as_str());
    append_str(&mut m, middle);
    append_str(&mut m, b.to_string().as_str());
    append_str(&mut m, "'");
    Error::from_string(m)
}

/// The error `first` + the token's text + `last`.
fn token_eof_error(first: &str, a: &Token, last: &str) -> (e: Error)
    ensures
        e.text() == first@ + tok_text(a@) + last@,
{
    let mut m = first.to_owned();
    append_str(&mut m, a.to_string().as_str());
    append_str(&mut m, last);
    Error::from_string(m)
}

/// Returns `true` if the two tokens are the same.
fn same_token(a: &Token, b: &Token) -> (r: bool)
    ensures
        r == (a@ == b@),
{
    match (a, b) {
        (Token::Whitespace, Token::Whitespace) => true,
        (Token::Bang, Token::Bang) => true,
        (Token::OneOf, Token::OneOf) => true,
        (Token::AnyOf, Token::AnyOf) => true,
        (Token::OnlyOneOf, Token::OnlyOneOf) => true,
        (Token::UseConditional(x), Token::UseConditional(y)) => str_eq(x.as_str(), y.as_str()),
        (Token::Ident(x), Token::Ident(y)) => str_eq(x.as_str(), y.as_str()),
        (Token::LParen, Token::LParen) => true,
        (Token::RParen, Token::RParen) => true,
        (Token::Illegal(x), Token::Illegal(y)) => *x == *y,
        _ => false,
    }
}

/// Reads a dependency expression into an [`ExpressionArena`].
pub struct ExpressionParser<T: ExpressionItem> {
    lexer: Lexer,
    arena: ExpressionArena<T>,
}

impl<T: ExpressionItem> ExpressionParser<T> {
    /// The input.
    pub closed spec fn input(&self) -> Seq<char> {
        self.lexer.input()
    }

    /// The position of the next token.
    pub closed spec fn pos(&self) -> int {
        self.lexer.pos()
    }

    /// The arena built so far.
    pub closed spec fn built(&self) -> ExpressionArena<T> {
        self.arena
    }

    /// The parser's state is consistent.
    pub closed spec fn wf(&self) -> bool {
        &&& self.arena.wf()
        &&& 0 <= self.lexer.pos() <= self.lexer.input().len()
    }

    /// What `next` ran from `old` to `new` kept: the input, the arena's entries with their
    /// expressions, and the position, which only moved on.
    pub open spec fn extends(old: &Self, new: &Self) -> bool {
        &&& new.wf()
        &&& new.input() == old.input()
        &&& new.pos() >= old.pos()
        &&& new.built().entries().len() >= old.built().entries().len()
        &&& new.built().root_nodes() == old.built().root_nodes()
        &&& forall|id: int|
            0 <= id < old.built().entries().len() ==> #[trigger] new.built().tree(id) == old.built().tree(id)
    }

    /// Parses `input` into an arena: the top-level expressions in order, or the first
    /// error.
    pub fn parse(input: &str) -> (r: Result<ExpressionArena<T>, Error>)
        ensures
            match parse_spec::<T>(input@) {
                Ok(ts) => r matches Ok(a) && a.wf() && a.top() == ts,
                Err(m) => r matches Err(e) && e.text() == m,
            },
    {
        let mut parser = ExpressionParser { lexer: Lexer::new(input), arena: ExpressionArena::new() };
        match parser.parse_root() {
            Ok(()) => Ok(parser.arena),
            Err(e) => Err(e),
        }
    }

    /// Reads the next token.
    fn next_token(&mut self) -> (r: Option<Token>)
        requires
            old(self).wf(),
        ensures
            Self::extends(old(self), final(self)),
            final(self).built() == old(self).built(),
            match tok_at(old(self).input(), old(self).pos()) {
                Some((t, j)) => r matches Some(x) && x@ == t && final(self).pos() == j,
                None => r is None && final(self).pos() == old(self).pos(),
            },
            r is Some ==> final(self).pos() > old(self).pos(),
            r is None <==> old(self).pos() >= old(self).input().len(),
    {
        proof {
            lemma_tok_at(self.lexer.input(), self.lexer.pos());
        }
        self.lexer.next()
    }

    /// Parses the whole input and sets the roots.
    fn parse_root(&mut self) -> (r: Result<(), Error>)
        requires
            old(self).wf(),
            old(self).pos() == 0,
            old(self).built().entries().len() == 0,
        ensures
            final(self).wf(),
            match parse_spec::<T>(old(self).input()) {
                Ok(ts) => r is Ok && final(self).built().top() == ts,
                Err(m) => r matches Err(e) && e.text() == m,
            },
    {
        let ghost s = self.input();
        let ghost len = s.len() as int;
        let mut buffer: Vec<ExpressionId> = Vec::new();
        let ghost mut acc: Seq<ExprView> = Seq::empty();
        let ghost mut fuel: nat = (2 * len + 1) as nat;
        loop
            invariant
                self.wf(),
                self.input() == s,
                s == old(self).input(),
                len == s.len(),
                fuel >= 2 * (len - self.pos()) + 1,
                buffer@.len() == acc.len(),
                forall|k: int| 0 <= k < buffer@.len() ==> (#[trigger] buffer@[k]).0 < self.built().entries().len(),
                forall|k: int| 0 <= k < buffer@.len() ==> self.built().tree(#[trigger] buffer@[k].0 as int) == acc[k],
                parse_spec::<T>(s) == p_root::<T>(s, self.pos(), acc, fuel),
            ensures
                self.wf(),
                self.input() == s,
                buffer@.len() == acc.len(),
                forall|k: int| 0 <= k < buffer@.len() ==> (#[trigger] buffer@[k]).0 < self.built().entries().len(),
                forall|k: int| 0 <= k < buffer@.len() ==> self.built().tree(#[trigger] buffer@[k].0 as int) == acc[k],
                parse_spec::<T>(s) == Ok::<Seq<ExprView>, Seq<char>>(acc),
            decreases len - self.pos(),
        {
            let ghost p = self.pos();
            let token = match self.next_token() {
                Some(t) => t,
                None => {
                    assert(tok_at(s, self.pos()) is None);
                    assert(fuel > 0);
                    assert(p_root::<T>(s, self.pos(), acc, fuel) == Ok::<Seq<ExprView>, Seq<char>>(acc));
                    break;
                },
            };
            if matches!(token, Token::Whitespace) {
                proof {
                    fuel = (fuel - 1) as nat;
                }
                continue;
            }
            let ghost before = *self;
            let ghost f = (fuel - 1) as nat;
            let ghost tv = token@;
            let ghost j1 = self.pos();
            assert(tok_at(s, p) == Some((tv, j1)));
            let id = match self.parse_expression(token, Ghost(f)) {
                Ok(id) => id,
                Err(e) => {
                    assert(p_expr::<T>(s, tv, j1, f) == Err::<(ExprView, int), Seq<char>>(e.text()));
                    assert(p_root::<T>(s, p, acc, fuel) == Err::<Seq<ExprView>, Seq<char>>(e.text()));
                    return Err(e);
                },
            };
            proof {
                assert forall|k: int| 0 <= k < buffer@.len() implies self.built().tree(#[trigger] buffer@[k].0 as int) == acc[k] by {
                    assert(before.built().tree(buffer@[k].0 as int) == acc[k]);
                }
            }
            let ghost e = self.built().tree(id.0 as int);
            buffer.push(id);
            proof {
                acc = acc.push(e);
            }
            let ghost k = self.pos();
            match self.next_token() {
                Some(Token::Whitespace) => {
                    proof {
                        fuel = f;
                    }
                },
                Some(t) => {
                    let ghost e = self.built().tree(id.0 as int);
                    assert(p_expr::<T>(s, tv, j1, f) == Ok::<(ExprView, int), Seq<char>>((e, k)));
                    let r = token_error("expected whitespace between expressions, got '", &t);
                    assert(p_root::<T>(s, p, acc.drop_last(), fuel) == Err::<Seq<ExprView>, Seq<char>>(r.text()));
                    return Err(r);
                },
                None => {
                    proof {
                        fuel = f;
                        assert(p_root::<T>(s, self.pos(), acc, fuel) == Ok::<Seq<ExprView>, Seq<char>>(acc)) by {
                            assert(tok_at(s, self.pos()) is None);
                        }
                    }
                    break;
                },
            }
        }
        let root = self.arena.push_children(buffer.as_slice());
        self.arena.set_roots(root);
        proof {
            assert(self.built().top() =~= acc);
        }
        Ok(())
    }

    /// Parses the expression that starts with `token`, which was just read, and returns
    /// its id.
    fn parse_expression(&mut self, token: Token, Ghost(fuel): Ghost<nat>) -> (r: Result<ExpressionId, Error>)
        requires
            old(self).wf(),
            fuel >= 2 * (old(self).input().len() - old(self).pos()) + 2,
        ensures
            Self::extends(old(self), final(self)),
            match p_expr::<T>(old(self).input(), token@, old(self).pos(), fuel) {
                Ok((e, k)) => r matches Ok(id) && id.0 < final(self).built().entries().len() && final(self).built().tree(
                    id.0 as int,
                ) == e && final(self).pos() == k,
                Err(m) => r matches Err(x) && x.text() == m,
            },
        decreases fuel,
    {
        let ghost s = self.input();
        let ghost start = *self;
        let ghost f = (fuel - 1) as nat;
        match token {
            Token::Ident(ident) => {
                let item = match T::parse(ident.as_str()) {
                    Ok(x) => x,
                    Err(e) => return Err(e),
                };
                Ok(self.push(ArenaEntry::Item(item)))
            },
            Token::LParen => {
                let nodes = match self.parse_group(Ghost(f)) {
                    Ok(n) => n,
                    Err(e) => return Err(e),
                };
                Ok(self.push(ArenaEntry::AllOf(nodes)))
            },
            Token::OneOf => {
                match self.expect_separated(Token::LParen) {
                    Ok(()) => {},
                    Err(e) => return Err(e),
                }
                let nodes = match self.parse_group(Ghost(f)) {
                    Ok(n) => n,
                    Err(e) => return Err(e),
                };
                Ok(self.push(ArenaEntry::ExactlyOneOf(nodes)))
            },
            Token::AnyOf => {
                match self.expect_separated(Token::LParen) {
                    Ok(()) => {},
                    Err(e) => return Err(e),
                }
                let nodes = match self.parse_group(Ghost(f)) {
                    Ok(n) => n,
                    Err(e) => return Err(e),
                };
                Ok(self.push(ArenaEntry::AnyOf(nodes)))
            },
            Token::OnlyOneOf => {
                match self.expect_separated(Token::LParen) {
                    Ok(()) => {},
                    Err(e) => return Err(e),
                }
                let nodes = match self.parse_group(Ghost(f)) {
                    Ok(n) => n,
                    Err(e) => return Err(e),
                };
                Ok(self.push(ArenaEntry::AtMostOneOf(nodes)))
            },
            Token::UseConditional(flag) => self.parse_use_conditional(flag.as_str(), false, Ghost(f)),
            Token::Bang => {
                let next = match self.next_token() {
                    Some(t) => t,
                    None => return Err(Error::new("unexpected EOF")),
                };
                match next {
                    Token::Whitespace => Err(Error::new("expected an adjacent operand after '!'")),
                    Token::Ident(name) => {
                        let inner = match self.parse_expression(Token::Ident(name), Ghost(f)) {
                            Ok(id) => id,
                            Err(e) => return Err(e),
                        };
                        Ok(self.push(ArenaEntry::Not(inner)))
                    },
                    Token::UseConditional(flag) => self.parse_use_conditional(flag.as_str(), true, Ghost(f)),
                    Token::Bang => {
                        match self.next_token() {
                            Some(Token::Ident(name)) => {
                                let inner = match self.parse_expression(Token::Ident(name), Ghost(f)) {
                                    Ok(id) => id,
                                    Err(e) => return Err(e),
                                };
                                Ok(self.push(ArenaEntry::Forbidden(inner)))
                            },
                            Some(t) => Err(token_error("expected identifier, got '", &t)),
                            None => Err(Error::new("expected identifier, got EOF")),
                        }
                    },
                    t => Err(token_error("expected identifier or USE conditional after '!', got '", &t)),
                }
            },
            t => Err(token_error("unexpected token '", &t)),
        }
    }

    /// Adds `entry` to the arena and returns its id.
    fn push(&mut self, entry: ArenaEntry<T>) -> (r: ExpressionId)
        requires
            old(self).wf(),
            arena::entry_ok(entry, old(self).built().entries().len() as int, old(self).built().kids()),
        ensures
            Self::extends(old(self), final(self)),
            final(self).pos() == old(self).pos(),
            r.0 < final(self).built().entries().len(),
            final(self).built().kids() == old(self).built().kids(),
            final(self).built().tree(r.0 as int) == arena::entry_view(entry, old(self).built().entries(), old(self).built().kids()),
    {
        self.arena.push_expression(entry)
    }

    /// Parses a USE conditional on `flag` after the flag was read: `foo? ( bar )` or
    /// `!foo? ( bar )`.
    fn parse_use_conditional(&mut self, flag: &str, negated: bool, Ghost(fuel): Ghost<nat>) -> (r: Result<
        ExpressionId,
        Error,
    >)
        requires
            old(self).wf(),
            fuel >= 2 * (old(self).input().len() - old(self).pos()) + 1,
        ensures
            Self::extends(old(self), final(self)),
            match p_use::<T>(old(self).input(), flag@, negated, old(self).pos(), fuel) {
                Ok((e, k)) => r matches Ok(id) && id.0 < final(self).built().entries().len() && final(self).built().tree(
                    id.0 as int,
                ) == e && final(self).pos() == k,
                Err(m) => r matches Err(x) && x.text() == m,
            },
        decreases fuel,
    {
        match self.expect_separated(Token::LParen) {
            Ok(()) => {},
            Err(e) => return Err(e),
        }
        let flag = match UseFlag::parse(flag) {
            Ok(x) => x,
            Err(e) => return Err(e),
        };
        let nodes = match self.parse_group(Ghost((fuel - 1) as nat)) {
            Ok(n) => n,
            Err(e) => return Err(e),
        };
        Ok(self.push(ArenaEntry::Use { flag, negated, nodes }))
    }

    /// Parses the expressions of a group whose `(` was read, and its `)`; returns the
    /// range of their ids.
    fn parse_group(&mut self, Ghost(fuel): Ghost<nat>) -> (r: Result<NodeRange, Error>)
        requires
            old(self).wf(),
            fuel >= 2 * (old(self).input().len() - old(self).pos()) + 1,
        ensures
            Self::extends(old(self), final(self)),
            match p_group::<T>(old(self).input(), old(self).pos(), fuel) {
                Ok((ns, k)) => r matches Ok(range) && range_ok(
                    range,
                    final(self).built().entries().len() as int,
                    final(self).built().kids(),
                ) && final(self).built().trees(range) == ns && final(self).pos() == k,
                Err(m) => r matches Err(x) && x.text() == m,
            },
        decreases fuel,
    {
        let ghost s = self.input();
        let ghost len = s.len() as int;
        let ghost f = (fuel - 1) as nat;
        let first = match self.next_token() {
            Some(Token::RParen) => return Err(Error::new("empty groups are not supported")),
            Some(Token::Whitespace) => match self.next_token() {
                Some(Token::RParen) => return Err(Error::new("empty groups are not supported")),
                Some(token) => token,
                None => return Err(Error::new("unexpected EOF while parsing group")),
            },
            Some(token) => return Err(token_error("expected whitespace after '(', got '", &token)),
            None => return Err(Error::new("unexpected EOF while parsing group")),
        };
        let ghost at_first = *self;
        let id = match self.parse_expression(first, Ghost(f)) {
            Ok(id) => id,
            Err(e) => return Err(e),
        };
        let mut buffer: Vec<ExpressionId> = Vec::new();
        buffer.push(id);
        let ghost mut acc: Seq<ExprView> = seq![self.built().tree(id.0 as int)];
        let ghost mut fuel2: nat = f;
        assert(p_group::<T>(s, old(self).pos(), fuel) == p_group_rest::<T>(s, self.pos(), acc, fuel2));
        loop
            invariant
                Self::extends(old(self), self),
                self.input() == s,
                len == s.len(),
                fuel2 >= 2 * (len - self.pos()) + 1,
                fuel2 < fuel,
                buffer@.len() == acc.len(),
                forall|k: int| 0 <= k < buffer@.len() ==> (#[trigger] buffer@[k]).0 < self.built().entries().len(),
                forall|k: int| 0 <= k < buffer@.len() ==> self.built().tree(#[trigger] buffer@[k].0 as int) == acc[k],
                p_group::<T>(s, old(self).pos(), fuel) == p_group_rest::<T>(s, self.pos(), acc, fuel2),
            decreases len - self.pos(),
        {
            let ghost f2 = (fuel2 - 1) as nat;
            match self.next_token() {
                Some(Token::Whitespace) => match self.next_token() {
                    Some(Token::RParen) => {
                        let ghost pre = *self;
                        let range = self.arena.push_children(buffer.as_slice());
                        proof {
                            assert(self.built().trees(range) =~= acc);
                        }
                        return Ok(range);
                    },
                    Some(token) => {
                        let ghost before = *self;
                        let id = match self.parse_expression(token, Ghost(f2)) {
                            Ok(id) => id,
                            Err(e) => return Err(e),
                        };
                        proof {
                            assert forall|k: int| 0 <= k < buffer@.len() implies self.built().tree(#[trigger] buffer@[k].0 as int) == acc[k] by {
                                assert(before.built().tree(buffer@[k].0 as int) == acc[k]);
                            }
                        }
                        let ghost e = self.built().tree(id.0 as int);
                        buffer.push(id);
                        proof {
                            acc = acc.push(e);
                            fuel2 = f2;
                        }
                    },
                    None => return Err(Error::new("unexpected EOF while parsing group")),
                },
                Some(Token::RParen) => return Err(Error::new("expected whitespace before ')', got ')'")),
                Some(token) => return Err(token_error("expected whitespace between group items, got '", &token)),
                None => return Err(Error::new("unexpected EOF while parsing group")),
            }
        }
    }

    /// Reads the token `token`.
    fn expect_next(&mut self, token: Token) -> (r: Result<(), Error>)
        requires
            old(self).wf(),
        ensures
            Self::extends(old(self), final(self)),
            final(self).built() == old(self).built(),
            match expect_next(old(self).input(), old(self).pos(), token@) {
                Ok(k) => r is Ok && final(self).pos() == k,
                Err(m) => r matches Err(x) && x.text() == m,
            },
            r is Ok ==> final(self).pos() > old(self).pos(),
    {
        match self.next_token() {
            Some(next) => if same_token(&next, &token) {
                Ok(())
            } else {
                Err(tokens_error("expected '", &token, "', got '", &next))
            },
            None => Err(token_eof_error("expected '", &token, "', got EOF")),
        }
    }

    /// Reads whitespace and then the token `token`.
    fn expect_separated(&mut self, token: Token) -> (r: Result<(), Error>)
        requires
            old(self).wf(),
        ensures
            Self::extends(old(self), final(self)),
            final(self).built() == old(self).built(),
            match expect_separated(old(self).input(), old(self).pos(), token@) {
                Ok(k) => r is Ok && final(self).pos() == k,
                Err(m) => r matches Err(x) && x.text() == m,
            },
            r is Ok ==> final(self).pos() > old(self).pos(),
    {
        match self.next_token() {
            Some(Token::Whitespace) => self.expect_next(token),
            Some(next) => Err(tokens_error("expected whitespace before '", &token, "', got '", &next)),
            None => Err(token_eof_error("expected whitespace before '", &token, "', got EOF")),
        }
    }
}

} // verus!
