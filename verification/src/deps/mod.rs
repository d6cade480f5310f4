//! Dependency specifications: atoms, USE flags and dependency expressions.
pub mod atom;
pub mod expression;
pub mod parser;
pub mod useflag;

use crate::deps::atom::{Atom, atom_text};
use crate::deps::atom::grammar::{is_atom_shape, is_atom_text};
use crate::deps::expression::{ExprView, Shape, shape, shape_name};
use crate::deps::expression::{ExpressionTree, render_all};
use crate::deps::parser::arena::ExpressionArena;
use crate::deps::parser::{ExpressionParser, parse_spec};
use crate::deps::useflag::UseFlag;
use crate::eapi::{Eapi, eapi_text};
use crate::error::Error;
use crate::text::{all_unicode_ws, append_str, is_blank};
use vstd::prelude::*;

verus! {

/// The context an expression is read in, which decides the operators it admits.
#[derive(Clone, Copy, Debug, PartialEq, Eq, Structural)]
pub enum ExpressionKind {
    Dependency,
    RequiredUse,
    Homepage,
    SrcUri,
    License,
    Properties,
    Restrict,
}

/// Items, all-of groups, negations and USE conditionals are admitted everywhere;
/// any-of groups in dependencies, licenses and REQUIRED_USE; exactly-one-of and
/// at-most-one-of groups in REQUIRED_USE; strong blockers in dependencies.
pub open spec fn kind_supports(kind: ExpressionKind, s: Shape) -> bool {
    match s {
        Shape::Item | Shape::AllOf | Shape::Not | Shape::Use => true,
        Shape::AnyOf => kind == ExpressionKind::Dependency || kind == ExpressionKind::License || kind
            == ExpressionKind::RequiredUse,
        Shape::ExactlyOneOf | Shape::AtMostOneOf => kind == ExpressionKind::RequiredUse,
        Shape::Forbidden => kind == ExpressionKind::Dependency,
    }
}

/// The name of a kind of expression, as error messages show it.
pub open spec fn kind_name(kind: ExpressionKind) -> Seq<char> {
    match kind {
        ExpressionKind::Dependency => "dependency"@,
        ExpressionKind::RequiredUse => "REQUIRED_USE"@,
        ExpressionKind::Homepage => "HOMEPAGE"@,
        ExpressionKind::SrcUri => "SRC_URI"@,
        ExpressionKind::License => "LICENSE"@,
        ExpressionKind::Properties => "PROPERTIES"@,
        ExpressionKind::Restrict => "RESTRICT"@,
    }
}

/// The first problem of an expression in a context, in source order; `None` if it is
/// valid there.
pub open spec fn check_tree(t: ExprView, kind: ExpressionKind) -> Option<Seq<char>>
    decreases t,
{
    if !kind_supports(kind, shape(t)) {
        Some(shape_name(shape(t)) + " is not valid in "@ + kind_name(kind) + " expressions"@)
    } else {
        match t {
            ExprView::Item(_) => None,
            ExprView::Forbidden(_) => None,
            ExprView::AllOf(ns) => check_all(ns, kind),
            ExprView::AnyOf(ns) => check_all(ns, kind),
            ExprView::ExactlyOneOf(ns) => check_all(ns, kind),
            ExprView::AtMostOneOf(ns) => check_all(ns, kind),
            ExprView::Use { nodes, .. } => check_all(nodes, kind),
            ExprView::Not(b) => check_negation(*b, kind),
        }
    }
}

/// The first problem of a list of expressions.
pub open spec fn check_all(ts: Seq<ExprView>, kind: ExpressionKind) -> Option<Seq<char>>
    decreases ts,
{
    if ts.len() == 0 {
        None
    } else {
        match check_tree(ts[0], kind) {
            Some(m) => Some(m),
            None => check_all(ts.subrange(1, ts.len() as int), kind),
        }
    }
}

/// A negation applies to an item, and only in dependencies and REQUIRED_USE.
pub open spec fn check_negation(t: ExprView, kind: ExpressionKind) -> Option<Seq<char>> {
    match t {
        ExprView::Item(_) => if kind == ExpressionKind::Dependency || kind == ExpressionKind::RequiredUse {
            None
        } else {
            Some("negation is not valid in "@ + kind_name(kind) + " expressions"@)
        },
        _ => Some("negation must apply to an item"@),
    }
}

impl ExpressionKind {
    /// Returns `true` if this context admits expressions of kind `s`.
    pub fn supports(self, s: Shape) -> (r: bool)
        ensures
            r == kind_supports(self, s),
    {
        match s {
            Shape::Item | Shape::AllOf | Shape::Not | Shape::Use => true,
            Shape::AnyOf => matches!(self, ExpressionKind::Dependency | ExpressionKind::License | ExpressionKind::RequiredUse),
            Shape::ExactlyOneOf | Shape::AtMostOneOf => matches!(self, ExpressionKind::RequiredUse),
            Shape::Forbidden => matches!(self, ExpressionKind::Dependency),
        }
    }

    /// Returns the name of this context.
    pub fn name(self) -> (r: &'static str)
        ensures
            r@ == kind_name(self),
    {
        match self {
            ExpressionKind::Dependency => "dependency",
            ExpressionKind::RequiredUse => "REQUIRED_USE",
            ExpressionKind::Homepage => "HOMEPAGE",
            ExpressionKind::SrcUri => "SRC_URI",
            ExpressionKind::License => "LICENSE",
            ExpressionKind::Properties => "PROPERTIES",
            ExpressionKind::Restrict => "RESTRICT",
        }
    }
}

/// An item of a dependency expression, such as an [`Atom`] or a [`UseFlag`]: read from
/// its text and written back as the same text.
pub trait ExpressionItem: Sized {
    /// The text of the item.
    spec fn text_of(&self) -> Seq<char>;

    /// `s` is the text of an item.
    spec fn accepts(s: Seq<char>) -> bool;

    /// The message of the error for a text that is no item.
    spec fn rejection(s: Seq<char>) -> Seq<char>;

    /// Reads an item from `input`.
    fn parse(input: &str) -> (r: Result<Self, Error>)
        ensures
            r is Ok <==> Self::accepts(input@),
            r matches Ok(x) ==> x.text_of() == input@,
            r matches Err(e) ==> e.text() == Self::rejection(input@),
    ;

    /// Returns the text of the item.
    fn to_string(&self) -> (r: String)
        ensures
            r@ == self.text_of(),
    ;
}

impl ExpressionItem for Atom {
    open spec fn text_of(&self) -> Seq<char> {
        atom_text(self@)
    }

    open spec fn accepts(s: Seq<char>) -> bool {
        is_atom_text(s)
    }

    open spec fn rejection(s: Seq<char>) -> Seq<char> {
        if is_atom_shape(s) {
            "unable to parse atom '"@ + s + "'"@
        } else {
            "'"@ + s + "' is not a valid atom"@
        }
    }

    fn parse(input: &str) -> (r: Result<Self, Error>) {
        Atom::new(input)
    }

    fn to_string(&self) -> (r: String) {
        Atom::to_string(self)
    }
}

impl ExpressionItem for UseFlag {
    open spec fn text_of(&self) -> Seq<char> {
        self@
    }

    open spec fn accepts(s: Seq<char>) -> bool {
        s.len() > 0
    }

    open spec fn rejection(s: Seq<char>) -> Seq<char> {
        "use flag cannot be empty"@
    }

    fn parse(input: &str) -> (r: Result<Self, Error>) {
        UseFlag::parse(input)
    }

    fn to_string(&self) -> (r: String) {
        UseFlag::to_string(self)
    }
}

/// What [`DepExpression::parse`] gives for `input` in context `kind`: the expressions,
/// or the message of the first error.
pub open spec fn dep_expression_of<T: ExpressionItem>(eapi: Eapi, kind: ExpressionKind, input: Seq<char>) -> Result<
    Seq<ExprView>,
    Seq<char>,
> {
    if !(eapi@ == 7 || eapi@ == 8) {
        Err("EAPI "@ + eapi_text(eapi) + " is not supported for dependency expressions"@)
    } else if all_unicode_ws(input) {
        Ok(Seq::empty())
    } else {
        match parse_spec::<T>(input) {
            Err(m) => Err(m),
            Ok(ts) => match check_all(ts, kind) {
                Some(m) => Err(m),
                None => Ok(ts),
            },
        }
    }
}

/// A dependency expression (PMS 8.2) of items `T`, parsed into an arena.
#[derive(Debug)]
pub struct DepExpression<T: ExpressionItem> {
    arena: ExpressionArena<T>,
}

impl<T: ExpressionItem> DepExpression<T> {
    /// The top-level expressions.
    pub closed spec fn exprs(&self) -> Seq<ExprView> {
        self.arena.top()
    }

    /// The arena is well formed.
    #[verifier::type_invariant]
    closed spec fn dep_inv(self) -> bool {
        self.arena.wf()
    }

    /// Parses `input` as an expression of context `kind`: fails where the EAPI is not
    /// supported for ebuilds, where the input is no valid expression, or where the
    /// expression uses what the context does not admit. Blank input gives the empty
    /// expression.
    pub fn parse(eapi: Eapi, kind: ExpressionKind, input: &str) -> (r: Result<Self, Error>)
        ensures
            match dep_expression_of::<T>(eapi, kind, input@) {
                Ok(ts) => r matches Ok(d) && d.exprs() == ts,
                Err(m) => r matches Err(e) && e.text() == m,
            },
    {
        if !eapi.is_supported_for_ebuilds() {
            let mut m = "EAPI ".to_owned();
            append_str(&mut m, eapi.as_str());
            append_str(&mut m, " is not supported for dependency expressions");
            return Err(Error::from_string(m));
        }
        if is_blank(input) {
            return Ok(Self::default());
        }
        let arena = match ExpressionParser::<T>::parse(input) {
            Ok(a) => a,
            Err(e) => return Err(e),
        };
        match arena.validate(kind) {
            Ok(()) => {},
            Err(e) => return Err(e),
        }
        Ok(DepExpression { arena })
    }

    /// Returns a borrowed view of the expression.
    pub fn view(&self) -> (r: ExpressionTree<'_, T>)
        ensures
            r.arena.wf(),
            r.arena.top() == self.exprs(),
    {
        proof {
            use_type_invariant(self);
        }
        self.arena.view()
    }

    /// Returns the expression written out: top-level expressions separated by single
    /// spaces, groups as `op ( a b )`.
    pub fn to_string(&self) -> (r: String)
        ensures
            r@ == render_all(self.exprs()),
    {
        proof {
            use_type_invariant(self);
        }
        self.arena.to_string()
    }
}

impl<T: ExpressionItem> Default for DepExpression<T> {
    /// The empty expression.
    fn default() -> (r: Self)
        ensures
            r.exprs() == Seq::<ExprView>::empty(),
    {
        DepExpression { arena: ExpressionArena::new() }
    }
}

} // verus!
