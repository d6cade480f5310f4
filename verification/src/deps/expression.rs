//! The tree model of a dependency expression, how it is written out and which of its
//! parts each kind of expression admits; borrowed views of a parsed expression.
use crate::deps::ExpressionItem;
use crate::deps::parser::arena::{
    ArenaEntry, ExpressionArena, ExpressionId, NodeRange, lemma_trees_bound, lemma_trees_in, range_ok, trees_in,
};
use crate::deps::useflag::UseFlag;
use vstd::prelude::*;

verus! {

/// Model of a dependency expression: items by their text.
pub enum ExprView {
    Item(Seq<char>),
    AllOf(Seq<ExprView>),
    AnyOf(Seq<ExprView>),
    ExactlyOneOf(Seq<ExprView>),
    AtMostOneOf(Seq<ExprView>),
    Use { flag: Seq<char>, negated: bool, nodes: Seq<ExprView> },
    Not(Box<ExprView>),
    Forbidden(Box<ExprView>),
}

/// The kinds of expression, without their parts.
#[derive(Clone, Copy, Debug, PartialEq, Eq, Structural)]
pub enum Shape {
    Item,
    AllOf,
    AnyOf,
    ExactlyOneOf,
    AtMostOneOf,
    Use,
    Not,
    Forbidden,
}

/// The kind of an expression.
pub open spec fn shape(t: ExprView) -> Shape {
    match t {
        ExprView::Item(_) => Shape::Item,
        ExprView::AllOf(_) => Shape::AllOf,
        ExprView::AnyOf(_) => Shape::AnyOf,
        ExprView::ExactlyOneOf(_) => Shape::ExactlyOneOf,
        ExprView::AtMostOneOf(_) => Shape::AtMostOneOf,
        ExprView::Use { .. } => Shape::Use,
        ExprView::Not(_) => Shape::Not,
        ExprView::Forbidden(_) => Shape::Forbidden,
    }
}

/// The name of a kind of expression, as error messages show it.
pub open spec fn shape_name(s: Shape) -> Seq<char> {
    match s {
        Shape::Item => "item"@,
        Shape::AllOf => "all-of"@,
        Shape::AnyOf => "any-of"@,
        Shape::ExactlyOneOf => "exactly-one-of"@,
        Shape::AtMostOneOf => "at-most-one-of"@,
        Shape::Use => "USE-conditional"@,
        Shape::Not => "negation"@,
        Shape::Forbidden => "strong-blocker"@,
    }
}

/// The opening of a group: its operator, if any, and `( `.
pub open spec fn group_open(s: Shape) -> Seq<char> {
    match s {
        Shape::AnyOf => seq!['|', '|', ' ', '(', ' '],
        Shape::ExactlyOneOf => seq!['^', '^', ' ', '(', ' '],
        Shape::AtMostOneOf => seq!['?', '?', ' ', '(', ' '],
        _ => seq!['(', ' '],
    }
}

/// How an expression is written: groups as `op ( a b )`, USE conditionals as
/// `[!]flag? ( a b )`, negations as `!a` and strong blockers as `!!a`.
pub open spec fn render(t: ExprView) -> Seq<char>
    decreases t,
{
    match t {
        ExprView::Item(x) => x,
        ExprView::AllOf(ns) => group_open(Shape::AllOf) + render_all(ns) + seq![' ', ')'],
        ExprView::AnyOf(ns) => group_open(Shape::AnyOf) + render_all(ns) + seq![' ', ')'],
        ExprView::ExactlyOneOf(ns) => group_open(Shape::ExactlyOneOf) + render_all(ns) + seq![' ', ')'],
        ExprView::AtMostOneOf(ns) => group_open(Shape::AtMostOneOf) + render_all(ns) + seq![' ', ')'],
        ExprView::Use { flag, negated, nodes } => (if negated {
            seq!['!']
        } else {
            Seq::empty()
        }) + flag + seq!['?', ' ', '(', ' '] + render_all(nodes) + seq![' ', ')'],
        ExprView::Not(b) => seq!['!'] + render(*b),
        ExprView::Forbidden(b) => seq!['!', '!'] + render(*b),
    }
}

/// Expressions written one after the other, separated by single spaces.
pub open spec fn render_all(ts: Seq<ExprView>) -> Seq<char>
    decreases ts,
{
    if ts.len() == 0 {
        Seq::empty()
    } else if ts.len() == 1 {
        render(ts[0])
    } else {
        render_all(ts.subrange(0, ts.len() - 1)) + seq![' '] + render(ts[ts.len() - 1])
    }
}

/// A borrowed view of a parsed expression.
pub struct ExpressionTree<'a, T: ExpressionItem> {
    pub arena: &'a ExpressionArena<T>,
}

/// A borrowed view of one node of a parsed expression.
pub struct ExpressionNode<'a, T: ExpressionItem> {
    pub tree: ExpressionTree<'a, T>,
    pub id: ExpressionId,
}

/// The nodes of a range of a parsed expression, taken one by one.
pub struct ExpressionNodes<'a, T: ExpressionItem> {
    pub tree: ExpressionTree<'a, T>,
    pub next: usize,
    pub end: usize,
}

/// A borrowed expression of a node.
pub enum Expression<'a, T: ExpressionItem> {
    Item(&'a T),
    AllOf(ExpressionNodes<'a, T>),
    AnyOf(ExpressionNodes<'a, T>),
    ExactlyOneOf(ExpressionNodes<'a, T>),
    AtMostOneOf(ExpressionNodes<'a, T>),
    Use { flag: &'a UseFlag, negated: bool, nodes: ExpressionNodes<'a, T> },
    Not(ExpressionNode<'a, T>),
    Forbidden(ExpressionNode<'a, T>),
}

impl<'a, T: ExpressionItem> ExpressionTree<'a, T> {
    /// Returns the top-level nodes in source order.
    pub fn roots(&self) -> (r: ExpressionNodes<'a, T>)
        requires
            self.arena.wf(),
        ensures
            *r.tree.arena == *self.arena,
            r.wf(),
            r.rest() == self.arena.top(),
    {
        let range = self.arena.root_range();
        proof {
            self.arena.lemma_roots_ok();
        }
        ExpressionNodes { tree: ExpressionTree { arena: self.arena }, next: range.start, end: range.end }
    }

    /// Returns the expression written out.
    pub fn to_string(&self) -> (r: String)
        requires
            self.arena.wf(),
        ensures
            r@ == render_all(self.arena.top()),
    {
        self.arena.to_string()
    }
}

impl<'a, T: ExpressionItem> ExpressionNodes<'a, T> {
    /// The nodes left lie within the arena's children.
    pub open spec fn wf(&self) -> bool {
        &&& self.tree.arena.wf()
        &&& range_ok(
            NodeRange { start: self.next, end: self.end },
            self.tree.arena.entries().len() as int,
            self.tree.arena.kids(),
        )
    }

    /// The expressions of the nodes left.
    pub open spec fn rest(&self) -> Seq<ExprView> {
        self.tree.arena.trees(NodeRange { start: self.next, end: self.end })
    }

    /// Returns the next node; `None` when none is left.
    pub fn next(&mut self) -> (r: Option<ExpressionNode<'a, T>>)
        requires
            old(self).wf(),
        ensures
            final(self).wf(),
            *final(self).tree.arena == *old(self).tree.arena,
            old(self).rest().len() == 0 ==> r is None && final(self).rest().len() == 0,
            old(self).rest().len() > 0 ==> (r matches Some(n) && n.wf() && n@ == old(self).rest()[0]
                && *n.tree.arena == *old(self).tree.arena && final(self).rest() == old(self).rest().subrange(
                1,
                old(self).rest().len() as int,
            )),
    {
        proof {
            lemma_trees_in(self.tree.arena.entries(), self.tree.arena.kids(), self.tree.arena.entries().len() as int, self.next as int, self.end as int);
        }
        if self.next >= self.end {
            return None;
        }
        let id = self.tree.arena.child(self.next);
        let ghost before = self.rest();
        self.next = self.next + 1;
        proof {
            lemma_trees_in(self.tree.arena.entries(), self.tree.arena.kids(), self.tree.arena.entries().len() as int, self.next as int, self.end as int);
            assert(self.rest() =~= before.subrange(1, before.len() as int));
        }
        Some(ExpressionNode { tree: ExpressionTree { arena: self.tree.arena }, id })
    }

    /// Returns the number of nodes left.
    pub fn count(&self) -> (r: usize)
        requires
            self.wf(),
        ensures
            r == self.rest().len(),
    {
        proof {
            lemma_trees_in(self.tree.arena.entries(), self.tree.arena.kids(), self.tree.arena.entries().len() as int, self.next as int, self.end as int);
        }
        self.end - self.next
    }

    /// Returns the nodes left written out, separated by single spaces.
    pub fn to_string(&self) -> (r: String)
        requires
            self.wf(),
        ensures
            r@ == render_all(self.rest()),
    {
        self.tree.arena.range_string(&NodeRange { start: self.next, end: self.end })
    }
}

impl<'a, T: ExpressionItem> ExpressionNode<'a, T> {
    /// The node is an entry of its arena.
    pub open spec fn wf(&self) -> bool {
        &&& self.tree.arena.wf()
        &&& self.id.0 < self.tree.arena.entries().len()
    }

    /// The expression of the node.
    pub open spec fn view(&self) -> ExprView {
        self.tree.arena.tree(self.id.0 as int)
    }

    /// Returns the borrowed expression of this node.
    pub fn expression(&self) -> (r: Expression<'a, T>)
        requires
            self.wf(),
        ensures
            match r {
                Expression::Item(x) => self.view() == ExprView::Item(x.text_of()),
                Expression::AllOf(ns) => ns.wf() && self.view() == ExprView::AllOf(ns.rest()),
                Expression::AnyOf(ns) => ns.wf() && self.view() == ExprView::AnyOf(ns.rest()),
                Expression::ExactlyOneOf(ns) => ns.wf() && self.view() == ExprView::ExactlyOneOf(ns.rest()),
                Expression::AtMostOneOf(ns) => ns.wf() && self.view() == ExprView::AtMostOneOf(ns.rest()),
                Expression::Use { flag, negated, nodes } => nodes.wf() && self.view() == ExprView::Use {
                    flag: flag@,
                    negated,
                    nodes: nodes.rest(),
                },
                Expression::Not(n) => n.wf() && self.view() == ExprView::Not(Box::new(n.view())),
                Expression::Forbidden(n) => n.wf() && self.view() == ExprView::Forbidden(Box::new(n.view())),
            },
    {
        let arena = self.tree.arena;
        let entry = arena.get_expression(&self.id);
        proof {
            arena.lemma_entry_ok(self.id.0 as int);
        }
        match entry {
            ArenaEntry::Item(item) => Expression::Item(item),
            ArenaEntry::AllOf(r) => Expression::AllOf(Self::nodes(arena, *r, Ghost(self.id.0 as int))),
            ArenaEntry::AnyOf(r) => Expression::AnyOf(Self::nodes(arena, *r, Ghost(self.id.0 as int))),
            ArenaEntry::ExactlyOneOf(r) => Expression::ExactlyOneOf(Self::nodes(arena, *r, Ghost(self.id.0 as int))),
            ArenaEntry::AtMostOneOf(r) => Expression::AtMostOneOf(Self::nodes(arena, *r, Ghost(self.id.0 as int))),
            ArenaEntry::Use { flag, negated, nodes } => Expression::Use {
                flag,
                negated: *negated,
                nodes: Self::nodes(arena, *nodes, Ghost(self.id.0 as int)),
            },
            ArenaEntry::Not(c) => Expression::Not(ExpressionNode { tree: ExpressionTree { arena }, id: *c }),
            ArenaEntry::Forbidden(c) => Expression::Forbidden(ExpressionNode { tree: ExpressionTree { arena }, id: *c }),
        }
    }

    /// The nodes of the range `r` of the entry `owner`.
    fn nodes(arena: &'a ExpressionArena<T>, r: NodeRange, Ghost(owner): Ghost<int>) -> (n: ExpressionNodes<'a, T>)
        requires
            arena.wf(),
            0 <= owner < arena.entries().len(),
            range_ok(r, owner, arena.kids()),
        ensures
            n.wf(),
            *n.tree.arena == *arena,
            n.rest() == trees_in(arena.entries(), arena.kids(), owner, r.start as int, r.end as int),
    {
        proof {
            lemma_trees_bound(
                arena.entries(),
                arena.kids(),
                owner,
                arena.entries().len() as int,
                r.start as int,
                r.end as int,
            );
        }
        ExpressionNodes { tree: ExpressionTree { arena }, next: r.start, end: r.end }
    }

    /// Returns the expression of this node written out.
    pub fn to_string(&self) -> (r: String)
        requires
            self.wf(),
        ensures
            r@ == render(self.view()),
    {
        self.tree.arena.node_string(self.id)
    }
}

} // verus!
