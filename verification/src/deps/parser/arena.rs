//! The flat arena that holds a parsed dependency expression: entries refer to their
//! children by a range of a shared list of entry ids, and every child comes before its
//! parent.
use crate::deps::expression::{ExprView, ExpressionTree, Shape, group_open, render, render_all, shape, shape_name};
use crate::deps::useflag::UseFlag;
use crate::deps::{ExpressionItem, ExpressionKind, check_all, check_negation, check_tree, kind_name, kind_supports};
use crate::error::Error;
use crate::text::{append_str, push_char};
use vstd::prelude::*;

verus! {

/// The position of an entry in the arena.
#[derive(Clone, Copy, Debug, PartialEq, Eq, Structural)]
pub struct ExpressionId(pub usize);

/// A range of the arena's list of children.
#[derive(Clone, Copy, Debug, PartialEq, Eq, Structural)]
pub struct NodeRange {
    pub start: usize,
    pub end: usize,
}

/// An entry of the arena: an item, a group, a USE conditional, a negation or a strong
/// blocker. Groups and conditionals refer to their children by a range.
#[derive(Debug)]
pub enum ArenaEntry<T: ExpressionItem> {
    Item(T),
    AllOf(NodeRange),
    AnyOf(NodeRange),
    ExactlyOneOf(NodeRange),
    AtMostOneOf(NodeRange),
    Use { flag: UseFlag, negated: bool, nodes: NodeRange },
    Not(ExpressionId),
    Forbidden(ExpressionId),
}

/// The kind of an entry.
pub open spec fn entry_shape<T: ExpressionItem>(e: ArenaEntry<T>) -> Shape {
    match e {
        ArenaEntry::Item(_) => Shape::Item,
        ArenaEntry::AllOf(_) => Shape::AllOf,
        ArenaEntry::AnyOf(_) => Shape::AnyOf,
        ArenaEntry::ExactlyOneOf(_) => Shape::ExactlyOneOf,
        ArenaEntry::AtMostOneOf(_) => Shape::AtMostOneOf,
        ArenaEntry::Use { .. } => Shape::Use,
        ArenaEntry::Not(_) => Shape::Not,
        ArenaEntry::Forbidden(_) => Shape::Forbidden,
    }
}

impl<T: ExpressionItem> ArenaEntry<T> {
    /// Returns the name of the kind of this entry.
    pub fn name(&self) -> (r: &'static str)
        ensures
            r@ == shape_name(entry_shape(*self)),
    {
        match self {
            ArenaEntry::Item(_) => "item",
            ArenaEntry::AllOf(_) => "all-of",
            ArenaEntry::AnyOf(_) => "any-of",
            ArenaEntry::ExactlyOneOf(_) => "exactly-one-of",
            ArenaEntry::AtMostOneOf(_) => "at-most-one-of",
            ArenaEntry::Use { .. } => "USE-conditional",
            ArenaEntry::Not(_) => "negation",
            ArenaEntry::Forbidden(_) => "strong-blocker",
        }
    }
}

/// The children in `r` exist and come before the entry `bound`.
pub open spec fn range_ok(r: NodeRange, bound: int, kids: Seq<ExpressionId>) -> bool {
    &&& r.start <= r.end <= kids.len()
    &&& forall|k: int| r.start <= k < r.end ==> (#[trigger] kids[k]).0 < bound
}

/// The entry at position `i` refers only to entries before it.
pub open spec fn entry_ok<T: ExpressionItem>(e: ArenaEntry<T>, i: int, kids: Seq<ExpressionId>) -> bool {
    match e {
        ArenaEntry::Item(_) => true,
        ArenaEntry::AllOf(r) => range_ok(r, i, kids),
        ArenaEntry::AnyOf(r) => range_ok(r, i, kids),
        ArenaEntry::ExactlyOneOf(r) => range_ok(r, i, kids),
        ArenaEntry::AtMostOneOf(r) => range_ok(r, i, kids),
        ArenaEntry::Use { nodes, .. } => range_ok(nodes, i, kids),
        ArenaEntry::Not(c) => c.0 < i,
        ArenaEntry::Forbidden(c) => c.0 < i,
    }
}

/// Every entry refers only to entries before it.
pub open spec fn arena_ok<T: ExpressionItem>(exprs: Seq<ArenaEntry<T>>, kids: Seq<ExpressionId>) -> bool {
    forall|i: int| 0 <= i < exprs.len() ==> entry_ok(#[trigger] exprs[i], i, kids)
}

/// The expression of the entry `id`.
pub open spec fn tree_of<T: ExpressionItem>(exprs: Seq<ArenaEntry<T>>, kids: Seq<ExpressionId>, id: int) -> ExprView
    decreases id, 1int, 0int,
{
    if 0 <= id < exprs.len() {
        match exprs[id] {
            ArenaEntry::Item(x) => ExprView::Item(x.text_of()),
            ArenaEntry::AllOf(r) => ExprView::AllOf(trees_in(exprs, kids, id, r.start as int, r.end as int)),
            ArenaEntry::AnyOf(r) => ExprView::AnyOf(trees_in(exprs, kids, id, r.start as int, r.end as int)),
            ArenaEntry::ExactlyOneOf(r) => ExprView::ExactlyOneOf(
                trees_in(exprs, kids, id, r.start as int, r.end as int),
            ),
            ArenaEntry::AtMostOneOf(r) => ExprView::AtMostOneOf(
                trees_in(exprs, kids, id, r.start as int, r.end as int),
            ),
            ArenaEntry::Use { flag, negated, nodes } => ExprView::Use {
                flag: flag@,
                negated,
                nodes: trees_in(exprs, kids, id, nodes.start as int, nodes.end as int),
            },
            ArenaEntry::Not(c) => ExprView::Not(
                Box::new(
                    if (c.0 as int) < id {
                        tree_of(exprs, kids, c.0 as int)
                    } else {
                        ExprView::Item(Seq::empty())
                    },
                ),
            ),
            ArenaEntry::Forbidden(c) => ExprView::Forbidden(
                Box::new(
                    if (c.0 as int) < id {
                        tree_of(exprs, kids, c.0 as int)
                    } else {
                        ExprView::Item(Seq::empty())
                    },
                ),
            ),
        }
    } else {
        ExprView::Item(Seq::empty())
    }
}

/// The expressions of the children `kids[start..end]`, all before the entry `bound`.
pub open spec fn trees_in<T: ExpressionItem>(
    exprs: Seq<ArenaEntry<T>>,
    kids: Seq<ExpressionId>,
    bound: int,
    start: int,
    end: int,
) -> Seq<ExprView>
    decreases bound, 0int, end - start,
{
    if start < end && 0 <= end - 1 < kids.len() {
        let c = kids[end - 1].0 as int;
        trees_in(exprs, kids, bound, start, end - 1).push(
            if c < bound {
                tree_of(exprs, kids, c)
            } else {
                ExprView::Item(Seq::empty())
            },
        )
    } else {
        Seq::empty()
    }
}

/// The children's expressions, one for each child.
pub proof fn lemma_trees_in<T: ExpressionItem>(
    exprs: Seq<ArenaEntry<T>>,
    kids: Seq<ExpressionId>,
    bound: int,
    start: int,
    end: int,
)
    requires
        0 <= start <= end <= kids.len(),
        forall|k: int| start <= k < end ==> (#[trigger] kids[k]).0 < bound,
    ensures
        trees_in(exprs, kids, bound, start, end).len() == end - start,
        forall|k: int|
            0 <= k < end - start ==> #[trigger] trees_in(exprs, kids, bound, start, end)[k] == tree_of(
                exprs,
                kids,
                kids[start + k].0 as int,
            ),
    decreases end - start,
{
    if start < end {
        lemma_trees_in(exprs, kids, bound, start, end - 1);
    }
}

/// Entries and children added after an arena change nothing of the expressions of
/// the entries that were there.
pub proof fn lemma_tree_extend<T: ExpressionItem>(
    exprs: Seq<ArenaEntry<T>>,
    kids: Seq<ExpressionId>,
    exprs2: Seq<ArenaEntry<T>>,
    kids2: Seq<ExpressionId>,
    id: int,
)
    requires
        arena_ok(exprs, kids),
        exprs.len() <= exprs2.len(),
        kids.len() <= kids2.len(),
        exprs2.subrange(0, exprs.len() as int) == exprs,
        kids2.subrange(0, kids.len() as int) == kids,
        0 <= id < exprs.len(),
    ensures
        tree_of(exprs2, kids2, id) == tree_of(exprs, kids, id),
    decreases id,
{
    assert(exprs2[id] == exprs[id]);
    assert(entry_ok(exprs[id], id, kids));
    match exprs[id] {
        ArenaEntry::AllOf(r) => lemma_trees_extend(exprs, kids, exprs2, kids2, id, r.start as int, r.end as int),
        ArenaEntry::AnyOf(r) => lemma_trees_extend(exprs, kids, exprs2, kids2, id, r.start as int, r.end as int),
        ArenaEntry::ExactlyOneOf(r) => lemma_trees_extend(exprs, kids, exprs2, kids2, id, r.start as int, r.end as int),
        ArenaEntry::AtMostOneOf(r) => lemma_trees_extend(exprs, kids, exprs2, kids2, id, r.start as int, r.end as int),
        ArenaEntry::Use { nodes, .. } => lemma_trees_extend(
            exprs,
            kids,
            exprs2,
            kids2,
            id,
            nodes.start as int,
            nodes.end as int,
        ),
        ArenaEntry::Not(c) => lemma_tree_extend(exprs, kids, exprs2, kids2, c.0 as int),
        ArenaEntry::Forbidden(c) => lemma_tree_extend(exprs, kids, exprs2, kids2, c.0 as int),
        ArenaEntry::Item(_) => {},
    }
}

/// [`lemma_tree_extend`] for a range of children.
pub proof fn lemma_trees_extend<T: ExpressionItem>(
    exprs: Seq<ArenaEntry<T>>,
    kids: Seq<ExpressionId>,
    exprs2: Seq<ArenaEntry<T>>,
    kids2: Seq<ExpressionId>,
    bound: int,
    start: int,
    end: int,
)
    requires
        arena_ok(exprs, kids),
        exprs.len() <= exprs2.len(),
        kids.len() <= kids2.len(),
        exprs2.subrange(0, exprs.len() as int) == exprs,
        kids2.subrange(0, kids.len() as int) == kids,
        0 <= bound <= exprs.len(),
        start <= end <= kids.len(),
        forall|k: int| start <= k < end ==> (#[trigger] kids[k]).0 < bound,
    ensures
        trees_in(exprs2, kids2, bound, start, end) == trees_in(exprs, kids, bound, start, end),
    decreases bound, end - start,
{
    if start < end && 0 <= end - 1 {
        assert(kids2[end - 1] == kids[end - 1]);
        let c = kids[end - 1].0 as int;
        lemma_trees_extend(exprs, kids, exprs2, kids2, bound, start, end - 1);
        lemma_tree_extend(exprs, kids, exprs2, kids2, c);
    }
}

/// The expression of a new entry `e` in terms of the arena it is added to.
pub open spec fn entry_view<T: ExpressionItem>(
    e: ArenaEntry<T>,
    exprs: Seq<ArenaEntry<T>>,
    kids: Seq<ExpressionId>,
) -> ExprView {
    let n = exprs.len() as int;
    match e {
        ArenaEntry::Item(x) => ExprView::Item(x.text_of()),
        ArenaEntry::AllOf(r) => ExprView::AllOf(trees_in(exprs, kids, n, r.start as int, r.end as int)),
        ArenaEntry::AnyOf(r) => ExprView::AnyOf(trees_in(exprs, kids, n, r.start as int, r.end as int)),
        ArenaEntry::ExactlyOneOf(r) => ExprView::ExactlyOneOf(trees_in(exprs, kids, n, r.start as int, r.end as int)),
        ArenaEntry::AtMostOneOf(r) => ExprView::AtMostOneOf(trees_in(exprs, kids, n, r.start as int, r.end as int)),
        ArenaEntry::Use { flag, negated, nodes } => ExprView::Use {
            flag: flag@,
            negated,
            nodes: trees_in(exprs, kids, n, nodes.start as int, nodes.end as int),
        },
        ArenaEntry::Not(c) => ExprView::Not(Box::new(tree_of(exprs, kids, c.0 as int))),
        ArenaEntry::Forbidden(c) => ExprView::Forbidden(Box::new(tree_of(exprs, kids, c.0 as int))),
    }
}

/// Holds a whole expression in a flat arena: `expressions` holds the entries,
/// `children` the ids that the ranges of groups and conditionals refer to, and `roots`
/// the range of the top-level expressions.
#[derive(Debug)]
pub struct ExpressionArena<T: ExpressionItem> {
    expressions: Vec<ArenaEntry<T>>,
    children: Vec<ExpressionId>,
    roots: NodeRange,
}

impl<T: ExpressionItem> ExpressionArena<T> {
    /// Every entry and the roots refer only to entries before them.
    pub closed spec fn wf(&self) -> bool {
        &&& arena_ok(self.expressions@, self.children@)
        &&& range_ok(self.roots, self.expressions@.len() as int, self.children@)
    }

    /// The entries.
    pub closed spec fn entries(&self) -> Seq<ArenaEntry<T>> {
        self.expressions@
    }

    /// The children lists.
    pub closed spec fn kids(&self) -> Seq<ExpressionId> {
        self.children@
    }

    /// The range of the top-level expressions.
    pub closed spec fn root_nodes(&self) -> NodeRange {
        self.roots
    }

    /// The expression of the entry `id`.
    pub open spec fn tree(&self, id: int) -> ExprView {
        tree_of(self.entries(), self.kids(), id)
    }

    /// The expressions of the children in `r`.
    pub open spec fn trees(&self, r: NodeRange) -> Seq<ExprView> {
        trees_in(self.entries(), self.kids(), self.entries().len() as int, r.start as int, r.end as int)
    }

    /// The top-level expressions.
    pub open spec fn top(&self) -> Seq<ExprView> {
        self.trees(self.root_nodes())
    }

    /// An arena without entries.
    pub fn new() -> (r: Self)
        ensures
            r.wf(),
            r.entries().len() == 0,
            r.kids().len() == 0,
            r.root_nodes() == (NodeRange { start: 0, end: 0 }),
            r.top().len() == 0,
    {
        ExpressionArena { expressions: Vec::new(), children: Vec::new(), roots: NodeRange { start: 0, end: 0 } }
    }

    /// Sets the range of the top-level expressions.
    pub fn set_roots(&mut self, root: NodeRange)
        requires
            old(self).wf(),
            range_ok(root, old(self).entries().len() as int, old(self).kids()),
        ensures
            final(self).wf(),
            final(self).entries() == old(self).entries(),
            final(self).kids() == old(self).kids(),
            final(self).root_nodes() == root,
    {
        self.roots = root;
    }

    /// Returns the range of the top-level expressions.
    pub fn root_range(&self) -> (r: &NodeRange)
        ensures
            *r == self.root_nodes(),
    {
        &self.roots
    }

    /// Appends `ids` to the children and returns their range.
    pub fn push_children(&mut self, ids: &[ExpressionId]) -> (r: NodeRange)
        requires
            old(self).wf(),
            forall|k: int| 0 <= k < ids@.len() ==> (#[trigger] ids@[k]).0 < old(self).entries().len(),
        ensures
            final(self).wf(),
            final(self).entries() == old(self).entries(),
            final(self).kids() == old(self).kids() + ids@,
            final(self).root_nodes() == old(self).root_nodes(),
            r.start == old(self).kids().len(),
            r.end == final(self).kids().len(),
            range_ok(r, final(self).entries().len() as int, final(self).kids()),
            forall|id: int| #[trigger] final(self).tree(id) == old(self).tree(id),
            final(self).trees(r).len() == ids@.len(),
            forall|k: int|
                0 <= k < ids@.len() ==> #[trigger] final(self).trees(r)[k] == old(self).tree(ids@[k].0 as int),
    {
        let ghost old_kids = self.children@;
        let ghost old_ex = self.expressions@;
        let ghost old_roots = self.roots;
        let start = self.children.len();
        let mut i: usize = 0;
        while i < ids.len()
            invariant
                0 <= i <= ids@.len(),
                self.children@ == old_kids + ids@.subrange(0, i as int),
                self.expressions@ == old_ex,
                self.roots == old_roots,
                old_kids.len() == start,
                forall|k: int| 0 <= k < ids@.len() ==> (#[trigger] ids@[k]).0 < self.expressions@.len(),
                arena_ok(self.expressions@, old_kids),
                range_ok(self.roots, self.expressions@.len() as int, old_kids),
            decreases ids.len() - i,
        {
            self.children.push(ids[i]);
            assert(self.children@ =~= old_kids + ids@.subrange(0, i + 1));
            i += 1;
        }
        assert(ids@.subrange(0, i as int) =~= ids@);
        let r = NodeRange { start, end: self.children.len() };
        proof {
            let ex = self.expressions@;
            let kids = self.children@;
            assert(kids.subrange(0, old_kids.len() as int) =~= old_kids);
            assert(ex.subrange(0, ex.len() as int) =~= ex);
            assert forall|id: int| #[trigger] tree_of(ex, kids, id) == tree_of(ex, old_kids, id) by {
                if 0 <= id < ex.len() {
                    lemma_tree_extend(ex, old_kids, ex, kids, id);
                }
            }
            assert forall|j: int| 0 <= j < ex.len() implies entry_ok(#[trigger] ex[j], j, kids) by {
                assert(entry_ok(ex[j], j, old_kids));
                match ex[j] {
                    ArenaEntry::AllOf(q) => assert(forall|k: int| q.start <= k < q.end ==> kids[k] == old_kids[k]),
                    ArenaEntry::AnyOf(q) => assert(forall|k: int| q.start <= k < q.end ==> kids[k] == old_kids[k]),
                    ArenaEntry::ExactlyOneOf(q) => assert(forall|k: int| q.start <= k < q.end ==> kids[k] == old_kids[k]),
                    ArenaEntry::AtMostOneOf(q) => assert(forall|k: int| q.start <= k < q.end ==> kids[k] == old_kids[k]),
                    ArenaEntry::Use { nodes, .. } => assert(forall|k: int| nodes.start <= k < nodes.end ==> kids[k] == old_kids[k]),
                    _ => {},
                }
            }
            assert(forall|k: int| self.roots.start <= k < self.roots.end ==> kids[k] == old_kids[k]);
            assert forall|k: int| r.start <= k < r.end implies (#[trigger] kids[k]).0 < ex.len() by {
                assert(kids[k] == ids@[k - start]);
            }
            lemma_trees_in(ex, kids, ex.len() as int, r.start as int, r.end as int);
            assert forall|k: int| 0 <= k < ids@.len() implies #[trigger] trees_in(ex, kids, ex.len() as int, r.start as int, r.end as int)[k] == tree_of(ex, old_kids, ids@[k].0 as int) by {
                assert(kids[start + k] == ids@[k]);
            }
        }
        r
    }

    /// Appends `expr` to the entries and returns its id.
    pub fn push_expression(&mut self, expr: ArenaEntry<T>) -> (r: ExpressionId)
        requires
            old(self).wf(),
            entry_ok(expr, old(self).entries().len() as int, old(self).kids()),
        ensures
            final(self).wf(),
            final(self).entries() == old(self).entries().push(expr),
            final(self).kids() == old(self).kids(),
            final(self).root_nodes() == old(self).root_nodes(),
            r.0 == old(self).entries().len(),
            forall|id: int| 0 <= id < old(self).entries().len() ==> #[trigger] final(self).tree(id) == old(self).tree(id),
            forall|q: NodeRange|
                range_ok(q, old(self).entries().len() as int, old(self).kids()) ==> #[trigger] final(self).trees(q)
                    == old(self).trees(q),
            final(self).tree(r.0 as int) == entry_view(expr, old(self).entries(), old(self).kids()),
    {
        let ghost ex = self.expressions@;
        let ghost kids = self.children@;
        let ghost e = expr;
        let id = ExpressionId(self.expressions.len());
        self.expressions.push(expr);
        proof {
            let ex2 = self.expressions@;
            assert(ex2.subrange(0, ex.len() as int) =~= ex);
            assert(kids.subrange(0, kids.len() as int) =~= kids);
            assert forall|i: int| 0 <= i < ex2.len() implies entry_ok(#[trigger] ex2[i], i, kids) by {
                if i < ex.len() {
                    assert(ex2[i] == ex[i]);
                    assert(entry_ok(ex[i], i, kids));
                }
            }
            assert forall|i: int| 0 <= i < ex.len() implies #[trigger] tree_of(ex2, kids, i) == tree_of(ex, kids, i) by {
                lemma_tree_extend(ex, kids, ex2, kids, i);
            }
            assert forall|q: NodeRange| range_ok(q, ex.len() as int, kids) implies #[trigger] trees_in(
                ex2,
                kids,
                ex2.len() as int,
                q.start as int,
                q.end as int,
            ) == trees_in(ex, kids, ex.len() as int, q.start as int, q.end as int) by {
                lemma_trees_bound(ex2, kids, ex.len() as int, ex2.len() as int, q.start as int, q.end as int);
                lemma_trees_extend(ex, kids, ex2, kids, ex.len() as int, q.start as int, q.end as int);
            }
            let n = ex.len() as int;
            assert(ex2[n] == e);
            match e {
                ArenaEntry::AllOf(q) => lemma_trees_extend(ex, kids, ex2, kids, n, q.start as int, q.end as int),
                ArenaEntry::AnyOf(q) => lemma_trees_extend(ex, kids, ex2, kids, n, q.start as int, q.end as int),
                ArenaEntry::ExactlyOneOf(q) => lemma_trees_extend(ex, kids, ex2, kids, n, q.start as int, q.end as int),
                ArenaEntry::AtMostOneOf(q) => lemma_trees_extend(ex, kids, ex2, kids, n, q.start as int, q.end as int),
                ArenaEntry::Use { nodes, .. } => lemma_trees_extend(
                    ex,
                    kids,
                    ex2,
                    kids,
                    n,
                    nodes.start as int,
                    nodes.end as int,
                ),
                ArenaEntry::Not(c) => lemma_tree_extend(ex, kids, ex2, kids, c.0 as int),
                ArenaEntry::Forbidden(c) => lemma_tree_extend(ex, kids, ex2, kids, c.0 as int),
                ArenaEntry::Item(_) => {},
            }
        }
        id
    }

    /// Returns the entry `id`.
    pub fn get_expression(&self, id: &ExpressionId) -> (r: &ArenaEntry<T>)
        requires
            id.0 < self.entries().len(),
        ensures
            *r == self.entries()[id.0 as int],
    {
        &self.expressions[id.0]
    }

    /// Returns the children in `range`.
    pub fn get_children(&self, range: &NodeRange) -> (r: &[ExpressionId])
        requires
            range.start <= range.end <= self.kids().len(),
        ensures
            r@ == self.kids().subrange(range.start as int, range.end as int),
    {
        vstd::slice::slice_subrange(self.children.as_slice(), range.start, range.end)
    }
}

impl<T: ExpressionItem> ArenaEntry<T> {
    /// Returns the kind of this entry.
    pub fn shape(&self) -> (r: Shape)
        ensures
            r == entry_shape(*self),
    {
        match self {
            ArenaEntry::Item(_) => Shape::Item,
            ArenaEntry::AllOf(_) => Shape::AllOf,
            ArenaEntry::AnyOf(_) => Shape::AnyOf,
            ArenaEntry::ExactlyOneOf(_) => Shape::ExactlyOneOf,
            ArenaEntry::AtMostOneOf(_) => Shape::AtMostOneOf,
            ArenaEntry::Use { .. } => Shape::Use,
            ArenaEntry::Not(_) => Shape::Not,
            ArenaEntry::Forbidden(_) => Shape::Forbidden,
        }
    }
}

/// Appends the opening of a group of kind `s`.
fn push_group_open(out: &mut String, s: Shape)
    ensures
        final(out)@ == old(out)@ + group_open(s),
{
    match s {
        Shape::AnyOf => {
            push_char(out, '|');
            push_char(out, '|');
            push_char(out, ' ');
        },
        Shape::ExactlyOneOf => {
            push_char(out, '^');
            push_char(out, '^');
            push_char(out, ' ');
        },
        Shape::AtMostOneOf => {
            push_char(out, '?');
            push_char(out, '?');
            push_char(out, ' ');
        },
        _ => {},
    }
    push_char(out, '(');
    push_char(out, ' ');
    assert(final(out)@ =~= old(out)@ + group_open(s));
}

impl<T: ExpressionItem> ExpressionArena<T> {
    /// Checks the expression against the context `kind`: returns the first problem in
    /// source order, such as an operator the context does not admit or a negation of
    /// something else than an item.
    pub fn validate(&self, kind: ExpressionKind) -> (r: Result<(), Error>)
        requires
            self.wf(),
        ensures
            match check_all(self.top(), kind) {
                None => r is Ok,
                Some(m) => r matches Err(e) && e.text() == m,
            },
    {
        self.validate_range(&self.roots, kind, Ghost(self.expressions@.len() as int))
    }

    fn validate_range(&self, range: &NodeRange, kind: ExpressionKind, Ghost(bound): Ghost<int>) -> (r: Result<(), Error>)
        requires
            self.wf(),
            0 <= bound <= self.entries().len(),
            range_ok(*range, bound, self.kids()),
        ensures
            match check_all(trees_in(self.entries(), self.kids(), bound, range.start as int, range.end as int), kind) {
                None => r is Ok,
                Some(m) => r matches Err(e) && e.text() == m,
            },
        decreases bound, 0int,
    {
        let ghost ts = trees_in(self.entries(), self.kids(), bound, range.start as int, range.end as int);
        proof {
            lemma_trees_in(self.entries(), self.kids(), bound, range.start as int, range.end as int);
            assert(ts.subrange(0, ts.len() as int) =~= ts);
        }
        let mut k = range.start;
        while k < range.end
            invariant
                range.start <= k <= range.end <= self.children@.len(),
                self.wf(),
                0 <= bound <= self.entries().len(),
                range_ok(*range, bound, self.kids()),
                ts.len() == range.end - range.start,
                ts == trees_in(self.entries(), self.kids(), bound, range.start as int, range.end as int),
                forall|j: int| 0 <= j < ts.len() ==> #[trigger] ts[j] == tree_of(self.entries(), self.kids(), self.kids()[range.start + j].0 as int),
                check_all(ts, kind) == check_all(ts.subrange(k - range.start, ts.len() as int), kind),
            decreases range.end - k,
        {
            let id = self.children[k];
            let ghost j = k - range.start;
            let ghost rest = ts.subrange(j, ts.len() as int);
            assert(rest[0] == ts[j]);
            assert(rest.subrange(1, rest.len() as int) =~= ts.subrange(j + 1, ts.len() as int));
            assert(self.kids()[k as int] == id);
            assert(ts[j] == self.tree(id.0 as int));
            match self.validate_expression(id, kind) {
                Err(e) => {
                    assert(check_tree(rest[0], kind) is Some);
                    assert(check_all(rest, kind) == check_tree(rest[0], kind));
                    return Err(e);
                },
                Ok(()) => {},
            }
            k += 1;
        }
        Ok(())
    }

    fn validate_expression(&self, id: ExpressionId, kind: ExpressionKind) -> (r: Result<(), Error>)
        requires
            self.wf(),
            id.0 < self.entries().len(),
        ensures
            match check_tree(self.tree(id.0 as int), kind) {
                None => r is Ok,
                Some(m) => r matches Err(e) && e.text() == m,
            },
        decreases id.0, 1int,
    {
        let expression = self.get_expression(&id);
        assert(entry_ok(self.entries()[id.0 as int], id.0 as int, self.kids()));
        if !kind.supports(expression.shape()) {
            let mut m = String::new();
            append_str(&mut m, expression.name());
            append_str(&mut m, " is not valid in ");
            append_str(&mut m, kind.name());
            append_str(&mut m, " expressions");
            return Err(Error::from_string(m));
        }
        match expression {
            ArenaEntry::Item(_) => Ok(()),
            ArenaEntry::Forbidden(_) => Ok(()),
            ArenaEntry::AllOf(nodes) => self.validate_range(nodes, kind, Ghost(id.0 as int)),
            ArenaEntry::AnyOf(nodes) => self.validate_range(nodes, kind, Ghost(id.0 as int)),
            ArenaEntry::ExactlyOneOf(nodes) => self.validate_range(nodes, kind, Ghost(id.0 as int)),
            ArenaEntry::AtMostOneOf(nodes) => self.validate_range(nodes, kind, Ghost(id.0 as int)),
            ArenaEntry::Use { nodes, .. } => self.validate_range(nodes, kind, Ghost(id.0 as int)),
            ArenaEntry::Not(node) => self.validate_negation(*node, kind),
        }
    }

    fn validate_negation(&self, node: ExpressionId, kind: ExpressionKind) -> (r: Result<(), Error>)
        requires
            self.wf(),
            node.0 < self.entries().len(),
        ensures
            match check_negation(self.tree(node.0 as int), kind) {
                None => r is Ok,
                Some(m) => r matches Err(e) && e.text() == m,
            },
    {
        match self.get_expression(&node) {
            ArenaEntry::Item(_) => match kind {
                ExpressionKind::Dependency | ExpressionKind::RequiredUse => Ok(()),
                _ => {
                    let mut m = String::new();
                    append_str(&mut m, "negation is not valid in ");
                    append_str(&mut m, kind.name());
                    append_str(&mut m, " expressions");
                    Err(Error::from_string(m))
                },
            },
            _ => Err(Error::new("negation must apply to an item")),
        }
    }

    /// Returns the expression written out: top-level expressions separated by single
    /// spaces, groups as `op ( a b )`.
    pub fn to_string(&self) -> (r: String)
        requires
            self.wf(),
        ensures
            r@ == render_all(self.top()),
    {
        let mut s = String::new();
        self.fmt_children(&self.roots, &mut s, Ghost(self.expressions@.len() as int));
        assert(s@ =~= render_all(self.top()));
        s
    }

    fn fmt_children(&self, range: &NodeRange, out: &mut String, Ghost(bound): Ghost<int>)
        requires
            self.wf(),
            0 <= bound <= self.entries().len(),
            range_ok(*range, bound, self.kids()),
        ensures
            final(out)@ == old(out)@ + render_all(
                trees_in(self.entries(), self.kids(), bound, range.start as int, range.end as int),
            ),
        decreases bound, 0int,
    {
        let ghost ts = trees_in(self.entries(), self.kids(), bound, range.start as int, range.end as int);
        let ghost start = out@;
        proof {
            lemma_trees_in(self.entries(), self.kids(), bound, range.start as int, range.end as int);
            assert(ts.subrange(0, 0) =~= Seq::<ExprView>::empty());
        }
        let mut k = range.start;
        while k < range.end
            invariant
                range.start <= k <= range.end <= self.children@.len(),
                self.wf(),
                0 <= bound <= self.entries().len(),
                range_ok(*range, bound, self.kids()),
                ts.len() == range.end - range.start,
                forall|j: int| 0 <= j < ts.len() ==> #[trigger] ts[j] == tree_of(self.entries(), self.kids(), self.kids()[range.start + j].0 as int),
                out@ == start + render_all(ts.subrange(0, k - range.start)),
            decreases range.end - k,
        {
            let id = self.children[k];
            let ghost j = k - range.start;
            let ghost pre = ts.subrange(0, j + 1);
            assert(pre.subrange(0, j) =~= ts.subrange(0, j));
            assert(pre[j] == ts[j]);
            assert(self.kids()[k as int] == id);
            if k > range.start {
                push_char(out, ' ');
            }
            self.fmt_expression(id, out);
            proof {
                if j == 0 {
                    assert(out@ =~= start + render_all(pre));
                } else {
                    assert(out@ =~= start + render_all(pre));
                }
            }
            k += 1;
        }
        assert(ts.subrange(0, ts.len() as int) =~= ts);
    }

    fn fmt_expression(&self, id: ExpressionId, out: &mut String)
        requires
            self.wf(),
            id.0 < self.entries().len(),
        ensures
            final(out)@ == old(out)@ + render(self.tree(id.0 as int)),
        decreases id.0, 1int,
    {
        let ghost start = out@;
        assert(entry_ok(self.entries()[id.0 as int], id.0 as int, self.kids()));
        match self.get_expression(&id) {
            ArenaEntry::Item(item) => {
                let t = item.to_string();
                append_str(out, t.as_str());
            },
            ArenaEntry::Not(node) => {
                push_char(out, '!');
                self.fmt_expression(*node, out);
                assert(out@ =~= start + render(self.tree(id.0 as int)));
            },
            ArenaEntry::Forbidden(node) => {
                push_char(out, '!');
                push_char(out, '!');
                self.fmt_expression(*node, out);
                assert(out@ =~= start + render(self.tree(id.0 as int)));
            },
            ArenaEntry::Use { flag, negated, nodes } => {
                if *negated {
                    push_char(out, '!');
                }
                append_str(out, flag.as_str());
                push_char(out, '?');
                push_char(out, ' ');
                push_char(out, '(');
                push_char(out, ' ');
                self.fmt_children(nodes, out, Ghost(id.0 as int));
                push_char(out, ' ');
                push_char(out, ')');
                assert(out@ =~= start + render(self.tree(id.0 as int)));
            },
            ArenaEntry::AllOf(nodes) => {
                push_group_open(out, Shape::AllOf);
                self.fmt_children(nodes, out, Ghost(id.0 as int));
                push_char(out, ' ');
                push_char(out, ')');
                assert(out@ =~= start + render(self.tree(id.0 as int)));
            },
            ArenaEntry::AnyOf(nodes) => {
                push_group_open(out, Shape::AnyOf);
                self.fmt_children(nodes, out, Ghost(id.0 as int));
                push_char(out, ' ');
                push_char(out, ')');
                assert(out@ =~= start + render(self.tree(id.0 as int)));
            },
            ArenaEntry::ExactlyOneOf(nodes) => {
                push_group_open(out, Shape::ExactlyOneOf);
                self.fmt_children(nodes, out, Ghost(id.0 as int));
                push_char(out, ' ');
                push_char(out, ')');
                assert(out@ =~= start + render(self.tree(id.0 as int)));
            },
            ArenaEntry::AtMostOneOf(nodes) => {
                push_group_open(out, Shape::AtMostOneOf);
                self.fmt_children(nodes, out, Ghost(id.0 as int));
                push_char(out, ' ');
                push_char(out, ')');
                assert(out@ =~= start + render(self.tree(id.0 as int)));
            },
        }
    }
}

impl<T: ExpressionItem> ExpressionArena<T> {
    /// The entry `id` of a well formed arena refers only to entries before it.
    pub proof fn lemma_entry_ok(&self, id: int)
        requires
            self.wf(),
            0 <= id < self.entries().len(),
        ensures
            entry_ok(self.entries()[id], id, self.kids()),
            arena_ok(self.entries(), self.kids()),
    {
    }

    /// The roots of a well formed arena are entries of it.
    pub proof fn lemma_roots_ok(&self)
        requires
            self.wf(),
        ensures
            range_ok(self.root_nodes(), self.entries().len() as int, self.kids()),
    {
    }

    /// Returns a borrowed view of the arena.
    pub fn view(&self) -> (r: ExpressionTree<'_, T>)
        ensures
            *r.arena == *self,
    {
        ExpressionTree { arena: self }
    }

    /// Returns the child at position `k` of the children lists.
    pub fn child(&self, k: usize) -> (r: ExpressionId)
        requires
            k < self.kids().len(),
        ensures
            r == self.kids()[k as int],
    {
        self.children[k]
    }

    /// Returns the expression of the entry `id` written out.
    pub fn node_string(&self, id: ExpressionId) -> (r: String)
        requires
            self.wf(),
            id.0 < self.entries().len(),
        ensures
            r@ == render(self.tree(id.0 as int)),
    {
        let mut s = String::new();
        self.fmt_expression(id, &mut s);
        assert(s@ =~= render(self.tree(id.0 as int)));
        s
    }

    /// Returns the expressions of the children in `range` written out, separated by
    /// single spaces.
    pub fn range_string(&self, range: &NodeRange) -> (r: String)
        requires
            self.wf(),
            range_ok(*range, self.entries().len() as int, self.kids()),
        ensures
            r@ == render_all(self.trees(*range)),
    {
        let mut s = String::new();
        self.fmt_children(range, &mut s, Ghost(self.expressions@.len() as int));
        assert(s@ =~= render_all(self.trees(*range)));
        s
    }
}

/// The expressions of a range do not depend on the bound, as long as it lies above every
/// child.
pub proof fn lemma_trees_bound<T: ExpressionItem>(
    exprs: Seq<ArenaEntry<T>>,
    kids: Seq<ExpressionId>,
    bound: int,
    bound2: int,
    start: int,
    end: int,
)
    requires
        bound <= bound2,
        start <= end <= kids.len(),
        forall|k: int| start <= k < end ==> (#[trigger] kids[k]).0 < bound,
    ensures
        trees_in(exprs, kids, bound2, start, end) == trees_in(exprs, kids, bound, start, end),
    decreases end - start,
{
    if start < end && 0 <= end - 1 {
        lemma_trees_bound(exprs, kids, bound, bound2, start, end - 1);
    }
}

} // verus!
