//! The walk over a function body: every annotated `match`, at any depth, is
//! checked in source order and loses its annotation.

use vstd::prelude::*;
use crate::arms::{arm_verdict, is_sorted_match_arms};
use crate::diagnostic::{diagnostic_views, usage_error, Diagnostic, DiagnosticView};
use crate::tree::{Item, ItemView, MatchExpr, MatchExprView, Node, NodeView, node_views};

verus! {

impl MatchExprView {
    /// The same `match` without the annotation.
    pub open spec fn stripped(self) -> MatchExprView {
        MatchExprView { annotated: false, arms: self.arms }
    }

    /// The diagnostics of this `match` alone: those of its arms where it is
    /// annotated, none where it is not.
    pub open spec fn diagnostics(self) -> Seq<DiagnosticView> {
        if self.annotated {
            match arm_verdict(self.arms) {
                Some(d) => seq![d],
                None => Seq::empty(),
            }
        } else {
            Seq::empty()
        }
    }
}

/// The diagnostics of a list of `match` expressions, in the order of the list.
pub open spec fn verdicts(matches: Seq<MatchExprView>) -> Seq<DiagnosticView>
    decreases matches.len(),
{
    if matches.len() == 0 {
        Seq::empty()
    } else {
        verdicts(matches.drop_last()) + matches.last().diagnostics()
    }
}

impl NodeView {
    /// The annotated `match` expressions in this piece of code, at any depth,
    /// each before those written inside it, in source order.
    pub open spec fn annotated(self) -> Seq<MatchExprView>
        decreases self,
    {
        match self {
            NodeView::Match { expr, children } => {
                if expr.annotated {
                    seq![expr] + annotated_in(children)
                } else {
                    annotated_in(children)
                }
            },
            NodeView::Other { children } => annotated_in(children),
        }
    }

    /// The same code with the annotation removed from every `match`.
    pub open spec fn stripped(self) -> NodeView
        decreases self,
    {
        match self {
            NodeView::Match { expr, children } => NodeView::Match {
                expr: expr.stripped(),
                children: stripped_all(children),
            },
            NodeView::Other { children } => NodeView::Other { children: stripped_all(children) },
        }
    }

    /// The diagnostics of this piece of code: those of its annotated `match`
    /// expressions, in the order in which the walk meets them.
    pub open spec fn diagnostics(self) -> Seq<DiagnosticView> {
        verdicts(self.annotated())
    }
}

/// The annotated `match` expressions in a list of pieces, in source order.
pub open spec fn annotated_in(nodes: Seq<NodeView>) -> Seq<MatchExprView>
    decreases nodes,
{
    if nodes.len() == 0 {
        Seq::empty()
    } else {
        annotated_in(nodes.drop_last()) + nodes.last().annotated()
    }
}

/// A list of pieces, each with the annotations removed.
pub open spec fn stripped_all(nodes: Seq<NodeView>) -> Seq<NodeView>
    decreases nodes,
{
    Seq::new(
        nodes.len(),
        |i: int|
            if 0 <= i < nodes.len() {
                nodes[i].stripped()
            } else {
                NodeView::Other { children: Seq::empty() }
            },
    )
}

impl ItemView {
    /// The item as the annotation check leaves it: a function with every
    /// annotation removed from its body, any other item as it was.
    pub open spec fn checked(self) -> ItemView {
        match self {
            ItemView::Function(body) => ItemView::Function(body.stripped()),
            _ => self,
        }
    }

    /// `reported` is what the annotation check gives of this item: the
    /// diagnostics of the body of a function, the usage error of any other
    /// item.
    pub open spec fn check_outcome(self, reported: Seq<DiagnosticView>) -> bool {
        match self {
            ItemView::Function(body) => reported == body.diagnostics(),
            _ => usage_error(reported),
        }
    }
}

/// The views of a list of borrowed `match` expressions, one by one.
pub open spec fn match_views(matches: Seq<&MatchExpr>) -> Seq<MatchExprView> {
    matches.map_values(|m: &MatchExpr| m@)
}

/// The diagnostics of two lists, one after the other, are those of the lists
/// joined.
pub proof fn lemma_verdicts_concat(a: Seq<MatchExprView>, b: Seq<MatchExprView>)
    ensures
        verdicts(a + b) == verdicts(a) + verdicts(b),
    decreases b.len(),
{
    if b.len() == 0 {
        assert(a + b =~= a);
    } else {
        lemma_verdicts_concat(a, b.drop_last());
        assert((a + b).drop_last() =~= a + b.drop_last());
        assert((a + b).last() == b.last());
        assert(verdicts(a + b) =~= verdicts(a) + verdicts(b));
    }
}

/// The diagnostics of a single `match`, as a list of one.
pub proof fn lemma_verdicts_single(m: MatchExprView)
    ensures
        verdicts(seq![m]) == m.diagnostics(),
{
    assert(seq![m].drop_last() =~= Seq::<MatchExprView>::empty());
    assert(verdicts(seq![m].drop_last()) =~= Seq::<DiagnosticView>::empty());
    assert(verdicts(seq![m]) =~= m.diagnostics());
}

/// The annotated `match` expressions of the first `i + 1` pieces are those
/// of the first `i` followed by those of the piece at `i`.
proof fn lemma_annotated_in_step(nodes: Seq<NodeView>, i: int)
    requires
        0 <= i < nodes.len(),
    ensures
        annotated_in(nodes.take(i + 1)) == annotated_in(nodes.take(i)) + nodes[i].annotated(),
{
    assert(nodes.take(i + 1).drop_last() =~= nodes.take(i));
}

/// Collects the annotated `match` expressions of a piece of code behind those
/// already found.
fn collect_annotated<'a>(node: &'a Node, found: &mut Vec<&'a MatchExpr>)
    ensures
        match_views(final(found)@) == match_views(old(found)@) + node@.annotated(),
    decreases node, 1nat,
{
    match node {
        Node::Match { expr, children } => {
            if expr.annotated {
                found.push(expr);
                assert(match_views(found@) =~= match_views(old(found)@) + seq![expr@]);
            }
            collect_annotated_in(children, found);
        },
        Node::Other { children } => {
            collect_annotated_in(children, found);
        },
    }
}

/// Collects the annotated `match` expressions of a list of pieces behind
/// those already found.
fn collect_annotated_in<'a>(nodes: &'a Vec<Node>, found: &mut Vec<&'a MatchExpr>)
    ensures
        match_views(final(found)@) == match_views(old(found)@) + annotated_in(node_views(*nodes)),
    decreases nodes, 0nat,
{
    let ghost views = node_views(*nodes);
    let mut i: usize = 0;
    while i < nodes.len()
        invariant
            i <= nodes.len(),
            views == node_views(*nodes),
            match_views(found@) == match_views(old(found)@) + annotated_in(views.take(i as int)),
        decreases nodes.len() - i,
    {
        collect_annotated(&nodes[i], found);
        proof {
            lemma_annotated_in_step(views, i as int);
        }
        i = i + 1;
    }
    assert(views.take(nodes.len() as int) =~= views);
}

/// The walk that only locates: the annotated `match` expressions of a piece
/// of code, at any depth, in source order, each before those inside it.
pub fn annotated_matches<'a>(node: &'a Node) -> (found: Vec<&'a MatchExpr>)
    ensures
        match_views(found@) == node@.annotated(),
{
    let mut found: Vec<&'a MatchExpr> = Vec::new();
    collect_annotated(node, &mut found);
    assert(match_views(found@) =~= node@.annotated());
    found
}

/// The walk that checks and rewrites. It gathers the diagnostics of every
/// annotated `match` that it meets.
pub struct MatchVisitor {
    pub errors: Vec<Diagnostic>,
}

impl MatchVisitor {
    /// A visitor that has reported nothing yet.
    pub fn new() -> (visitor: MatchVisitor)
        ensures
            visitor.errors@ == Seq::<Diagnostic>::empty(),
    {
        MatchVisitor { errors: Vec::new() }
    }

    /// Visits one `match`: where it is annotated, its arms are checked, a
    /// violation is added to the diagnostics, and the annotation is removed.
    /// The arms stay as they are.
    pub fn visit_expr_match_mut(&mut self, expr_match: &mut MatchExpr)
        ensures
            final(expr_match)@ == old(expr_match)@.stripped(),
            diagnostic_views(final(self).errors@) == diagnostic_views(old(self).errors@) + old(
                expr_match,
            )@.diagnostics(),
    {
        if expr_match.annotated {
            if let Err(e) = is_sorted_match_arms(expr_match) {
                self.errors.push(e);
            }
            expr_match.annotated = false;
        }
        assert(diagnostic_views(self.errors@) =~= diagnostic_views(old(self).errors@) + old(
            expr_match,
        )@.diagnostics());
    }

    /// Visits a piece of code: every `match` in it, at any depth, is visited
    /// in source order, each before those inside it.
    pub fn visit_node_mut(&mut self, node: &mut Node)
        ensures
            final(node)@ == old(node)@.stripped(),
            diagnostic_views(final(self).errors@) == diagnostic_views(old(self).errors@) + old(
                node,
            )@.diagnostics(),
        decreases *old(node), 1nat,
    {
        let ghost before = diagnostic_views(self.errors@);
        match node {
            Node::Match { expr, children } => {
                let ghost own = expr@;
                let ghost inner = annotated_in(node_views(*children));
                self.visit_expr_match_mut(expr);
                self.visit_nodes_mut(children);
                proof {
                    lemma_verdicts_single(own);
                    if own.annotated {
                        lemma_verdicts_concat(seq![own], inner);
                    }
                    assert(diagnostic_views(self.errors@) =~= before + old(node)@.diagnostics());
                }
            },
            Node::Other { children } => {
                self.visit_nodes_mut(children);
            },
        }
    }

    /// Visits the pieces of a list in order.
    fn visit_nodes_mut(&mut self, nodes: &mut Vec<Node>)
        ensures
            node_views(*final(nodes)) == stripped_all(node_views(*old(nodes))),
            diagnostic_views(final(self).errors@) == diagnostic_views(old(self).errors@)
                + verdicts(annotated_in(node_views(*old(nodes)))),
        decreases *old(nodes), 0nat,
    {
        let ghost before = diagnostic_views(self.errors@);
        let ghost views = node_views(*nodes);
        let count: usize = nodes.len();
        let mut i: usize = 0;
        while i < count
            invariant
                i <= count,
                count == nodes.len(),
                count == old(nodes).len(),
                views == node_views(*old(nodes)),
                forall|k: int| 0 <= k < i ==> (#[trigger] nodes[k])@ == views[k].stripped(),
                forall|k: int| i <= k < count ==> #[trigger] nodes[k] == old(nodes)[k],
                diagnostic_views(self.errors@) == before + verdicts(
                    annotated_in(views.take(i as int)),
                ),
            decreases count - i,
        {
            self.visit_node_mut(&mut nodes[i]);
            proof {
                lemma_annotated_in_step(views, i as int);
                lemma_verdicts_concat(
                    annotated_in(views.take(i as int)),
                    views[i as int].annotated(),
                );
            }
            i = i + 1;
        }
        assert(views.take(count as int) =~= views);
        assert(node_views(*nodes) =~= stripped_all(views));
    }
}

/// The annotation check: in a function, every annotated `match` is checked
/// and loses its annotation, and the diagnostics come back in the order in
/// which the walk met their `match`. Any other item is left as it is and
/// gives the usage error.
pub fn check(item: &mut Item) -> (diagnostics: Vec<Diagnostic>)
    ensures
        final(item)@ == old(item)@.checked(),
        old(item)@.check_outcome(diagnostic_views(diagnostics@)),
{
    let mut visitor: MatchVisitor = MatchVisitor::new();
    match item {
        Item::Function(body) => {
            visitor.visit_node_mut(body);
            assert(diagnostic_views(visitor.errors@) =~= old(item)@->Function_0.diagnostics());
        },
        _ => {
            visitor.errors.push(Diagnostic::usage());
            assert(diagnostic_views(visitor.errors@)[0] == visitor.errors@[0]@);
        },
    }
    visitor.errors
}

/// The annotated `match` expressions of two lists of pieces, one after the
/// other, are those of the lists joined.
pub proof fn lemma_annotated_in_concat(a: Seq<NodeView>, b: Seq<NodeView>)
    ensures
        annotated_in(a + b) == annotated_in(a) + annotated_in(b),
    decreases b.len(),
{
    if b.len() == 0 {
        assert(a + b =~= a);
    } else {
        lemma_annotated_in_concat(a, b.drop_last());
        assert((a + b).drop_last() =~= a + b.drop_last());
        assert((a + b).last() == b.last());
        assert(annotated_in(a + b) =~= annotated_in(a) + annotated_in(b));
    }
}

/// Each `match` gives at most one diagnostic: once a rule is found broken,
/// nothing more is reported of the same `match`.
pub proof fn law_one_diagnostic_per_match(matches: Seq<MatchExprView>)
    ensures
        verdicts(matches).len() <= matches.len(),
    decreases matches.len(),
{
    if matches.len() > 0 {
        law_one_diagnostic_per_match(matches.drop_last());
    }
}

/// What is reported of one piece of code does not depend on the pieces
/// beside it: the diagnostics of a list of pieces are those of the pieces
/// before `i`, then those of the piece at `i`, then those of the pieces after.
pub proof fn law_siblings_independent(nodes: Seq<NodeView>, i: int)
    requires
        0 <= i < nodes.len(),
    ensures
        verdicts(annotated_in(nodes)) == verdicts(annotated_in(nodes.take(i)))
            + nodes[i].diagnostics() + verdicts(annotated_in(nodes.skip(i + 1))),
{
    let before = nodes.take(i);
    let after = nodes.skip(i + 1);
    assert(nodes =~= before.push(nodes[i]) + after);
    lemma_annotated_in_concat(before.push(nodes[i]), after);
    assert(before.push(nodes[i]).drop_last() =~= before);
    lemma_verdicts_concat(annotated_in(before) + nodes[i].annotated(), annotated_in(after));
    lemma_verdicts_concat(annotated_in(before), nodes[i].annotated());
}

/// After the rewrite no `match` is annotated, so a second walk reports
/// nothing and changes nothing.
pub proof fn law_stripped_is_final(node: NodeView)
    ensures
        node.stripped().annotated() == Seq::<MatchExprView>::empty(),
        node.stripped().diagnostics() == Seq::<DiagnosticView>::empty(),
        node.stripped().stripped() == node.stripped(),
    decreases node,
{
    lemma_stripped_all_is_final(node.children());
    assert(node.stripped().annotated() =~= Seq::<MatchExprView>::empty());
}

/// The same of a list of pieces.
proof fn lemma_stripped_all_is_final(nodes: Seq<NodeView>)
    ensures
        annotated_in(stripped_all(nodes)) == Seq::<MatchExprView>::empty(),
        stripped_all(stripped_all(nodes)) == stripped_all(nodes),
    decreases nodes,
{
    let done = stripped_all(nodes);
    assert forall|i: int| 0 <= i < nodes.len() implies (#[trigger] done[i]).annotated()
        == Seq::<MatchExprView>::empty() && done[i].stripped() == done[i] by {
        law_stripped_is_final(nodes[i]);
    }
    lemma_none_annotated(done);
    assert(stripped_all(done) =~= done);
}

/// A list of pieces none of which holds an annotated `match` holds none.
proof fn lemma_none_annotated(nodes: Seq<NodeView>)
    requires
        forall|i: int|
            0 <= i < nodes.len() ==> (#[trigger] nodes[i]).annotated() == Seq::<
                MatchExprView,
            >::empty(),
    ensures
        annotated_in(nodes) == Seq::<MatchExprView>::empty(),
    decreases nodes.len(),
{
    if nodes.len() > 0 {
        lemma_none_annotated(nodes.drop_last());
        assert(nodes.last() == nodes[nodes.len() - 1]);
        assert(annotated_in(nodes) =~= Seq::<MatchExprView>::empty());
    }
}

/// Code without an annotated `match` is left exactly as it is.
pub proof fn law_unannotated_unchanged(node: NodeView)
    requires
        node.annotated().len() == 0,
    ensures
        node.stripped() == node,
    decreases node,
{
    let children = node.children();
    assert(annotated_in(children).len() == 0);
    lemma_unannotated_all_unchanged(children);
    match node {
        NodeView::Match { expr, children } => {
            assert(!expr.annotated);
        },
        NodeView::Other { children } => {},
    }
}

/// The same of a list of pieces.
proof fn lemma_unannotated_all_unchanged(nodes: Seq<NodeView>)
    requires
        annotated_in(nodes).len() == 0,
    ensures
        stripped_all(nodes) == nodes,
    decreases nodes,
{
    assert forall|i: int| 0 <= i < nodes.len() implies (#[trigger] nodes[i]).stripped()
        == nodes[i] by {
        lemma_part_of_whole(nodes, i);
        law_unannotated_unchanged(nodes[i]);
    }
    assert(stripped_all(nodes) =~= nodes);
}

/// The annotated `match` expressions of one piece are among those of the
/// list that holds it.
proof fn lemma_part_of_whole(nodes: Seq<NodeView>, i: int)
    requires
        0 <= i < nodes.len(),
    ensures
        nodes[i].annotated().len() <= annotated_in(nodes).len(),
{
    let before = nodes.take(i);
    let after = nodes.skip(i + 1);
    assert(nodes =~= before.push(nodes[i]) + after);
    lemma_annotated_in_concat(before.push(nodes[i]), after);
    assert(before.push(nodes[i]).drop_last() =~= before);
}

/// The annotation check settles a function: applied to its own result, it
/// changes nothing and reports nothing.
pub proof fn law_check_idempotent(item: ItemView)
    ensures
        item.checked().checked() == item.checked(),
        item is Function ==> item.checked().check_outcome(Seq::empty()),
{
    if let ItemView::Function(body) = item {
        law_stripped_is_final(body);
    }
}

} // verus!
