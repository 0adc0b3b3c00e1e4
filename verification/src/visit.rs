//! Traversal: a visit walks a tree in reading order and reports what it
//! passes, so that whoever renders the document needs to know the events
//! only and not the shape of the tree.

use vstd::prelude::*;
use crate::attributes::{AstLiteral, Attributes, LiteralView};
use crate::node::{nodes_view, ASTNode, AstNodeRoot, AstNodeTag, AstNodeText, NodeView};

verus! {

/// What a visit reports. A tag is reported twice, where it opens, with its
/// name and attributes, and where it closes; what it holds is reported in
/// between.
#[derive(Debug)]
pub enum VisitEvent {
    TagOpen { name: String, attributes: Attributes },
    TagClose,
    Text(String),
    Literal(AstLiteral),
}

/// An event, with strings as sequences of characters and the attributes
/// as a mapping.
pub enum EventView {
    TagOpen { name: Seq<char>, attributes: Map<Seq<char>, LiteralView> },
    TagClose,
    Text(Seq<char>),
    Literal(LiteralView),
}

impl View for VisitEvent {
    type V = EventView;

    open spec fn view(&self) -> EventView {
        match *self {
            VisitEvent::TagOpen { name, attributes } => EventView::TagOpen {
                name: name@,
                attributes: attributes@,
            },
            VisitEvent::TagClose => EventView::TagClose,
            VisitEvent::Text(text) => EventView::Text(text@),
            VisitEvent::Literal(literal) => EventView::Literal(literal@),
        }
    }
}

/// The views of a vector of events, in order.
pub open spec fn events_view(events: Seq<VisitEvent>) -> Seq<EventView> {
    events.map_values(|e: VisitEvent| e@)
}

/// What a visit of `node` reports: nothing for a root but what its children
/// report, a tag's opening and closing around what its children report, and
/// a leaf by itself.
pub open spec fn trace(node: NodeView) -> Seq<EventView>
    decreases node, 1nat,
{
    match node {
        NodeView::Root(children) => trace_all(children),
        NodeView::Tag { name, attributes, children } => seq![
            EventView::TagOpen { name, attributes },
        ] + trace_all(children) + seq![EventView::TagClose],
        NodeView::Text(text) => seq![EventView::Text(text)],
        NodeView::Literal(literal) => seq![EventView::Literal(literal)],
    }
}

/// What visits of `nodes` report, one node after the other.
pub open spec fn trace_all(nodes: Seq<NodeView>) -> Seq<EventView>
    decreases nodes, 0nat,
{
    if nodes.len() == 0 {
        Seq::empty()
    } else {
        trace_all(nodes.drop_last()) + trace(nodes.last())
    }
}

/// A node that can be visited.
pub trait IAstNode {
    /// What a visit of this node reports.
    spec fn reports(&self) -> Seq<EventView>;

    /// Visits the node and what is below it, in reading order, and appends
    /// what it passes to `out`. The node is left as it is.
    fn visit(&self, out: &mut Vec<VisitEvent>)
        ensures
            events_view(final(out)@) == events_view(old(out)@) + self.reports(),
    ;
}

/// Appends `event` to `out`.
fn report(out: &mut Vec<VisitEvent>, event: VisitEvent)
    ensures
        events_view(final(out)@) == events_view(old(out)@).push(event@),
{
    out.push(event);
    assert(events_view(out@) =~= events_view(old(out)@).push(event@));
}

/// Visits `nodes` one after the other.
fn visit_all(nodes: &Vec<ASTNode>, out: &mut Vec<VisitEvent>)
    ensures
        events_view(final(out)@) == events_view(old(out)@) + trace_all(nodes_view(nodes@)),
    decreases nodes, 0nat,
{
    let mut i: usize = 0;
    while i < nodes.len()
        invariant
            i <= nodes@.len(),
            events_view(out@) == events_view(old(out)@) + trace_all(
                nodes_view(nodes@).take(i as int),
            ),
        decreases nodes@.len() - i,
    {
        proof {
            let seen = nodes_view(nodes@).take(i + 1);
            assert(seen.drop_last() =~= nodes_view(nodes@).take(i as int));
            assert(seen.last() == nodes@[i as int]@);
        }
        visit_node(&nodes[i], out);
        i = i + 1;
    }
    proof {
        assert(nodes_view(nodes@).take(i as int) =~= nodes_view(nodes@));
    }
}

/// Visits `node` and what is below it.
fn visit_node(node: &ASTNode, out: &mut Vec<VisitEvent>)
    ensures
        events_view(final(out)@) == events_view(old(out)@) + trace(node@),
    decreases node, 1nat,
{
    match node {
        ASTNode::Root(root) => {
            visit_all(&root.children, out);
        },
        ASTNode::Tag(tag) => {
            report(
                out,
                VisitEvent::TagOpen { name: tag.text.clone(), attributes: tag.attributes.clone() },
            );
            visit_all(&tag.children, out);
            report(out, VisitEvent::TagClose);
        },
        ASTNode::Text(text) => {
            report(out, VisitEvent::Text(text.text.clone()));
        },
        ASTNode::Literal(literal) => {
            report(out, VisitEvent::Literal(literal.clone()));
        },
    }
}

impl IAstNode for AstNodeRoot {
    open spec fn reports(&self) -> Seq<EventView> {
        trace(self@)
    }

    fn visit(&self, out: &mut Vec<VisitEvent>) {
        visit_all(&self.children, out);
    }
}

impl IAstNode for AstNodeTag {
    open spec fn reports(&self) -> Seq<EventView> {
        trace(self@)
    }

    fn visit(&self, out: &mut Vec<VisitEvent>) {
        report(
            out,
            VisitEvent::TagOpen { name: self.text.clone(), attributes: self.attributes.clone() },
        );
        visit_all(&self.children, out);
        report(out, VisitEvent::TagClose);
    }
}

impl IAstNode for AstNodeText {
    open spec fn reports(&self) -> Seq<EventView> {
        trace(self@)
    }

    fn visit(&self, out: &mut Vec<VisitEvent>) {
        report(out, VisitEvent::Text(self.text.clone()));
    }
}

impl IAstNode for AstLiteral {
    open spec fn reports(&self) -> Seq<EventView> {
        trace(NodeView::Literal(self@))
    }

    fn visit(&self, out: &mut Vec<VisitEvent>) {
        report(out, VisitEvent::Literal(self.clone()));
    }
}

impl IAstNode for ASTNode {
    open spec fn reports(&self) -> Seq<EventView> {
        trace(self@)
    }

    fn visit(&self, out: &mut Vec<VisitEvent>) {
        visit_node(self, out);
    }
}

} // verus!
