//! The document tree: a closed set of node kinds, each owning what is below
//! it, and the mathematical tree that such a node stands for.

use vstd::prelude::*;
use crate::attributes::{AstLiteral, Attributes, LiteralView};

verus! {

/// The root of a document: its items in reading order.
#[derive(Debug)]
pub struct AstNodeRoot {
    pub children: Vec<ASTNode>,
}

/// A tag block: its name, its attributes and the items between its braces,
/// in reading order.
#[derive(Debug)]
pub struct AstNodeTag {
    pub text: String,
    pub children: Vec<ASTNode>,
    pub attributes: Attributes,
}

/// A run of literal text.
#[derive(Debug)]
pub struct AstNodeText {
    pub text: String,
}

/// A node of the document tree.
#[derive(Debug)]
pub enum ASTNode {
    Root(AstNodeRoot),
    Tag(AstNodeTag),
    Text(AstNodeText),
    Literal(AstLiteral),
}

/// The tree that a node stands for.
pub enum NodeView {
    Root(Seq<NodeView>),
    Tag { name: Seq<char>, attributes: Map<Seq<char>, LiteralView>, children: Seq<NodeView> },
    Text(Seq<char>),
    Literal(LiteralView),
}

/// The trees that a sequence of nodes stands for, in order.
pub open spec fn nodes_view(nodes: Seq<ASTNode>) -> Seq<NodeView>
    decreases nodes, 0nat,
{
    Seq::new(
        nodes.len(),
        |i: int|
            if 0 <= i < nodes.len() {
                node_view(nodes[i])
            } else {
                NodeView::Root(Seq::empty())
            },
    )
}

/// The tree that `node` stands for.
pub open spec fn node_view(node: ASTNode) -> NodeView
    decreases node, 1nat,
{
    match node {
        ASTNode::Root(root) => NodeView::Root(nodes_view(root.children@)),
        ASTNode::Tag(tag) => NodeView::Tag {
            name: tag.text@,
            attributes: tag.attributes@,
            children: nodes_view(tag.children@),
        },
        ASTNode::Text(text) => NodeView::Text(text.text@),
        ASTNode::Literal(literal) => NodeView::Literal(literal@),
    }
}

impl View for ASTNode {
    type V = NodeView;

    open spec fn view(&self) -> NodeView {
        node_view(*self)
    }
}

impl View for AstNodeRoot {
    type V = NodeView;

    open spec fn view(&self) -> NodeView {
        NodeView::Root(nodes_view(self.children@))
    }
}

impl View for AstNodeTag {
    type V = NodeView;

    open spec fn view(&self) -> NodeView {
        NodeView::Tag {
            name: self.text@,
            attributes: self.attributes@,
            children: nodes_view(self.children@),
        }
    }
}

impl View for AstNodeText {
    type V = NodeView;

    open spec fn view(&self) -> NodeView {
        NodeView::Text(self.text@)
    }
}

/// Appending a node appends its tree.
pub proof fn lemma_nodes_view_push(nodes: Seq<ASTNode>, node: ASTNode)
    ensures
        nodes_view(nodes.push(node)) == nodes_view(nodes).push(node@),
{
    assert(nodes_view(nodes.push(node)) =~= nodes_view(nodes).push(node@));
}

impl AstNodeTag {
    /// A tag named `text`, without attributes and without children.
    pub fn new(text: String) -> (tag: AstNodeTag)
        ensures
            tag@ == (NodeView::Tag {
                name: text@,
                attributes: Map::empty(),
                children: Seq::empty(),
            }),
    {
        let tag = AstNodeTag { text, children: Vec::new(), attributes: Attributes::new() };
        assert(nodes_view(tag.children@) =~= Seq::<NodeView>::empty());
        tag
    }
}

} // verus!
