//! Documents as they are written: the derivations of the grammar, the
//! tokens that spell each of them and the tree that each of them means.

use vstd::prelude::*;
use crate::attributes::LiteralView;
use crate::grammar::{literal_of, punct};
use crate::node::NodeView;
use crate::token::TokenView;

verus! {

/// One attribute as written: the name, `=`, the value and, where `comma` is
/// set, a comma behind it. The grammar puts a comma between two attributes
/// and allows one behind the last; the parser does not miss one that is
/// left out.
pub struct WrittenAttribute {
    pub name: TokenView,
    pub value: TokenView,
    pub comma: bool,
}

/// One item of a document as written.
pub enum Item {
    /// A tag block: the name, the attribute list between `(` and `)` if
    /// there is one, and the items between `{` and `}` if there are braces.
    Tag { name: Seq<char>, attributes: Option<Seq<WrittenAttribute>>, body: Option<Seq<Item>> },
    /// A run of text.
    Text(TokenView),
    /// A literal that stands by itself.
    Literal(TokenView),
}

impl WrittenAttribute {
    /// The name is a text token and the value a literal.
    pub open spec fn well_formed(self) -> bool {
        self.name is Text && self.value.is_literal()
    }

    /// The tokens that spell the attribute.
    pub open spec fn tokens(self) -> Seq<TokenView> {
        if self.comma {
            seq![self.name, punct('='), self.value, punct(',')]
        } else {
            seq![self.name, punct('='), self.value]
        }
    }
}

/// Every attribute of the list is well formed.
pub open spec fn attributes_well_formed(attributes: Seq<WrittenAttribute>) -> bool {
    forall|i: int| 0 <= i < attributes.len() ==> (#[trigger] attributes[i]).well_formed()
}

/// The tokens that spell the attributes, without the parentheses.
pub open spec fn attribute_tokens(attributes: Seq<WrittenAttribute>) -> Seq<TokenView>
    decreases attributes.len(),
{
    if attributes.len() == 0 {
        Seq::empty()
    } else {
        attributes[0].tokens() + attribute_tokens(attributes.drop_first())
    }
}

/// The mapping that results from `assigned` when the attributes are assigned
/// in the order in which they are written: where a name is written twice,
/// the later value stays.
pub open spec fn attribute_map(
    attributes: Seq<WrittenAttribute>,
    assigned: Map<Seq<char>, LiteralView>,
) -> Map<Seq<char>, LiteralView>
    decreases attributes.len(),
{
    if attributes.len() == 0 {
        assigned
    } else {
        attribute_map(
            attributes.drop_first(),
            assigned.insert(attributes[0].name->text, literal_of(attributes[0].value)),
        )
    }
}

impl Item {
    /// Whether the item is a derivation of the grammar: text is a text
    /// token, a literal a literal token, and the same holds of what a tag
    /// block is made of.
    pub open spec fn well_formed(self) -> bool
        decreases self,
    {
        match self {
            Item::Tag { name, attributes, body } => {
                &&& attributes matches Some(list) ==> attributes_well_formed(list)
                &&& body matches Some(items) ==> forall|i: int|
                    0 <= i < items.len() ==> (#[trigger] items[i]).well_formed()
            },
            Item::Text(token) => token is Text,
            Item::Literal(token) => token.is_literal(),
        }
    }

    /// The tokens that spell the item.
    pub open spec fn tokens(self) -> Seq<TokenView>
        decreases self, 1nat,
    {
        match self {
            Item::Tag { name, attributes, body } => {
                seq![TokenView::Tag(name)] + (match attributes {
                    Some(list) => seq![punct('(')] + attribute_tokens(list) + seq![punct(')')],
                    None => Seq::empty(),
                }) + (match body {
                    Some(items) => seq![punct('{')] + tokens_of(items) + seq![punct('}')],
                    None => Seq::empty(),
                })
            },
            Item::Text(token) => seq![token],
            Item::Literal(token) => seq![token],
        }
    }

    /// The node that the item means.
    pub open spec fn node(self) -> NodeView
        decreases self, 1nat,
    {
        match self {
            Item::Tag { name, attributes, body } => NodeView::Tag {
                name,
                attributes: match attributes {
                    Some(list) => attribute_map(list, Map::empty()),
                    None => Map::empty(),
                },
                children: match body {
                    Some(items) => nodes_of(items),
                    None => Seq::empty(),
                },
            },
            Item::Text(token) => NodeView::Text(token->text),
            Item::Literal(token) => NodeView::Literal(literal_of(token)),
        }
    }
}

/// Every item of the sequence is a derivation of the grammar.
pub open spec fn all_well_formed(items: Seq<Item>) -> bool {
    forall|i: int| 0 <= i < items.len() ==> (#[trigger] items[i]).well_formed()
}

/// The tokens that spell the items, one item after the other.
pub open spec fn tokens_of(items: Seq<Item>) -> Seq<TokenView>
    decreases items, 0nat,
{
    if items.len() == 0 {
        Seq::empty()
    } else {
        items[0].tokens() + tokens_of(items.drop_first())
    }
}

/// The nodes that the items mean, in order.
pub open spec fn nodes_of(items: Seq<Item>) -> Seq<NodeView>
    decreases items, 0nat,
{
    if items.len() == 0 {
        Seq::empty()
    } else {
        seq![items[0].node()] + nodes_of(items.drop_first())
    }
}

} // verus!
