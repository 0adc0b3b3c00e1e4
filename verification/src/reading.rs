//! Reading ahead: what a parser finds when it passes over tokens one by
//! one, and that it reads every derivation of the grammar as the derivation
//! is meant.

use vstd::prelude::*;
use crate::attributes::LiteralView;
use crate::grammar::{
    attribute, attribute_list, body, document, lemma_attribute_list_measure,
    lemma_document_measure, lemma_tag_block_measure, literal_of, punct, tag_block, State,
};
use crate::node::NodeView;
use crate::syntax::{
    all_well_formed, attribute_map, attribute_tokens, attributes_well_formed, nodes_of, tokens_of,
    Item, WrittenAttribute,
};
use crate::token::TokenView;

verus! {

/// The state after pulling `n` tokens.
pub open spec fn skip(s: State, n: nat) -> State
    decreases n,
{
    if n == 0 {
        s
    } else {
        skip(s, (n - 1) as nat).advance()
    }
}

/// Whether `tokens` are what the parser finds from `s` on: the current
/// token first, then what it pulls.
pub open spec fn reads(s: State, tokens: Seq<TokenView>) -> bool {
    forall|j: nat| j < tokens.len() ==> (#[trigger] skip(s, j)).current == tokens[j as int]
}

/// Pulling `a` tokens and then `b` is pulling `a + b`.
pub proof fn lemma_skip_skip(s: State, a: nat, b: nat)
    ensures
        skip(skip(s, a), b) == skip(s, a + b),
    decreases b,
{
    if b > 0 {
        lemma_skip_skip(s, a, (b - 1) as nat);
    }
}

/// Pulling tokens records nothing.
pub proof fn lemma_skip_keeps_errors(s: State, n: nat)
    ensures
        skip(s, n).errors == s.errors,
    decreases n,
{
    if n > 0 {
        lemma_skip_keeps_errors(s, (n - 1) as nat);
    }
}

/// A parser that reads `front + back` reads `front` and, once it is past
/// it, `back`.
pub proof fn lemma_reads_split(s: State, front: Seq<TokenView>, back: Seq<TokenView>)
    requires
        reads(s, front + back),
    ensures
        reads(s, front),
        reads(skip(s, front.len()), back),
{
    let all = front + back;
    assert forall|j: nat| j < front.len() implies (#[trigger] skip(s, j)).current == front[j as int] by {
        assert(all[j as int] == front[j as int]);
    }
    assert forall|j: nat| j < back.len() implies (#[trigger] skip(skip(s, front.len()), j)).current
        == back[j as int] by {
        lemma_skip_skip(s, front.len(), j);
        assert(skip(s, front.len() + j).current == all[(front.len() + j) as int]);
    }
}

/// The first tokens, one by one.
pub proof fn lemma_reads_first(s: State, tokens: Seq<TokenView>)
    requires
        reads(s, tokens),
    ensures
        tokens.len() > 0 ==> s.current == tokens[0],
        tokens.len() > 1 ==> s.advance().current == tokens[1] && skip(s, 1) == s.advance(),
        tokens.len() > 2 ==> s.advance().advance().current == tokens[2] && skip(s, 2)
            == s.advance().advance(),
        tokens.len() > 3 ==> s.advance().advance().advance().current == tokens[3] && skip(s, 3)
            == s.advance().advance().advance(),
{
    reveal_with_fuel(skip, 5);
    if tokens.len() > 0 {
        assert(skip(s, 0).current == tokens[0]);
    }
    if tokens.len() > 1 {
        assert(skip(s, 1).current == tokens[1]);
    }
    if tokens.len() > 2 {
        assert(skip(s, 2).current == tokens[2]);
    }
    if tokens.len() > 3 {
        assert(skip(s, 3).current == tokens[3]);
    }
}

/// A well-formed attribute is read as written: its value is assigned to
/// its name. Where no comma is written behind it, the token that follows
/// must not be one.
pub proof fn lemma_attribute_reads(
    s: State,
    written: WrittenAttribute,
    assigned: Map<Seq<char>, LiteralView>,
)
    requires
        written.well_formed(),
        reads(s, written.tokens()),
        !written.comma ==> skip(s, 3).current != punct(','),
    ensures
        attribute(s, assigned) == (
            skip(s, written.tokens().len()),
            assigned.insert(written.name->text, literal_of(written.value)),
        ),
{
    reveal_with_fuel(skip, 5);
    lemma_reads_first(s, written.tokens());
    if written.comma {
        assert(skip(s, 4) == skip(s, 3).advance());
    }
}

/// A well-formed attribute list is read as written, up to and with the
/// closing `)`.
pub proof fn lemma_attributes_read(
    s: State,
    list: Seq<WrittenAttribute>,
    assigned: Map<Seq<char>, LiteralView>,
)
    requires
        attributes_well_formed(list),
        reads(s, attribute_tokens(list) + seq![punct(')')]),
    ensures
        attribute_list(s, assigned) == (
            skip(s, attribute_tokens(list).len() + 1),
            attribute_map(list, assigned),
        ),
    decreases list.len(),
{
    reveal_with_fuel(skip, 2);
    let closing = seq![punct(')')];
    if list.len() == 0 {
        lemma_reads_first(s, attribute_tokens(list) + closing);
    } else {
        let first = list[0];
        let rest = list.drop_first();
        let behind = attribute_tokens(rest) + closing;
        assert(first.well_formed());
        assert(attributes_well_formed(rest)) by {
            assert forall|i: int| 0 <= i < rest.len() implies (#[trigger] rest[i]).well_formed() by {
                assert(rest[i] == list[i + 1]);
            }
        }
        assert(attribute_tokens(list) + closing =~= first.tokens() + behind);
        lemma_reads_split(s, first.tokens(), behind);
        lemma_reads_first(s, first.tokens());
        let s1 = skip(s, first.tokens().len());
        lemma_reads_first(s1, behind);
        assert(behind[0] != punct(',')) by {
            if rest.len() > 0 {
                assert(rest[0].well_formed());
                assert(behind[0] == rest[0].tokens()[0]);
            }
        }
        lemma_attribute_reads(s, first, assigned);
        lemma_attributes_read(
            s1,
            rest,
            assigned.insert(first.name->text, literal_of(first.value)),
        );
        lemma_skip_skip(s, first.tokens().len(), attribute_tokens(rest).len() + 1);
    }
}

/// Whether `token` can stand behind a run of items without being taken
/// for a part of the last of them: it ends the run, and it opens neither an
/// attribute list nor a body.
pub open spec fn closes_run(token: TokenView) -> bool {
    (token is Character || token is EndOfFile) && token != punct('(') && token != punct('{')
}

/// A well-formed item starts with a token that starts an item.
pub proof fn lemma_first_token(item: Item)
    requires
        item.well_formed(),
    ensures
        item.tokens().len() > 0,
        !(item.tokens()[0] is Character),
        !(item.tokens()[0] is EndOfFile),
        !(item.tokens()[0] is Error),
{
}

/// A well-formed tag block is read as written.
pub proof fn lemma_tag_reads(s: State, item: Item)
    requires
        item is Tag,
        item.well_formed(),
        reads(s, item.tokens()),
        item->attributes is None ==> skip(s, item.tokens().len()).current != punct('('),
        item->body is None ==> skip(s, item.tokens().len()).current != punct('{'),
    ensures
        tag_block(s, item->name) == (skip(s, item.tokens().len()), item.node()),
    decreases item, 0nat,
{
    reveal_with_fuel(skip, 3);
    let name = seq![TokenView::Tag(item->name)];
    let list_tokens = match item->attributes {
        Some(list) => seq![punct('(')] + attribute_tokens(list) + seq![punct(')')],
        None => Seq::empty(),
    };
    let body_tokens = match item->body {
        Some(items) => seq![punct('{')] + tokens_of(items) + seq![punct('}')],
        None => Seq::empty(),
    };
    assert(item.tokens() == name + list_tokens + body_tokens);
    assert(item.tokens() =~= name + (list_tokens + body_tokens));
    lemma_reads_split(s, name, list_tokens + body_tokens);
    lemma_reads_first(s, name);
    let s0 = s.advance();
    assert(s0 == skip(s, 1));
    lemma_reads_split(s0, list_tokens, body_tokens);
    lemma_skip_skip(s, 1, list_tokens.len());
    // The attribute list, if one is written.
    let s2 = skip(s0, list_tokens.len());
    let (s1, opened) = s0.accept(punct('('));
    match item->attributes {
        Some(list) => {
            let inner = attribute_tokens(list) + seq![punct(')')];
            assert(list_tokens =~= seq![punct('(')] + inner);
            lemma_reads_split(s0, seq![punct('(')], inner);
            lemma_reads_first(s0, seq![punct('(')]);
            assert(s1 == skip(s0, 1));
            lemma_attributes_read(s1, list, Map::empty());
            lemma_skip_skip(s0, 1, inner.len());
            lemma_attribute_list_measure(s1, Map::empty());
        },
        None => {
            assert(s2 == s0);
            lemma_reads_first(s0, body_tokens);
            if item->body is None {
                assert(item.tokens().len() == 1);
            }
        },
    }
    // The body, if one is written.
    let (s3, braced) = s2.accept(punct('{'));
    match item->body {
        Some(items) => {
            let inner = tokens_of(items) + seq![punct('}')];
            assert(body_tokens =~= seq![punct('{')] + inner);
            lemma_reads_split(s2, seq![punct('{')], inner);
            lemma_reads_first(s2, seq![punct('{')]);
            assert(s3 == skip(s2, 1));
            assert(all_well_formed(items));
            lemma_body_reads(s3, items);
            lemma_skip_skip(s2, 1, inner.len());
            lemma_skip_skip(s, 1 + list_tokens.len(), body_tokens.len());
        },
        None => {
            assert(item.tokens().len() == 1 + list_tokens.len());
        },
    }
}

/// A run of well-formed items is read as written: the parser appends the
/// nodes that the items mean and stops behind the last of them.
pub proof fn lemma_document_reads(s: State, items: Seq<Item>, children: Seq<NodeView>)
    requires
        all_well_formed(items),
        reads(s, tokens_of(items)),
        closes_run(skip(s, tokens_of(items).len()).current),
    ensures
        document(s, children) == (skip(s, tokens_of(items).len()), children + nodes_of(items)),
    decreases items, 1nat,
{
    reveal_with_fuel(skip, 2);
    if items.len() == 0 {
        assert(children + nodes_of(items) =~= children);
    } else {
        let first = items[0];
        let rest = items.drop_first();
        let k = first.tokens().len();
        assert(first.well_formed());
        assert(all_well_formed(rest)) by {
            assert forall|i: int| 0 <= i < rest.len() implies (#[trigger] rest[i]).well_formed() by {
                assert(rest[i] == items[i + 1]);
            }
        }
        lemma_first_token(first);
        lemma_reads_split(s, first.tokens(), tokens_of(rest));
        lemma_reads_first(s, first.tokens());
        let s1 = skip(s, k);
        lemma_skip_skip(s, k, tokens_of(rest).len());
        lemma_reads_first(s1, tokens_of(rest));
        if rest.len() > 0 {
            assert(rest[0].well_formed());
            lemma_first_token(rest[0]);
            assert(tokens_of(rest)[0] == rest[0].tokens()[0]);
        }
        assert(children.push(first.node()) + nodes_of(rest) =~= children + nodes_of(items));
        match first {
            Item::Tag { name, attributes, body } => {
                lemma_tag_reads(s, first);
                lemma_tag_block_measure(s, name);
                lemma_document_reads(s1, rest, children.push(first.node()));
            },
            Item::Text(token) => {
                lemma_document_reads(s1, rest, children.push(first.node()));
            },
            Item::Literal(token) => {
                lemma_document_reads(s1, rest, children.push(first.node()));
            },
        }
    }
}

/// The items between braces are read as written, up to and with the
/// closing `}`.
pub proof fn lemma_body_reads(s: State, items: Seq<Item>)
    requires
        all_well_formed(items),
        reads(s, tokens_of(items) + seq![punct('}')]),
    ensures
        body(s, Seq::empty()) == (skip(s, tokens_of(items).len() + 1), nodes_of(items)),
    decreases items, 2nat,
{
    reveal_with_fuel(skip, 2);
    let closing = seq![punct('}')];
    let n = tokens_of(items).len();
    lemma_reads_split(s, tokens_of(items), closing);
    lemma_reads_first(s, tokens_of(items) + closing);
    let s1 = skip(s, n);
    lemma_reads_first(s1, closing);
    assert(skip(s, n + 1) == s1.advance());
    assert(body(s1, nodes_of(items)) == (s1.advance(), nodes_of(items)));
    if items.len() > 0 {
        assert(items[0].well_formed());
        lemma_first_token(items[0]);
        assert((tokens_of(items) + closing)[0] == items[0].tokens()[0]);
        lemma_document_reads(s, items, Seq::empty());
        lemma_document_measure(s, Seq::empty());
        assert(Seq::<NodeView>::empty() + nodes_of(items) =~= nodes_of(items));
    }
}

} // verus!
