//! What holds of every parse and of every traversal.

use vstd::prelude::*;
use crate::attributes::LiteralView;
use crate::grammar::{
    attribute, attribute_list, body, document, lemma_attribute_measure, lemma_document_measure,
    literal_of, located, no_assignment, not_a_literal, not_a_name, parsed, punct, remainder,
    tag_block, tokenizer_error, unexpected_eof, unexpected_token, State,
};
use crate::node::NodeView;
use crate::reading::{
    lemma_document_reads, lemma_first_token, lemma_reads_first, lemma_skip_keeps_errors, reads,
    skip,
};
use crate::syntax::{
    all_well_formed, attribute_map, attribute_tokens, attributes_well_formed, nodes_of, tokens_of,
    Item, WrittenAttribute,
};
use crate::token::{empty_text, TokenView};
use crate::visit::{trace, EventView};

verus! {

/// Whether `entry` reads as a diagnostic does: a message with a line
/// number in front.
pub open spec fn is_diagnostic(entry: Seq<char>) -> bool {
    exists|line: usize, message: Seq<char>| entry == #[trigger] located(line, message)
}

/// Whether the log `later` is the log `earlier` with diagnostics added at
/// its end.
pub open spec fn extends(later: Seq<Seq<char>>, earlier: Seq<Seq<char>>) -> bool {
    &&& earlier.len() <= later.len()
    &&& forall|i: int| 0 <= i < earlier.len() ==> later[i] == earlier[i]
    &&& forall|i: int| earlier.len() <= i < later.len() ==> is_diagnostic(#[trigger] later[i])
}

/// What extends an extension of a log extends the log.
pub proof fn lemma_extends_twice(
    last: Seq<Seq<char>>,
    between: Seq<Seq<char>>,
    first: Seq<Seq<char>>,
)
    requires
        extends(between, first),
        extends(last, between),
    ensures
        extends(last, first),
{
    assert forall|i: int| first.len() <= i < last.len() implies is_diagnostic(
        #[trigger] last[i],
    ) by {
        if i < between.len() {
            assert(last[i] == between[i]);
        }
    }
}

/// Recording a message adds one diagnostic.
pub proof fn lemma_fail_extends(s: State, message: Seq<char>)
    ensures
        extends(s.fail(message).errors, s.errors),
        s.fail(message).errors.len() == s.errors.len() + 1,
{
    assert(is_diagnostic(located(s.source.line_no, message)));
}

/// Waiting for a token adds at most one diagnostic.
pub proof fn lemma_expect_extends(s: State, expected: TokenView)
    ensures
        extends(s.expect(expected).0.errors, s.errors),
{
    lemma_fail_extends(s, unexpected_eof(expected));
}

/// Asking for a token adds at most one diagnostic.
pub proof fn lemma_require_extends(s: State, expected: TokenView)
    ensures
        extends(s.require(expected).0.errors, s.errors),
{
    lemma_fail_extends(s, unexpected_token(expected, s.current));
}

/// An attribute only adds to the log.
pub proof fn lemma_attribute_extends(s: State, assigned: Map<Seq<char>, LiteralView>)
    ensures
        extends(attribute(s, assigned).0.errors, s.errors),
{
    let name = s.current;
    let (s1, named) = s.expect(empty_text());
    lemma_expect_extends(s, empty_text());
    let s2 = if named {
        s1
    } else {
        s1.fail(not_a_name(name))
    };
    lemma_fail_extends(s1, not_a_name(name));
    lemma_extends_twice(s2.errors, s1.errors, s.errors);
    let (s3, equals) = s2.expect(punct('='));
    lemma_expect_extends(s2, punct('='));
    lemma_extends_twice(s3.errors, s2.errors, s.errors);
    let s4 = if equals {
        s3
    } else {
        s3.fail(no_assignment(name))
    };
    lemma_fail_extends(s3, no_assignment(name));
    lemma_extends_twice(s4.errors, s3.errors, s.errors);
    lemma_fail_extends(s4, not_a_literal(name));
    let s5 = if s4.current.is_literal() {
        s4.advance()
    } else {
        s4.fail(not_a_literal(name))
    };
    lemma_extends_twice(s5.errors, s4.errors, s.errors);
}

/// An attribute list only adds to the log.
pub proof fn lemma_attribute_list_extends(s: State, assigned: Map<Seq<char>, LiteralView>)
    ensures
        extends(attribute_list(s, assigned).0.errors, s.errors),
    decreases s.measure(),
{
    let (s1, closed) = s.expect(punct(')'));
    lemma_expect_extends(s, punct(')'));
    if !closed {
        lemma_attribute_measure(s, assigned);
        let (s2, then) = attribute(s, assigned);
        lemma_attribute_extends(s, assigned);
        lemma_attribute_list_extends(s2, then);
        lemma_extends_twice(attribute_list(s2, then).0.errors, s2.errors, s.errors);
    }
}

/// A run of items only adds to the log.
pub proof fn lemma_document_extends(s: State, children: Seq<NodeView>)
    ensures
        extends(document(s, children).0.errors, s.errors),
    decreases s.measure(), 1nat,
{
    match s.current {
        TokenView::Tag(name) => {
            lemma_tag_block_extends(s, name);
            let (s1, tag) = tag_block(s, name);
            if s1.measure() < s.measure() {
                lemma_document_extends(s1, children.push(tag));
                lemma_extends_twice(
                    document(s1, children.push(tag)).0.errors,
                    s1.errors,
                    s.errors,
                );
            }
        },
        TokenView::StringLiteral(_) | TokenView::NumberLiteral(_) | TokenView::BoolLiteral(_) => {
            lemma_document_extends(
                s.advance(),
                children.push(NodeView::Literal(literal_of(s.current))),
            );
        },
        TokenView::Text { text, .. } => {
            lemma_document_extends(s.advance(), children.push(NodeView::Text(text)));
        },
        TokenView::Character(_) => {},
        TokenView::Error(message) => {
            let s1 = s.fail(tokenizer_error(message));
            lemma_fail_extends(s, tokenizer_error(message));
            lemma_document_extends(s1, children);
            lemma_extends_twice(document(s1, children).0.errors, s1.errors, s.errors);
        },
        TokenView::EndOfFile => {},
    }
}

/// A tag block only adds to the log.
pub proof fn lemma_tag_block_extends(s: State, name: Seq<char>)
    ensures
        extends(tag_block(s, name).0.errors, s.errors),
    decreases s.measure(), 0nat,
{
    let (s1, opened) = s.advance().accept(punct('('));
    let (s2, attributes) = if opened {
        attribute_list(s1, Map::empty())
    } else {
        (s1, Map::empty())
    };
    if opened {
        lemma_attribute_list_extends(s1, Map::empty());
    }
    let (s3, braced) = s2.accept(punct('{'));
    if braced && s3.measure() < s.measure() {
        lemma_body_extends(s3, Seq::empty());
        lemma_extends_twice(body(s3, Seq::empty()).0.errors, s3.errors, s.errors);
    }
}

/// The body of a tag block only adds to the log.
pub proof fn lemma_body_extends(s: State, children: Seq<NodeView>)
    ensures
        extends(body(s, children).0.errors, s.errors),
    decreases s.measure(), 2nat,
{
    let (s1, closed) = s.expect(punct('}'));
    lemma_expect_extends(s, punct('}'));
    if closed {
    } else if s.current is Character {
        let s2 = s.require(punct('}')).0;
        lemma_require_extends(s, punct('}'));
        lemma_body_extends(s2, children);
        lemma_extends_twice(body(s2, children).0.errors, s2.errors, s.errors);
    } else {
        lemma_document_extends(s, children);
        let (s2, items) = document(s, children);
        if s2.measure() < s.measure() {
            lemma_body_extends(s2, items);
            lemma_extends_twice(body(s2, items).0.errors, s2.errors, s.errors);
        }
    }
}

/// What follows the first run of items only adds to the log.
pub proof fn lemma_remainder_extends(s: State, children: Seq<NodeView>)
    ensures
        extends(remainder(s, children).0.errors, s.errors),
    decreases s.measure(),
{
    let (s1, done) = s.require(TokenView::EndOfFile);
    lemma_require_extends(s, TokenView::EndOfFile);
    if !done {
        lemma_document_measure(s1, children);
        lemma_document_extends(s1, children);
        let (s2, items) = document(s1, children);
        lemma_extends_twice(s2.errors, s1.errors, s.errors);
        lemma_remainder_extends(s2, items);
        lemma_extends_twice(remainder(s2, items).0.errors, s2.errors, s.errors);
    }
}

/// The log is append-only: a parse leaves every diagnostic that was
/// recorded before it in its place and adds its own behind them, each
/// with a line number in front.
pub proof fn log_is_append_only(s: State)
    ensures
        extends(parsed(s).0.errors, s.errors),
{
    let s0 = s.advance();
    lemma_document_extends(s0, Seq::empty());
    let (s1, first) = document(s0, Seq::empty());
    lemma_remainder_extends(s1, first);
    lemma_extends_twice(remainder(s1, first).0.errors, s1.errors, s.errors);
}

/// A tree and a diagnostic exclude each other: a parse gives a tree if and
/// only if the log is empty when it ends, and the tree is then a root.
pub proof fn tree_or_diagnostics(s: State)
    ensures
        parsed(s).1 is Some <==> parsed(s).0.errors.len() == 0,
        parsed(s).1 matches Some(tree) ==> tree is Root,
        s.errors.len() > 0 ==> parsed(s).1 is None,
{
    log_is_append_only(s);
}

/// The empty document: a parser that finds the end of the input at once
/// gives a root without children and records nothing.
pub proof fn empty_document_is_a_root(s: State)
    requires
        s.source.peek() is EndOfFile,
    ensures
        parsed(s).1 == if s.errors.len() == 0 {
            Some(NodeView::Root(Seq::empty()))
        } else {
            None
        },
        parsed(s).0.errors == s.errors,
{
    let s0 = s.advance();
    assert(document(s0, Seq::empty()) == (s0, Seq::<NodeView>::empty()));
    assert(remainder(s0, Seq::empty()) == (s0.advance(), Seq::<NodeView>::empty()));
}

/// What a token source yields when its stream spells `tokens` and then
/// ends, in an end-of-file token or because nothing is left: the tokens,
/// then the end of the input.
pub proof fn lemma_source_reads(s: State, tokens: Seq<TokenView>, j: nat)
    requires
        s.source.pos == 0,
        tokens.len() <= s.source.tokens.len(),
        forall|i: int| 0 <= i < tokens.len() ==> s.source.tokens[i].token == tokens[i],
        forall|i: int| 0 <= i < tokens.len() ==> !(tokens[i] is EndOfFile),
        tokens.len() < s.source.tokens.len() ==> s.source.tokens[tokens.len() as int].token
            is EndOfFile,
        j <= tokens.len(),
    ensures
        skip(s.advance(), j).source.tokens == s.source.tokens,
        skip(s.advance(), j).source.pos == if j < tokens.len() {
            j + 1
        } else {
            tokens.len()
        },
        skip(s.advance(), j).current == if j < tokens.len() {
            tokens[j as int]
        } else {
            TokenView::EndOfFile
        },
    decreases j,
{
    if j > 0 {
        lemma_source_reads(s, tokens, (j - 1) as nat);
    }
}

/// No well-formed item is spelled with an end-of-file token.
pub proof fn lemma_tokens_before_end(items: Seq<Item>, i: int)
    requires
        all_well_formed(items),
        0 <= i < tokens_of(items).len(),
    ensures
        !(tokens_of(items)[i] is EndOfFile),
    decreases items, 1nat,
{
    let first = items[0];
    let rest = items.drop_first();
    assert(first.well_formed());
    if i < first.tokens().len() {
        lemma_item_tokens_before_end(first, i);
    } else {
        assert(all_well_formed(rest)) by {
            assert forall|k: int| 0 <= k < rest.len() implies (#[trigger] rest[k]).well_formed() by {
                assert(rest[k] == items[k + 1]);
            }
        }
        lemma_tokens_before_end(rest, i - first.tokens().len());
    }
}

/// No token of a well-formed item is an end-of-file token.
pub proof fn lemma_item_tokens_before_end(item: Item, i: int)
    requires
        item.well_formed(),
        0 <= i < item.tokens().len(),
    ensures
        !(item.tokens()[i] is EndOfFile),
    decreases item, 0nat,
{
    match item {
        Item::Tag { name, attributes, body } => {
            let list_tokens = match attributes {
                Some(list) => seq![punct('(')] + attribute_tokens(list) + seq![
                    punct(')'),
                ],
                None => Seq::empty(),
            };
            if i >= 1 && i < 1 + list_tokens.len() {
                let list = attributes->0;
                if 1 < i < list_tokens.len() {
                    lemma_attribute_tokens_before_end(list, i - 2);
                }
            } else if i >= 1 + list_tokens.len() {
                let items = body->0;
                let k = i - 1 - list_tokens.len();
                if 0 < k <= tokens_of(items).len() {
                    assert(all_well_formed(items));
                    lemma_tokens_before_end(items, k - 1);
                }
            }
        },
        Item::Text(token) => {},
        Item::Literal(token) => {},
    }
}

/// No token of a well-formed attribute list is an end-of-file token.
pub proof fn lemma_attribute_tokens_before_end(
    list: Seq<WrittenAttribute>,
    i: int,
)
    requires
        attributes_well_formed(list),
        0 <= i < attribute_tokens(list).len(),
    ensures
        !(attribute_tokens(list)[i] is EndOfFile),
    decreases list.len(),
{
    let first = list[0];
    let rest = list.drop_first();
    assert(first.well_formed());
    if i >= first.tokens().len() {
        assert(attributes_well_formed(rest)) by {
            assert forall|k: int| 0 <= k < rest.len() implies (#[trigger] rest[k]).well_formed() by {
                assert(rest[k] == list[k + 1]);
            }
        }
        lemma_attribute_tokens_before_end(rest, i - first.tokens().len());
    }
}

/// The round trip of a well-formed document: where the token source holds
/// the tokens that spell a sequence of well-formed items, and then ends, a
/// parse records nothing and gives the root whose children are the nodes
/// that the items mean, in the order in which they are written.
pub proof fn well_formed_round_trip(s: State, items: Seq<Item>)
    requires
        all_well_formed(items),
        s.errors.len() == 0,
        s.source.pos == 0,
        tokens_of(items).len() <= s.source.tokens.len(),
        forall|i: int|
            0 <= i < tokens_of(items).len() ==> s.source.tokens[i].token == tokens_of(items)[i],
        tokens_of(items).len() < s.source.tokens.len() ==> s.source.tokens[tokens_of(
            items,
        ).len() as int].token is EndOfFile,
    ensures
        parsed(s).1 == Some(NodeView::Root(nodes_of(items))),
        parsed(s).0.errors.len() == 0,
{
    let tokens = tokens_of(items);
    let n = tokens.len();
    let s0 = s.advance();
    assert forall|i: int| 0 <= i < n implies !(tokens[i] is EndOfFile) by {
        lemma_tokens_before_end(items, i);
    }
    assert(reads(s0, tokens)) by {
        assert forall|j: nat| j < n implies (#[trigger] skip(s0, j)).current == tokens[j as int] by {
            lemma_source_reads(s, tokens, j);
        }
    }
    lemma_source_reads(s, tokens, n);
    lemma_document_reads(s0, items, Seq::empty());
    lemma_skip_keeps_errors(s0, n);
    let s1 = skip(s0, n);
    assert(Seq::<NodeView>::empty() + nodes_of(items) =~= nodes_of(items));
    assert(remainder(s1, nodes_of(items)) == (s1.advance(), nodes_of(items)));
}

/// A body that is not closed is reported: where the items between the
/// braces are well formed and the input ends behind them, the body holds
/// the nodes that the items mean, and the one diagnostic added says that
/// the input ended where `}` was to come.
pub proof fn unterminated_body_is_reported(s: State, items: Seq<Item>)
    requires
        all_well_formed(items),
        reads(s, tokens_of(items)),
        skip(s, tokens_of(items).len()).current is EndOfFile,
    ensures
        body(s, Seq::empty()) == (
            skip(s, tokens_of(items).len()).fail(unexpected_eof(punct('}'))),
            nodes_of(items),
        ),
        body(s, Seq::empty()).0.errors == s.errors.push(
            located(
                skip(s, tokens_of(items).len()).source.line_no,
                unexpected_eof(punct('}')),
            ),
        ),
{
    let n = tokens_of(items).len();
    let end = skip(s, n);
    lemma_skip_keeps_errors(s, n);
    assert(body(end, nodes_of(items)) == (end.fail(unexpected_eof(punct('}'))), nodes_of(items)));
    if items.len() > 0 {
        assert(items[0].well_formed());
        lemma_first_token(items[0]);
        lemma_reads_first(s, tokens_of(items));
        assert(tokens_of(items)[0] == items[0].tokens()[0]);
        lemma_document_reads(s, items, Seq::empty());
        lemma_document_measure(s, Seq::empty());
        assert(Seq::<NodeView>::empty() + nodes_of(items) =~= nodes_of(items));
    }
}

/// An attribute that is assigned something other than a literal is
/// reported under its name, on the line of what stands in the literal's
/// place, and assigns nothing.
pub proof fn non_literal_value_is_reported(s: State, assigned: Map<Seq<char>, LiteralView>)
    requires
        s.current is Text,
        s.advance().current == punct('='),
        !s.advance().advance().current.is_literal(),
    ensures
        attribute(s, assigned).1 == assigned,
        attribute(s, assigned).0.errors == s.errors.push(
            located(s.advance().advance().source.line_no, not_a_literal(s.current)),
        ),
{
}

/// Whether the parser knows of the end of the input only from its source:
/// if the current token is end-of-file, the source has no other token left.
/// This holds from the first pull on.
pub open spec fn in_step(s: State) -> bool {
    s.current is EndOfFile ==> s.source.peek() is EndOfFile
}

/// An attribute list leaves the parser in step with its source.
pub proof fn lemma_attribute_list_in_step(s: State, assigned: Map<Seq<char>, LiteralView>)
    requires
        in_step(s),
    ensures
        in_step(attribute_list(s, assigned).0),
    decreases s.measure(),
{
    let (s1, closed) = s.expect(punct(')'));
    if !closed {
        lemma_attribute_measure(s, assigned);
        let (s2, then) = attribute(s, assigned);
        lemma_attribute_list_in_step(s2, then);
    }
}

/// A run of items leaves the parser in step with its source.
pub proof fn lemma_document_in_step(s: State, children: Seq<NodeView>)
    requires
        in_step(s),
    ensures
        in_step(document(s, children).0),
    decreases s.measure(), 1nat,
{
    match s.current {
        TokenView::Tag(name) => {
            lemma_tag_block_in_step(s, name);
            let (s1, tag) = tag_block(s, name);
            if s1.measure() < s.measure() {
                lemma_document_in_step(s1, children.push(tag));
            }
        },
        TokenView::StringLiteral(_) | TokenView::NumberLiteral(_) | TokenView::BoolLiteral(_) => {
            lemma_document_in_step(
                s.advance(),
                children.push(NodeView::Literal(literal_of(s.current))),
            );
        },
        TokenView::Text { text, .. } => {
            lemma_document_in_step(s.advance(), children.push(NodeView::Text(text)));
        },
        TokenView::Character(_) => {},
        TokenView::Error(message) => {
            lemma_document_in_step(s.fail(tokenizer_error(message)), children);
        },
        TokenView::EndOfFile => {},
    }
}

/// A tag block leaves the parser in step with its source.
pub proof fn lemma_tag_block_in_step(s: State, name: Seq<char>)
    ensures
        in_step(tag_block(s, name).0),
    decreases s.measure(), 0nat,
{
    let (s1, opened) = s.advance().accept(punct('('));
    let (s2, attributes) = if opened {
        attribute_list(s1, Map::empty())
    } else {
        (s1, Map::empty())
    };
    if opened {
        lemma_attribute_list_in_step(s1, Map::empty());
    }
    let (s3, braced) = s2.accept(punct('{'));
    if braced && s3.measure() < s.measure() {
        lemma_body_in_step(s3, Seq::empty());
    }
}

/// The body of a tag block leaves the parser in step with its source.
pub proof fn lemma_body_in_step(s: State, children: Seq<NodeView>)
    requires
        in_step(s),
    ensures
        in_step(body(s, children).0),
    decreases s.measure(), 2nat,
{
    let (s1, closed) = s.expect(punct('}'));
    if closed {
    } else if s.current is Character {
        lemma_body_in_step(s.require(punct('}')).0, children);
    } else {
        lemma_document_in_step(s, children);
        let (s2, items) = document(s, children);
        if s2.measure() < s.measure() {
            lemma_body_in_step(s2, items);
        }
    }
}

/// What follows the first run of items ends at the end of the input.
pub proof fn lemma_remainder_reaches_end(s: State, children: Seq<NodeView>)
    requires
        in_step(s),
    ensures
        remainder(s, children).0.current is EndOfFile,
        in_step(remainder(s, children).0),
    decreases s.measure(),
{
    let (s1, done) = s.require(TokenView::EndOfFile);
    if !done {
        lemma_document_measure(s1, children);
        lemma_document_in_step(s1, children);
        let (s2, items) = document(s1, children);
        lemma_remainder_reaches_end(s2, items);
    }
}

/// A parse reads its input to the end: when it is done the parser stands
/// at the end of the input, and so does its source.
pub proof fn parse_reaches_the_end(s: State)
    ensures
        parsed(s).0.current is EndOfFile,
        parsed(s).0.source.peek() is EndOfFile,
{
    lemma_document_in_step(s.advance(), Seq::empty());
    let (s1, first) = document(s.advance(), Seq::empty());
    lemma_remainder_reaches_end(s1, first);
}

/// What is written under other names leaves the value of `name` alone.
pub proof fn lemma_other_names_keep(
    list: Seq<WrittenAttribute>,
    assigned: Map<Seq<char>, LiteralView>,
    name: Seq<char>,
)
    requires
        forall|j: int| 0 <= j < list.len() ==> (#[trigger] list[j]).name->text != name,
    ensures
        attribute_map(list, assigned).dom().contains(name) == assigned.dom().contains(name),
        attribute_map(list, assigned)[name] == assigned[name],
    decreases list.len(),
{
    if list.len() > 0 {
        let rest = list.drop_first();
        assert(list[0].name->text != name);
        assert forall|j: int| 0 <= j < rest.len() implies (#[trigger] rest[j]).name->text
            != name by {
            assert(rest[j] == list[j + 1]);
        }
        lemma_other_names_keep(
            rest,
            assigned.insert(list[0].name->text, literal_of(list[0].value)),
            name,
        );
    }
}

/// The last assignment wins: an attribute list gives each name the value
/// that is written for it last, whatever was written for it before.
pub proof fn last_assignment_wins(
    list: Seq<WrittenAttribute>,
    assigned: Map<Seq<char>, LiteralView>,
    i: int,
)
    requires
        0 <= i < list.len(),
        forall|j: int| i < j < list.len() ==> (#[trigger] list[j]).name->text != list[i].name->text,
    ensures
        attribute_map(list, assigned).dom().contains(list[i].name->text),
        attribute_map(list, assigned)[list[i].name->text] == literal_of(list[i].value),
    decreases list.len(),
{
    let rest = list.drop_first();
    let then = assigned.insert(list[0].name->text, literal_of(list[0].value));
    if i == 0 {
        assert forall|j: int| 0 <= j < rest.len() implies (#[trigger] rest[j]).name->text
            != list[0].name->text by {
            assert(rest[j] == list[j + 1]);
        }
        lemma_other_names_keep(rest, then, list[0].name->text);
    } else {
        assert(rest[i - 1] == list[i]);
        assert forall|j: int| i - 1 < j < rest.len() implies (#[trigger] rest[j]).name->text
            != rest[i - 1].name->text by {
            assert(rest[j] == list[j + 1]);
        }
        last_assignment_wins(rest, then, i - 1);
    }
}

/// A traversal can be repeated: a second visit of a tree reports exactly
/// what the first one reported. `before` is what had been reported when
/// the first visit began, `first` and `second` what had been reported when
/// the first and the second visit ended.
pub proof fn second_visit_repeats_first(
    tree: NodeView,
    before: Seq<EventView>,
    first: Seq<EventView>,
    second: Seq<EventView>,
)
    requires
        first == before + trace(tree),
        second == first + trace(tree),
    ensures
        second.subrange(first.len() as int, second.len() as int) == first.subrange(
            before.len() as int,
            first.len() as int,
        ),
{
    assert(second.subrange(first.len() as int, second.len() as int) =~= trace(tree));
    assert(first.subrange(before.len() as int, first.len() as int) =~= trace(tree));
}

} // verus!
