//! What parsing means, as mathematics.
//!
//! A parser is a [`State`]: the token source, the token under inspection and
//! the diagnostics recorded so far. Each rule of the grammar is a function
//! from the state in which the rule starts to the state in which it ends,
//! together with what the rule built:
//!
//! ```text
//! document   := item*
//! item       := tagBlock | TEXT | STRING | NUMBER | BOOL
//! tagBlock   := TAGNAME ( '(' attrList? ')' )? ( '{' document '}' )?
//! attrList   := attr (',' attr)* ','?
//! attr       := NAME '=' literal
//! literal    := STRING | NUMBER | BOOL
//! ```
//!
//! The functions are total: they also say what is recorded, and how the
//! parser goes on, where the input breaks these rules.

use vstd::prelude::*;
use crate::attributes::LiteralView;
use crate::lexer::Source;
use crate::node::NodeView;
use crate::text::decimal;
use crate::token::{empty_text, TokenView};

verus! {

/// A diagnostic: the message with the line number in front.
pub open spec fn located(line: usize, message: Seq<char>) -> Seq<char> {
    "Line("@ + decimal(line as nat) + "): "@ + message
}

/// The message for an error token from the token source.
pub open spec fn tokenizer_error(message: Seq<char>) -> Seq<char> {
    "Tokenizer "@ + message
}

/// The message for a token that stands where an attribute's name belongs.
pub open spec fn not_a_name(got: TokenView) -> Seq<char> {
    "Variable must be a string name but got "@ + got.rendering()
}

/// The message for an attribute name that no `=` follows.
pub open spec fn no_assignment(name: TokenView) -> Seq<char> {
    "Expected assignment after '"@ + name.rendering() + "'."@
}

/// The message for an attribute that is assigned something other than a
/// literal.
pub open spec fn not_a_literal(name: TokenView) -> Seq<char> {
    "'"@ + name.rendering() + "' must be assigned a literal value."@
}

/// The message for the end of the input where `expected` was still to come.
pub open spec fn unexpected_eof(expected: TokenView) -> Seq<char> {
    "Unexpected eof while searching for "@ + expected.rendering()
}

/// The message for the token `got` where `expected` belongs.
pub open spec fn unexpected_token(expected: TokenView, got: TokenView) -> Seq<char> {
    "Expected "@ + expected.rendering() + " but got "@ + got.rendering()
}

/// The literal that a literal token carries.
pub open spec fn literal_of(token: TokenView) -> LiteralView {
    match token {
        TokenView::StringLiteral(value) => LiteralView::Str(value),
        TokenView::NumberLiteral(bits) => LiteralView::Float(bits),
        TokenView::BoolLiteral(value) => LiteralView::Bool(value),
        _ => arbitrary(),
    }
}

/// The punctuation token for `c`.
pub open spec fn punct(c: char) -> TokenView {
    TokenView::Character(c)
}

/// A parser as a value.
pub struct State {
    /// Where the tokens come from.
    pub source: Source,
    /// The token pulled last: the one that the rules inspect.
    pub current: TokenView,
    /// The diagnostics recorded so far, oldest first.
    pub errors: Seq<Seq<char>>,
}

impl State {
    /// The state after pulling the next token.
    pub open spec fn advance(self) -> State {
        State { source: self.source.next(), current: self.source.peek(), errors: self.errors }
    }

    /// The state after recording `message` under the current line number
    /// and skipping the current token.
    pub open spec fn fail(self, message: Seq<char>) -> State {
        State {
            source: self.source.next(),
            current: self.source.peek(),
            errors: self.errors.push(located(self.source.line_no, message)),
        }
    }

    /// Takes the current token if it is the `expected` one. The flag says
    /// whether it was taken.
    pub open spec fn accept(self, expected: TokenView) -> (State, bool) {
        if self.current.satisfies(expected) {
            (self.advance(), true)
        } else {
            (self, false)
        }
    }

    /// Takes the current token if it is the `expected` one. At the end of
    /// the input, where it can no longer come, that is recorded and the
    /// flag is set all the same, so that whoever waits for the token stops
    /// waiting.
    pub open spec fn expect(self, expected: TokenView) -> (State, bool) {
        if self.current.satisfies(expected) {
            (self.advance(), true)
        } else if self.current is EndOfFile {
            (self.fail(unexpected_eof(expected)), true)
        } else {
            (self, false)
        }
    }

    /// Takes the current token if it is the `expected` one. Any other token
    /// is recorded and skipped; the flag is then set only if that leaves
    /// the parser at the end of the input.
    pub open spec fn require(self, expected: TokenView) -> (State, bool) {
        if self.current.satisfies(expected) {
            (self.advance(), true)
        } else {
            let skipped = self.fail(unexpected_token(expected, self.current));
            (skipped, skipped.current is EndOfFile)
        }
    }

    /// A bound on the number of tokens that are still to be inspected: it
    /// never grows, and it shrinks whenever a token other than end-of-file
    /// is passed.
    pub open spec fn measure(self) -> nat {
        self.source.remaining() + if self.current is EndOfFile {
            0nat
        } else {
            1nat
        }
    }

    /// Whether the current token ends a run of items: punctuation, which
    /// belongs to whatever encloses the run, or the end of the input.
    pub open spec fn at_stop(self) -> bool {
        self.current is Character || self.current is EndOfFile
    }
}

/// One attribute: a name, `=`, a literal and, if there is one, the comma
/// behind it. The literal is assigned to the name in `attributes`, in place
/// of what was assigned to it before.
///
/// A token that is no text where the name belongs, a missing `=` and a
/// value that is no literal are each recorded and skipped; nothing is
/// assigned unless there is both a name and a literal.
pub open spec fn attribute(s: State, attributes: Map<Seq<char>, LiteralView>) -> (
    State,
    Map<Seq<char>, LiteralView>,
) {
    let name = s.current;
    let (s1, named) = s.expect(empty_text());
    let s2 = if named {
        s1
    } else {
        s1.fail(not_a_name(name))
    };
    let (s3, assigned) = s2.expect(punct('='));
    let s4 = if assigned {
        s3
    } else {
        s3.fail(no_assignment(name))
    };
    let value = s4.current;
    if value.is_literal() {
        let assigned_to = match name {
            TokenView::Text { text, .. } => attributes.insert(text, literal_of(value)),
            _ => attributes,
        };
        (s4.advance().accept(punct(',')).0, assigned_to)
    } else {
        (s4.fail(not_a_literal(name)).accept(punct(',')).0, attributes)
    }
}

/// Passing one attribute uses up at least one token.
pub proof fn lemma_attribute_measure(s: State, attributes: Map<Seq<char>, LiteralView>)
    ensures
        attribute(s, attributes).0.measure() <= s.measure(),
        !(s.current is EndOfFile) ==> attribute(s, attributes).0.measure() < s.measure(),
{
}

/// What follows `(`: attributes up to the closing `)`.
pub open spec fn attribute_list(s: State, attributes: Map<Seq<char>, LiteralView>) -> (
    State,
    Map<Seq<char>, LiteralView>,
)
    decreases s.measure(),
{
    let (s1, closed) = s.expect(punct(')'));
    if closed {
        (s1, attributes)
    } else {
        proof {
            lemma_attribute_measure(s, attributes);
        }
        let (s2, assigned) = attribute(s, attributes);
        attribute_list(s2, assigned)
    }
}

/// Nothing in an attribute list brings tokens back.
pub proof fn lemma_attribute_list_measure(s: State, attributes: Map<Seq<char>, LiteralView>)
    ensures
        attribute_list(s, attributes).0.measure() <= s.measure(),
    decreases s.measure(),
{
    let (s1, closed) = s.expect(punct(')'));
    if !closed {
        lemma_attribute_measure(s, attributes);
        let (s2, assigned) = attribute(s, attributes);
        lemma_attribute_list_measure(s2, assigned);
    }
}

/// A run of items, appended to `children`: tag blocks, text and literals,
/// up to the first punctuation character or the end of the input, which
/// stays current. An error token is recorded and skipped.
///
/// The test on the measure after a tag block never fails
/// ([`lemma_tag_block_measure`]); it is what makes the definition
/// well-founded.
pub open spec fn document(s: State, children: Seq<NodeView>) -> (State, Seq<NodeView>)
    decreases s.measure(), 1nat,
{
    match s.current {
        TokenView::Tag(name) => {
            let (s1, tag) = tag_block(s, name);
            if s1.measure() < s.measure() {
                document(s1, children.push(tag))
            } else {
                (s1, children.push(tag))
            }
        },
        TokenView::StringLiteral(_) | TokenView::NumberLiteral(_) | TokenView::BoolLiteral(_) => {
            document(s.advance(), children.push(NodeView::Literal(literal_of(s.current))))
        },
        TokenView::Text { text, .. } => document(s.advance(), children.push(NodeView::Text(text))),
        TokenView::Character(_) => (s, children),
        TokenView::Error(message) => document(s.fail(tokenizer_error(message)), children),
        TokenView::EndOfFile => (s, children),
    }
}

/// A tag block, with the tag's name current: the name, then an attribute
/// list if `(` follows, then a body if `{` follows.
///
/// The test on the measure before the body fails only where the block
/// starts at the end of the input, where no `{` can follow.
pub open spec fn tag_block(s: State, name: Seq<char>) -> (State, NodeView)
    decreases s.measure(), 0nat,
{
    let (s1, opened) = s.advance().accept(punct('('));
    let (s2, attributes) = if opened {
        attribute_list(s1, Map::empty())
    } else {
        (s1, Map::empty())
    };
    let (s3, braced) = s2.accept(punct('{'));
    let (s4, children) = if braced && s3.measure() < s.measure() {
        body(s3, Seq::empty())
    } else {
        (s3, Seq::empty())
    };
    (s4, NodeView::Tag { name, attributes, children })
}

/// What follows `{`: runs of items, appended to `children`, up to the
/// closing `}`. Any other punctuation between the braces is recorded and
/// skipped; the end of the input is recorded and ends the body.
///
/// The test on the measure after a run of items never fails
/// ([`lemma_document_measure`]).
pub open spec fn body(s: State, children: Seq<NodeView>) -> (State, Seq<NodeView>)
    decreases s.measure(), 2nat,
{
    let (s1, closed) = s.expect(punct('}'));
    if closed {
        (s1, children)
    } else if s.current is Character {
        body(s.require(punct('}')).0, children)
    } else {
        let (s2, items) = document(s, children);
        if s2.measure() < s.measure() {
            body(s2, items)
        } else {
            (s2, items)
        }
    }
}

/// A run of items ends at punctuation or at the end of the input, and
/// brings no token back; unless it is empty, it uses up at least one.
pub proof fn lemma_document_measure(s: State, children: Seq<NodeView>)
    ensures
        document(s, children).0.at_stop(),
        document(s, children).0.measure() <= s.measure(),
        !s.at_stop() ==> document(s, children).0.measure() < s.measure(),
    decreases s.measure(), 1nat,
{
    match s.current {
        TokenView::Tag(name) => {
            lemma_tag_block_measure(s, name);
            let (s1, tag) = tag_block(s, name);
            lemma_document_measure(s1, children.push(tag));
        },
        TokenView::StringLiteral(_) | TokenView::NumberLiteral(_) | TokenView::BoolLiteral(_) => {
            lemma_document_measure(
                s.advance(),
                children.push(NodeView::Literal(literal_of(s.current))),
            );
        },
        TokenView::Text { text, .. } => {
            lemma_document_measure(s.advance(), children.push(NodeView::Text(text)));
        },
        TokenView::Character(_) => {},
        TokenView::Error(message) => {
            lemma_document_measure(s.fail(tokenizer_error(message)), children);
        },
        TokenView::EndOfFile => {},
    }
}

/// A tag block brings no token back, and uses up at least its name.
pub proof fn lemma_tag_block_measure(s: State, name: Seq<char>)
    ensures
        tag_block(s, name).0.measure() <= s.measure(),
        !(s.current is EndOfFile) ==> tag_block(s, name).0.measure() < s.measure(),
    decreases s.measure(), 0nat,
{
    let (s1, opened) = s.advance().accept(punct('('));
    let (s2, attributes) = if opened {
        attribute_list(s1, Map::empty())
    } else {
        (s1, Map::empty())
    };
    if opened {
        lemma_attribute_list_measure(s1, Map::empty());
    }
    let (s3, braced) = s2.accept(punct('{'));
    if braced && s3.measure() < s.measure() {
        lemma_body_measure(s3, Seq::empty());
    }
}

/// The body of a tag block brings no token back.
pub proof fn lemma_body_measure(s: State, children: Seq<NodeView>)
    ensures
        body(s, children).0.measure() <= s.measure(),
    decreases s.measure(), 2nat,
{
    let (s1, closed) = s.expect(punct('}'));
    if closed {
    } else if s.current is Character {
        lemma_body_measure(s.require(punct('}')).0, children);
    } else {
        lemma_document_measure(s, children);
        let (s2, items) = document(s, children);
        lemma_body_measure(s2, items);
    }
}

/// What is left once the first run of items has ended: whatever is not the
/// end of the input is recorded and skipped, and the items behind it are
/// read, until the end of the input is reached.
pub open spec fn remainder(s: State, children: Seq<NodeView>) -> (State, Seq<NodeView>)
    decreases s.measure(),
{
    let (s1, done) = s.require(TokenView::EndOfFile);
    if done {
        (s1, children)
    } else {
        proof {
            lemma_document_measure(s1, children);
        }
        let (s2, items) = document(s1, children);
        remainder(s2, items)
    }
}

/// A whole input: the first token is pulled, then the items are read to the
/// end of the input. There is a tree, a root over the items, if and only if
/// no diagnostic stands recorded at the end.
pub open spec fn parsed(s: State) -> (State, Option<NodeView>) {
    let (s1, first) = document(s.advance(), Seq::empty());
    let (s2, items) = remainder(s1, first);
    (
        s2,
        if s2.errors.len() == 0 {
            Some(NodeView::Root(items))
        } else {
            None
        },
    )
}

} // verus!
