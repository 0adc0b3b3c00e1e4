//! Tokens: the classified lexical units that the parser consumes.

use vstd::prelude::*;

verus! {

/// The payload of a tag token: the identifier that starts a tag block.
#[derive(Debug)]
pub struct TokenTag {
    pub text: String,
}

/// The payload of a text token: a run of literal text and where it stood in
/// the source.
#[derive(Debug)]
pub struct TokenText {
    pub line_no_start: usize,
    pub line_no_end_with_content: usize,
    pub line_no_end: usize,
    pub text: String,
}

/// One lexical unit.
///
/// A number is held as the bit pattern of its IEEE 754 binary64 value, so
/// that it passes through the parser unchanged.
#[derive(Debug)]
pub enum Token {
    Tag(TokenTag),
    Text(TokenText),
    StringLiteral(String),
    NumberLiteral(u64),
    BoolLiteral(bool),
    Character(char),
    Error(String),
    EndOfFile,
}

/// What a token is, with strings as sequences of characters.
pub enum TokenView {
    Tag(Seq<char>),
    Text { text: Seq<char>, line_no_start: usize, line_no_end_with_content: usize, line_no_end: usize },
    StringLiteral(Seq<char>),
    NumberLiteral(u64),
    BoolLiteral(bool),
    Character(char),
    Error(Seq<char>),
    EndOfFile,
}

impl View for Token {
    type V = TokenView;

    open spec fn view(&self) -> TokenView {
        match *self {
            Token::Tag(t) => TokenView::Tag(t.text@),
            Token::Text(t) => TokenView::Text {
                text: t.text@,
                line_no_start: t.line_no_start,
                line_no_end_with_content: t.line_no_end_with_content,
                line_no_end: t.line_no_end,
            },
            Token::StringLiteral(s) => TokenView::StringLiteral(s@),
            Token::NumberLiteral(bits) => TokenView::NumberLiteral(bits),
            Token::BoolLiteral(b) => TokenView::BoolLiteral(b),
            Token::Character(c) => TokenView::Character(c),
            Token::Error(m) => TokenView::Error(m@),
            Token::EndOfFile => TokenView::EndOfFile,
        }
    }
}

impl TokenView {
    /// A string, number or boolean literal.
    pub open spec fn is_literal(self) -> bool {
        self is StringLiteral || self is NumberLiteral || self is BoolLiteral
    }

    /// Whether `self` and `other` are tokens of one kind, whatever they carry.
    pub open spec fn same_kind(self, other: TokenView) -> bool {
        match self {
            TokenView::Tag(_) => other is Tag,
            TokenView::Text { .. } => other is Text,
            TokenView::StringLiteral(_) => other is StringLiteral,
            TokenView::NumberLiteral(_) => other is NumberLiteral,
            TokenView::BoolLiteral(_) => other is BoolLiteral,
            TokenView::Character(_) => other is Character,
            TokenView::Error(_) => other is Error,
            TokenView::EndOfFile => other is EndOfFile,
        }
    }

    /// How the token reads in a diagnostic: its text where it carries one,
    /// the character itself for punctuation, and a word for what it is
    /// otherwise.
    pub open spec fn rendering(self) -> Seq<char> {
        match self {
            TokenView::Tag(name) => name,
            TokenView::Text { text, .. } => text,
            TokenView::StringLiteral(value) => value,
            TokenView::NumberLiteral(_) => "number"@,
            TokenView::BoolLiteral(value) => if value {
                "true"@
            } else {
                "false"@
            },
            TokenView::Character(c) => seq![c],
            TokenView::Error(message) => message,
            TokenView::EndOfFile => "eof"@,
        }
    }

    /// Whether `self` is what a parser that expects `expected` is looking
    /// for: a token of the same kind and, for a punctuation character, the
    /// same character.
    pub open spec fn satisfies(self, expected: TokenView) -> bool {
        self.same_kind(expected) && (expected is Character ==> self == expected)
    }
}

impl Clone for Token {
    fn clone(&self) -> (copy: Token)
        ensures
            copy@ == self@,
    {
        match self {
            Token::Tag(t) => Token::Tag(TokenTag { text: t.text.clone() }),
            Token::Text(t) => Token::Text(
                TokenText {
                    line_no_start: t.line_no_start,
                    line_no_end_with_content: t.line_no_end_with_content,
                    line_no_end: t.line_no_end,
                    text: t.text.clone(),
                },
            ),
            Token::StringLiteral(s) => Token::StringLiteral(s.clone()),
            Token::NumberLiteral(bits) => Token::NumberLiteral(*bits),
            Token::BoolLiteral(b) => Token::BoolLiteral(*b),
            Token::Character(c) => Token::Character(*c),
            Token::Error(m) => Token::Error(m.clone()),
            Token::EndOfFile => Token::EndOfFile,
        }
    }
}

impl Token {
    /// Whether the token is a string, number or boolean literal.
    pub fn is_literal(&self) -> (yes: bool)
        ensures
            yes == self@.is_literal(),
    {
        match self {
            Token::StringLiteral(_) | Token::NumberLiteral(_) | Token::BoolLiteral(_) => true,
            _ => false,
        }
    }

    /// The token as it reads in a diagnostic.
    pub fn to_text(&self) -> (text: String)
        ensures
            text@ == self@.rendering(),
    {
        match self {
            Token::Tag(t) => t.text.clone(),
            Token::Text(t) => t.text.clone(),
            Token::StringLiteral(value) => value.clone(),
            Token::NumberLiteral(_) => String::from_str("number"),
            Token::BoolLiteral(value) => if *value {
                String::from_str("true")
            } else {
                String::from_str("false")
            },
            Token::Character(c) => {
                let mut text = String::new();
                text.push(*c);
                text
            },
            Token::Error(message) => message.clone(),
            Token::EndOfFile => String::from_str("eof"),
        }
    }
}

/// The text token that stands for "any text" where the parser asks for a
/// token by kind: empty, on line zero.
pub open spec fn empty_text() -> TokenView {
    TokenView::Text {
        text: Seq::empty(),
        line_no_start: 0,
        line_no_end_with_content: 0,
        line_no_end: 0,
    }
}

/// A text token to ask for text with: what it carries does not matter
/// where tokens are matched by kind.
pub fn make_empty_token_text() -> (token: Token)
    ensures
        token@ == empty_text(),
{
    Token::Text(
        TokenText {
            line_no_start: 0,
            line_no_end_with_content: 0,
            line_no_end: 0,
            text: String::new(),
        },
    )
}

} // verus!
