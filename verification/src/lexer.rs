//! The token source: a cursor over a recorded stream of tokens.
//!
//! Scanning characters is not this library's business. Whoever scans hands
//! over the tokens it found, each with the line the scanner stood on when it
//! had produced it, and the parser pulls them from here one at a time.

use vstd::prelude::*;
use crate::token::{Token, TokenView};

verus! {

/// A token and the line number that the scanner reported after producing it.
#[derive(Debug)]
pub struct Lexeme {
    pub token: Token,
    pub line_no: usize,
}

/// A lexeme, with its token as a [`TokenView`].
pub struct LexemeView {
    pub token: TokenView,
    pub line_no: usize,
}

impl View for Lexeme {
    type V = LexemeView;

    open spec fn view(&self) -> LexemeView {
        LexemeView { token: self.token@, line_no: self.line_no }
    }
}

/// The views of a vector of lexemes, in order.
pub open spec fn lexemes_view(lexemes: Seq<Lexeme>) -> Seq<LexemeView> {
    lexemes.map_values(|l: Lexeme| l@)
}

/// A token source as a value: the recorded stream, how far it has been read
/// and the current line number.
pub struct Source {
    pub tokens: Seq<LexemeView>,
    pub pos: nat,
    pub line_no: usize,
}

impl Source {
    /// The token that the next pull returns: the one under the cursor, or
    /// end-of-file once the stream is used up.
    pub open spec fn peek(self) -> TokenView {
        if self.pos < self.tokens.len() {
            self.tokens[self.pos as int].token
        } else {
            TokenView::EndOfFile
        }
    }

    /// The source after one pull. The cursor moves past the token it hands
    /// out, but never past an end-of-file token, so that end-of-file, once
    /// reached, is all that ever comes.
    pub open spec fn next(self) -> Source {
        if self.pos < self.tokens.len() {
            Source {
                tokens: self.tokens,
                pos: if self.tokens[self.pos as int].token is EndOfFile {
                    self.pos
                } else {
                    self.pos + 1
                },
                line_no: self.tokens[self.pos as int].line_no,
            }
        } else {
            self
        }
    }

    /// How many pulls are left at most before only end-of-file comes.
    pub open spec fn remaining(self) -> nat {
        if self.pos <= self.tokens.len() {
            (self.tokens.len() - self.pos) as nat
        } else {
            0
        }
    }
}

/// The token source that a [`crate::Parser`] reads from.
#[derive(Debug)]
pub struct Lexer {
    tokens: Vec<Lexeme>,
    pos: usize,
    line_no: usize,
}

impl View for Lexer {
    type V = Source;

    closed spec fn view(&self) -> Source {
        Source { tokens: lexemes_view(self.tokens@), pos: self.pos as nat, line_no: self.line_no }
    }
}

impl Lexer {
    /// A source that yields `tokens` in order and then end-of-file for ever.
    /// Before the first pull it stands on line 1.
    pub fn new(tokens: Vec<Lexeme>) -> (lexer: Lexer)
        ensures
            lexer@ == (Source { tokens: lexemes_view(tokens@), pos: 0, line_no: 1 }),
    {
        Lexer { tokens, pos: 0, line_no: 1 }
    }

    /// Pulls the next token.
    pub fn get_next_token(&mut self) -> (token: Token)
        ensures
            token@ == old(self)@.peek(),
            final(self)@ == old(self)@.next(),
    {
        if self.pos < self.tokens.len() {
            let token = self.tokens[self.pos].token.clone();
            self.line_no = self.tokens[self.pos].line_no;
            match token {
                Token::EndOfFile => {},
                _ => {
                    self.pos = self.pos + 1;
                },
            }
            token
        } else {
            Token::EndOfFile
        }
    }

    /// The line number that goes with the token pulled last.
    pub fn current_line_number(&self) -> (line: usize)
        ensures
            line == self@.line_no,
    {
        self.line_no
    }
}

} // verus!
