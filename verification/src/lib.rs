//! A front end for a small tag-based markup language: it turns a stream of
//! tokens into a document tree and collects every syntax error on the way.
//!
//! The executable code is verified against a mathematical model of the
//! grammar: [`grammar`] says, as spec functions over sequences of tokens, what
//! the parser builds and which diagnostics it records, and [`laws`] proves
//! what follows for every input.

pub mod attributes;
pub mod grammar;
pub mod laws;
pub mod lexer;
pub mod node;
pub mod parser;
pub mod reading;
pub mod syntax;
pub mod text;
pub mod token;
pub mod visit;

pub use attributes::{AstLiteral, Attribute, Attributes, LiteralView};
pub use lexer::{Lexeme, LexemeView, Lexer, Source};
pub use node::{ASTNode, AstNodeRoot, AstNodeTag, AstNodeText, NodeView};
pub use parser::Parser;
pub use visit::{EventView, IAstNode, VisitEvent};
pub use token::{make_empty_token_text, Token, TokenTag, TokenText, TokenView};
