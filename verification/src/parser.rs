//! The parser: recursive descent over the tokens of a [`Lexer`], with
//! every rule proved to do what [`crate::grammar`] says of it.

use vstd::prelude::*;
use crate::attributes::AstLiteral;
use crate::grammar::{
    attribute_list, body, document, lemma_attribute_list_measure, lemma_attribute_measure,
    lemma_document_measure, lemma_tag_block_measure, literal_of, parsed, remainder, tag_block,
    State,
};
use crate::laws::{extends, lemma_document_extends, log_is_append_only, parse_reaches_the_end};
use crate::lexer::Lexer;
use crate::node::{
    lemma_nodes_view_push, nodes_view, ASTNode, AstNodeRoot, AstNodeTag, AstNodeText, NodeView,
};
use crate::text::push_decimal;
use crate::token::{make_empty_token_text, Token, TokenTag, TokenView};

verus! {

/// The texts of a vector of strings, in order.
pub open spec fn strings_view(strings: Seq<String>) -> Seq<Seq<char>> {
    strings.map_values(|s: String| s@)
}

/// The tree of the node that a parse returned, if it returned one.
pub open spec fn tree_view(tree: Option<ASTNode>) -> Option<NodeView> {
    match tree {
        Some(root) => Some(root@),
        None => None,
    }
}

/// A parser over one token source. It keeps the token under inspection and
/// the diagnostics recorded so far, oldest first.
#[derive(Debug)]
pub struct Parser {
    lexer: Lexer,
    current_token: Token,
    pub error_log: Vec<String>,
}

impl View for Parser {
    type V = State;

    closed spec fn view(&self) -> State {
        State {
            source: self.lexer@,
            current: self.current_token@,
            errors: strings_view(self.error_log@),
        }
    }
}

impl Parser {
    /// The diagnostics recorded so far, oldest first.
    pub fn errors(&self) -> (log: &Vec<String>)
        ensures
            strings_view(log@) == self@.errors,
    {
        &self.error_log
    }

    /// A parser that will read from `lex`. No token is pulled yet: until
    /// [`Parser::parse`] pulls the first, the parser sees the end of the
    /// input.
    pub fn new(lex: Lexer) -> (parser: Parser)
        ensures
            parser@ == (State { source: lex@, current: TokenView::EndOfFile, errors: Seq::empty() }),
    {
        let parser = Parser { lexer: lex, current_token: Token::EndOfFile, error_log: Vec::new() };
        assert(strings_view(parser.error_log@) =~= Seq::<Seq<char>>::empty());
        parser
    }

    /// Parses the whole input. Returns the root of the document tree if no
    /// diagnostic stands in the log at the end, and nothing otherwise; the
    /// log then says what was wrong, in the order in which it was found.
    pub fn parse(&mut self) -> (tree: Option<ASTNode>)
        ensures
            (final(self)@, tree_view(tree)) == parsed(old(self)@),
            tree is Some <==> final(self)@.errors.len() == 0,
            extends(final(self)@.errors, old(self)@.errors),
            final(self)@.current is EndOfFile,
    {
        proof {
            log_is_append_only(self@);
            parse_reaches_the_end(self@);
        }
        let mut root_node = AstNodeRoot { children: Vec::new() };
        assert(nodes_view(root_node.children@) =~= Seq::<NodeView>::empty());
        self.advance_token();
        self.parse_impl(&mut root_node.children);
        let ghost first = (self@, nodes_view(root_node.children@));
        loop
            invariant_except_break
                remainder(self@, nodes_view(root_node.children@)) == remainder(first.0, first.1),
            ensures
                (self@, nodes_view(root_node.children@)) == remainder(first.0, first.1),
            decreases self@.measure(),
        {
            let ghost before = (self@, nodes_view(root_node.children@));
            if self.require(&Token::EndOfFile) {
                break ;
            }
            proof {
                lemma_document_measure(self@, before.1);
            }
            self.parse_impl(&mut root_node.children);
        }
        if self.error_log.len() == 0 {
            Some(ASTNode::Root(root_node))
        } else {
            None
        }
    }

    /// Parses a run of items and appends them to `parent_child_list`: tag
    /// blocks, text and literals, up to the first punctuation character or
    /// the end of the input, which stays current.
    pub fn parse_impl(&mut self, parent_child_list: &mut Vec<ASTNode>)
        ensures
            (final(self)@, nodes_view(final(parent_child_list)@)) == document(
                old(self)@,
                nodes_view(old(parent_child_list)@),
            ),
            final(self)@.at_stop(),
            extends(final(self)@.errors, old(self)@.errors),
        decreases old(self)@.measure(), 1nat,
    {
        proof {
            lemma_document_measure(self@, nodes_view(parent_child_list@));
            lemma_document_extends(self@, nodes_view(parent_child_list@));
        }
        loop
            invariant
                document(self@, nodes_view(parent_child_list@)) == document(
                    old(self)@,
                    nodes_view(old(parent_child_list)@),
                ),
                self@.measure() <= old(self)@.measure(),
            ensures
                (self@, nodes_view(parent_child_list@)) == document(
                    old(self)@,
                    nodes_view(old(parent_child_list)@),
                ),
            decreases self@.measure(),
        {
            let current_token = self.current_token.clone();
            let ghost nodes = parent_child_list@;
            match current_token {
                Token::Tag(tt) => {
                    proof {
                        lemma_tag_block_measure(self@, tt.text@);
                    }
                    let tt_node = self.parse_tag_block(&tt);
                    proof {
                        lemma_nodes_view_push(nodes, tt_node);
                    }
                    parent_child_list.push(tt_node);
                },
                Token::StringLiteral(str_lit) => {
                    let child_node = ASTNode::Literal(AstLiteral::Str(str_lit));
                    self.advance_token();
                    proof {
                        lemma_nodes_view_push(nodes, child_node);
                    }
                    parent_child_list.push(child_node);
                },
                Token::NumberLiteral(number) => {
                    let child_node = ASTNode::Literal(AstLiteral::Float(number));
                    self.advance_token();
                    proof {
                        lemma_nodes_view_push(nodes, child_node);
                    }
                    parent_child_list.push(child_node);
                },
                Token::BoolLiteral(value) => {
                    let child_node = ASTNode::Literal(AstLiteral::Bool(value));
                    self.advance_token();
                    proof {
                        lemma_nodes_view_push(nodes, child_node);
                    }
                    parent_child_list.push(child_node);
                },
                Token::Text(txt) => {
                    let child_node = ASTNode::Text(AstNodeText { text: txt.text });
                    self.advance_token();
                    proof {
                        lemma_nodes_view_push(nodes, child_node);
                    }
                    parent_child_list.push(child_node);
                },
                Token::Character(_) => {
                    break ;
                },
                Token::Error(err_msg) => {
                    let mut message = String::from_str("Tokenizer ");
                    message.append(err_msg.as_str());
                    self.error_panic(message);
                },
                Token::EndOfFile => {
                    break ;
                },
            }
        }
    }

    /// Parses a tag block whose name, `tag`, is the current token: the
    /// name, then the attributes if `(` follows, then the children if `{`
    /// follows.
    fn parse_tag_block(&mut self, tag: &TokenTag) -> (node: ASTNode)
        requires
            !(old(self)@.current is EndOfFile),
        ensures
            (final(self)@, node@) == tag_block(old(self)@, tag.text@),
        decreases old(self)@.measure(), 0nat,
    {
        let mut tag_node = AstNodeTag::new(tag.text.clone());
        self.advance_token();

        if self.accept(&Token::Character('(')) {
            let ghost opened = self@;
            loop
                invariant_except_break
                    attribute_list(self@, tag_node.attributes@) == attribute_list(
                        opened,
                        Map::empty(),
                    ),
                invariant
                    tag_node.text@ == tag.text@,
                    nodes_view(tag_node.children@) == Seq::<NodeView>::empty(),
                ensures
                    (self@, tag_node.attributes@) == attribute_list(opened, Map::empty()),
                    tag_node.text@ == tag.text@,
                    nodes_view(tag_node.children@) == Seq::<NodeView>::empty(),
                decreases self@.measure(),
            {
                if self.expect(&Token::Character(')')) {
                    break ;
                }
                proof {
                    lemma_attribute_measure(self@, tag_node.attributes@);
                }
                let variable_name = self.current_token.clone();

                if !self.expect(&make_empty_token_text()) {
                    let mut message = String::from_str("Variable must be a string name but got ");
                    message.append(variable_name.to_text().as_str());
                    self.error_panic(message);
                }
                if !self.expect(&Token::Character('=')) {
                    let mut message = String::from_str("Expected assignment after '");
                    message.append(variable_name.to_text().as_str());
                    message.append("'.");
                    self.error_panic(message);
                }
                let literal_value = self.current_token.clone();

                if literal_value.is_literal() {
                    self.advance_token();
                    match &variable_name {
                        Token::Text(value) => {
                            tag_node.attributes.insert(
                                value.text.clone(),
                                Parser::token_to_ast_literal(literal_value),
                            );
                        },
                        _ => {},
                    }
                } else {
                    let mut message = String::from_str("'");
                    message.append(variable_name.to_text().as_str());
                    message.append("' must be assigned a literal value.");
                    self.error_panic(message);
                }
                self.accept(&Token::Character(','));
            }
            proof {
                lemma_attribute_list_measure(opened, Map::empty());
            }
        }
        if self.accept(&Token::Character('{')) {
            let ghost braced = self@;
            let ghost attributes = tag_node.attributes@;
            loop
                invariant_except_break
                    body(self@, nodes_view(tag_node.children@)) == body(braced, Seq::empty()),
                invariant
                    self@.measure() < old(self)@.measure(),
                    tag_node.text@ == tag.text@,
                    tag_node.attributes@ == attributes,
                ensures
                    (self@, nodes_view(tag_node.children@)) == body(braced, Seq::empty()),
                decreases self@.measure(),
            {
                if self.expect(&Token::Character('}')) {
                    break ;
                }
                proof {
                    lemma_document_measure(self@, nodes_view(tag_node.children@));
                }
                if self.at_punctuation() {
                    self.require(&Token::Character('}'));
                } else {
                    self.parse_impl(&mut tag_node.children);
                }
            }
        }
        ASTNode::Tag(tag_node)
    }

    /// Whether the current token is a punctuation character.
    fn at_punctuation(&self) -> (yes: bool)
        ensures
            yes == (self@.current is Character),
    {
        match &self.current_token {
            Token::Character(_) => true,
            _ => false,
        }
    }

    /// Pulls the next token and makes it the current one.
    fn advance_token(&mut self)
        ensures
            final(self)@ == old(self)@.advance(),
    {
        self.current_token = self.lexer.get_next_token();
    }

    /// Records `message` under the line number on which the token source
    /// stands, then skips the current token, so that the parser cannot
    /// stumble over the same token again.
    fn error_panic(&mut self, message: String)
        ensures
            final(self)@ == old(self)@.fail(message@),
    {
        let mut entry = String::from_str("Line(");
        push_decimal(&mut entry, self.lexer.current_line_number());
        entry.append("): ");
        entry.append(message.as_str());
        self.advance_token();
        let ghost before = self.error_log@;
        self.error_log.push(entry);
        assert(strings_view(self.error_log@) =~= strings_view(before).push(entry@));
    }

    /// Whether the current token is what `token` asks for: a token of the
    /// same kind and, for punctuation, the very same character.
    fn current_token_is(&self, token: &Token) -> (yes: bool)
        ensures
            yes == self@.current.satisfies(token@),
    {
        match (&self.current_token, token) {
            (Token::Tag(_), Token::Tag(_)) => true,
            (Token::Text(_), Token::Text(_)) => true,
            (Token::StringLiteral(_), Token::StringLiteral(_)) => true,
            (Token::NumberLiteral(_), Token::NumberLiteral(_)) => true,
            (Token::BoolLiteral(_), Token::BoolLiteral(_)) => true,
            (Token::Character(have), Token::Character(want)) => *have == *want,
            (Token::Error(_), Token::Error(_)) => true,
            (Token::EndOfFile, Token::EndOfFile) => true,
            _ => false,
        }
    }

    /// Whether the parser has reached the end of the input.
    fn at_end_of_file(&self) -> (yes: bool)
        ensures
            yes == (self@.current is EndOfFile),
    {
        match &self.current_token {
            Token::EndOfFile => true,
            _ => false,
        }
    }

    /// Takes the current token if it is what `token` asks for.
    fn accept(&mut self, token: &Token) -> (taken: bool)
        ensures
            (final(self)@, taken) == old(self)@.accept(token@),
    {
        if self.current_token_is(token) {
            self.advance_token();
            return true;
        }
        false
    }

    /// Takes the current token if it is what `token` asks for; any other
    /// token is recorded and skipped. Returns whether the token was taken
    /// or the end of the input has been reached.
    fn require(&mut self, token: &Token) -> (done: bool)
        ensures
            (final(self)@, done) == old(self)@.require(token@),
    {
        if self.current_token_is(token) {
            self.advance_token();
            return true;
        }
        let mut message = String::from_str("Expected ");
        message.append(token.to_text().as_str());
        message.append(" but got ");
        message.append(self.current_token.to_text().as_str());
        self.error_panic(message);
        self.at_end_of_file()
    }

    /// Takes the current token if it is what `token` asks for. Returns
    /// whether the token was taken or can no longer come; that it can no
    /// longer come is recorded.
    fn expect(&mut self, token: &Token) -> (done: bool)
        ensures
            (final(self)@, done) == old(self)@.expect(token@),
    {
        if self.current_token_is(token) {
            self.advance_token();
            return true;
        }
        let is_at_end_of_file = self.at_end_of_file();
        if is_at_end_of_file {
            let mut message = String::from_str("Unexpected eof while searching for ");
            message.append(token.to_text().as_str());
            self.error_panic(message);
        }
        is_at_end_of_file
    }

    /// The literal that a literal token carries.
    fn token_to_ast_literal(tok: Token) -> (literal: AstLiteral)
        requires
            tok@.is_literal(),
        ensures
            literal@ == literal_of(tok@),
    {
        match tok {
            Token::StringLiteral(value) => AstLiteral::Str(value),
            Token::NumberLiteral(bits) => AstLiteral::Float(bits),
            _ => AstLiteral::Bool(
                match tok {
                    Token::BoolLiteral(value) => value,
                    _ => false,
                },
            ),
        }
    }
}

} // verus!
