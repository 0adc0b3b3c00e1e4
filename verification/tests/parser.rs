use sr_markup::{
    ASTNode, AstLiteral, AstNodeTag, Lexeme, Lexer, Parser, Token, TokenTag, TokenText,
};

fn tag(name: &str) -> Token {
    Token::Tag(TokenTag { text: name.to_string() })
}

fn text(content: &str) -> Token {
    Token::Text(TokenText {
        line_no_start: 0,
        line_no_end_with_content: 0,
        line_no_end: 0,
        text: content.to_string(),
    })
}

fn string(value: &str) -> Token {
    Token::StringLiteral(value.to_string())
}

fn number(value: f64) -> Token {
    Token::NumberLiteral(value.to_bits())
}

fn ch(c: char) -> Token {
    Token::Character(c)
}

fn on_line(line_no: usize, tokens: Vec<Token>) -> Vec<Lexeme> {
    tokens.into_iter().map(|token| Lexeme { token, line_no }).collect()
}

fn parse(lexemes: Vec<Lexeme>) -> (Option<ASTNode>, Vec<String>) {
    let mut parser = Parser::new(Lexer::new(lexemes));
    let tree = parser.parse();
    (tree, parser.error_log)
}

fn children_of_root(tree: Option<ASTNode>) -> Vec<ASTNode> {
    match tree {
        Some(ASTNode::Root(root)) => root.children,
        _ => panic!("the parse returned no root"),
    }
}

fn as_tag(node: &ASTNode) -> &AstNodeTag {
    match node {
        ASTNode::Tag(tag) => tag,
        _ => panic!("the node is no tag"),
    }
}

fn float_of(literal: Option<&AstLiteral>) -> f64 {
    match literal {
        Some(AstLiteral::Float(bits)) => f64::from_bits(*bits),
        _ => panic!("the attribute is no number"),
    }
}

fn show_literal(literal: &AstLiteral) -> String {
    match literal {
        AstLiteral::Str(value) => format!("{:?}", value),
        AstLiteral::Float(bits) => format!("{:?}", f64::from_bits(*bits)),
        AstLiteral::Bool(value) => format!("{}", value),
    }
}

fn show(node: &ASTNode) -> String {
    match node {
        ASTNode::Root(root) => format!("root{}", show_all(&root.children)),
        ASTNode::Tag(tag) => {
            let mut attributes = Vec::new();
            for i in 0..tag.attributes.len() {
                let entry = tag.attributes.entry(i);
                attributes.push(format!("{}={}", entry.name, show_literal(&entry.value)));
            }
            format!("{}({}){}", tag.text, attributes.join(","), show_all(&tag.children))
        }
        ASTNode::Text(text) => format!("text[{}]", text.text),
        ASTNode::Literal(literal) => show_literal(literal),
    }
}

fn show_all(nodes: &Vec<ASTNode>) -> String {
    let shown: Vec<String> = nodes.iter().map(show).collect();
    format!("{{{}}}", shown.join(" "))
}

fn show_tree(tree: &Option<ASTNode>) -> String {
    match tree {
        Some(root) => show(root),
        None => "nothing".to_string(),
    }
}

#[test]
fn empty_document_is_a_root_without_children() {
    let (tree, errors) = parse(Vec::new());
    assert!(errors.is_empty());
    assert!(children_of_root(tree).is_empty());
}

#[test]
fn explicit_end_of_file_is_an_empty_document() {
    let (tree, errors) = parse(on_line(1, vec![Token::EndOfFile]));
    assert!(errors.is_empty());
    assert!(children_of_root(tree).is_empty());
}

#[test]
fn tokens_behind_end_of_file_are_never_read() {
    let (tree, errors) =
        parse(on_line(1, vec![text("seen"), Token::EndOfFile, text("unseen"), ch(')')]));
    assert_eq!(errors, Vec::<String>::new());
    assert_eq!(show_tree(&tree), "root{text[seen]}");
}

#[test]
fn later_assignment_to_an_attribute_wins() {
    // tag(x=1,x=2){}
    let (tree, errors) = parse(on_line(
        1,
        vec![
            tag("tag"),
            ch('('),
            text("x"),
            ch('='),
            number(1.0),
            ch(','),
            text("x"),
            ch('='),
            number(2.0),
            ch(')'),
            ch('{'),
            ch('}'),
        ],
    ));
    assert_eq!(errors, Vec::<String>::new());
    let children = children_of_root(tree);
    assert_eq!(children.len(), 1);
    let node = as_tag(&children[0]);
    assert_eq!(node.text, "tag");
    assert_eq!(node.attributes.len(), 1);
    assert_eq!(float_of(node.attributes.get("x")), 2.0);
    assert!(node.children.is_empty());
}

#[test]
fn unterminated_tag_reports_eof_and_gives_no_tree() {
    // tag{text
    let (tree, errors) = parse(on_line(3, vec![tag("tag"), ch('{'), text("text")]));
    assert!(tree.is_none());
    assert_eq!(errors, vec!["Line(3): Unexpected eof while searching for }".to_string()]);
    assert!(errors[0].contains("eof"));
}

#[test]
fn attribute_assigned_a_tag_is_an_error_naming_the_attribute() {
    // tag(x=othertag){}
    let (tree, errors) = parse(on_line(
        7,
        vec![tag("tag"), ch('('), text("x"), ch('='), tag("othertag"), ch(')'), ch('{'), ch('}')],
    ));
    assert!(tree.is_none());
    assert_eq!(errors, vec!["Line(7): 'x' must be assigned a literal value.".to_string()]);
}

#[test]
fn two_violations_give_two_errors_in_source_order() {
    // line 2: first(x=oops){}      line 5: second{text
    let mut lexemes = on_line(
        2,
        vec![tag("first"), ch('('), text("x"), ch('='), text("oops"), ch(')'), ch('{'), ch('}')],
    );
    lexemes.extend(on_line(5, vec![tag("second"), ch('{'), text("text")]));
    lexemes.push(Lexeme { token: Token::EndOfFile, line_no: 6 });
    let (tree, errors) = parse(lexemes);
    assert!(tree.is_none());
    assert_eq!(
        errors,
        vec![
            "Line(2): 'x' must be assigned a literal value.".to_string(),
            "Line(6): Unexpected eof while searching for }".to_string(),
        ]
    );
}

#[test]
fn well_formed_document_comes_back_as_written() {
    // page(title="Home", draft=false, weight=1.5,){ intro b{ 7 "q" true } hr tail }
    let (tree, errors) = parse(on_line(
        1,
        vec![
            tag("page"),
            ch('('),
            text("title"),
            ch('='),
            string("Home"),
            ch(','),
            text("draft"),
            ch('='),
            Token::BoolLiteral(false),
            ch(','),
            text("weight"),
            ch('='),
            number(1.5),
            ch(','),
            ch(')'),
            ch('{'),
            text("intro"),
            tag("b"),
            ch('{'),
            number(7.0),
            string("q"),
            Token::BoolLiteral(true),
            ch('}'),
            tag("hr"),
            text("tail"),
            ch('}'),
        ],
    ));
    assert_eq!(errors, Vec::<String>::new());
    assert_eq!(
        show_tree(&tree),
        "root{page(title=\"Home\",draft=false,weight=1.5){text[intro] b(){7.0 \"q\" true} hr(){} text[tail]}}"
    );
}

#[test]
fn bare_items_at_top_level_keep_their_order() {
    let (tree, errors) = parse(on_line(
        1,
        vec![text("a"), number(2.0), string("s"), Token::BoolLiteral(true), tag("t"), text("b")],
    ));
    assert_eq!(errors, Vec::<String>::new());
    assert_eq!(show_tree(&tree), "root{text[a] 2.0 \"s\" true t(){} text[b]}");
}

#[test]
fn tag_without_attributes_and_body_is_valid_at_the_end() {
    let (tree, errors) = parse(on_line(1, vec![tag("br")]));
    assert_eq!(errors, Vec::<String>::new());
    assert_eq!(show_tree(&tree), "root{br(){}}");
}

#[test]
fn empty_attribute_list_and_empty_body_are_valid() {
    let (tree, errors) = parse(on_line(1, vec![tag("t"), ch('('), ch(')'), ch('{'), ch('}')]));
    assert_eq!(errors, Vec::<String>::new());
    assert_eq!(show_tree(&tree), "root{t(){}}");
}

#[test]
fn attribute_list_without_body_is_valid() {
    let (tree, errors) = parse(on_line(
        1,
        vec![tag("img"), ch('('), text("src"), ch('='), string("a.png"), ch(')'), text("after")],
    ));
    assert_eq!(errors, Vec::<String>::new());
    assert_eq!(show_tree(&tree), "root{img(src=\"a.png\"){} text[after]}");
}

#[test]
fn commas_between_attributes_may_be_left_out() {
    let (tree, errors) = parse(on_line(
        1,
        vec![
            tag("t"),
            ch('('),
            text("a"),
            ch('='),
            number(1.0),
            text("b"),
            ch('='),
            number(2.0),
            ch(')'),
        ],
    ));
    assert_eq!(errors, Vec::<String>::new());
    assert_eq!(show_tree(&tree), "root{t(a=1.0,b=2.0){}}");
}

#[test]
fn reassigned_attribute_keeps_its_first_place() {
    let (tree, errors) = parse(on_line(
        1,
        vec![
            tag("t"),
            ch('('),
            text("a"),
            ch('='),
            number(1.0),
            ch(','),
            text("b"),
            ch('='),
            number(2.0),
            ch(','),
            text("a"),
            ch('='),
            string("late"),
            ch(')'),
        ],
    ));
    assert_eq!(errors, Vec::<String>::new());
    assert_eq!(show_tree(&tree), "root{t(a=\"late\",b=2.0){}}");
}

#[test]
fn tokenizer_error_is_recorded_and_parsing_goes_on() {
    let mut lexemes = on_line(4, vec![text("before"), Token::Error("bad escape".to_string())]);
    lexemes.extend(on_line(5, vec![tag("t"), ch('{'), ch('}')]));
    let mut parser = Parser::new(Lexer::new(lexemes));
    let tree = parser.parse();
    assert!(tree.is_none());
    assert_eq!(parser.error_log, vec!["Line(4): Tokenizer bad escape".to_string()]);
}

#[test]
fn stray_punctuation_in_a_body_is_recorded_and_skipped() {
    // t{ a , b }
    let (tree, errors) =
        parse(on_line(9, vec![tag("t"), ch('{'), text("a"), ch(','), text("b"), ch('}')]));
    assert!(tree.is_none());
    assert_eq!(errors, vec!["Line(9): Expected } but got ,".to_string()]);
}

#[test]
fn stray_punctuation_at_top_level_is_recorded_and_skipped() {
    // a } b
    let mut lexemes = on_line(1, vec![text("a")]);
    lexemes.extend(on_line(2, vec![ch('}')]));
    lexemes.extend(on_line(3, vec![text("b"), ch(')')]));
    let (tree, errors) = parse(lexemes);
    assert!(tree.is_none());
    assert_eq!(
        errors,
        vec![
            "Line(2): Expected eof but got }".to_string(),
            "Line(3): Expected eof but got )".to_string(),
        ]
    );
}

#[test]
fn attribute_name_must_be_text() {
    // t(5=1)
    let (tree, errors) =
        parse(on_line(2, vec![tag("t"), ch('('), number(5.0), ch('='), number(1.0), ch(')')]));
    assert!(tree.is_none());
    assert_eq!(
        errors,
        vec!["Line(2): Variable must be a string name but got number".to_string()]
    );
}

#[test]
fn attribute_name_must_be_followed_by_an_assignment() {
    // t(x 1)
    let (tree, errors) = parse(on_line(2, vec![tag("t"), ch('('), text("x"), number(1.0), ch(')')]));
    assert!(tree.is_none());
    assert_eq!(
        errors,
        vec![
            "Line(2): Expected assignment after 'x'.".to_string(),
            "Line(2): 'x' must be assigned a literal value.".to_string(),
            "Line(2): Unexpected eof while searching for )".to_string(),
        ]
    );
}

#[test]
fn punctuation_is_matched_by_its_character() {
    // t(x=1 } )
    let (tree, errors) = parse(on_line(
        2,
        vec![tag("t"), ch('('), text("x"), ch('='), number(1.0), ch('}'), ch(')')],
    ));
    assert!(tree.is_none());
    assert_eq!(
        errors,
        vec![
            "Line(2): Variable must be a string name but got }".to_string(),
            "Line(2): Expected assignment after '}'.".to_string(),
            "Line(2): '}' must be assigned a literal value.".to_string(),
            "Line(2): Unexpected eof while searching for )".to_string(),
        ]
    );
}

#[test]
fn unterminated_attribute_list_reports_eof() {
    // t(
    let (tree, errors) = parse(on_line(8, vec![tag("t"), ch('(')]));
    assert!(tree.is_none());
    assert_eq!(errors, vec!["Line(8): Unexpected eof while searching for )".to_string()]);
}

#[test]
fn end_of_input_behind_an_attribute_name_is_reported_for_each_missing_part() {
    // t(x
    let (tree, errors) = parse(on_line(8, vec![tag("t"), ch('('), text("x")]));
    assert!(tree.is_none());
    assert_eq!(
        errors,
        vec![
            "Line(8): Unexpected eof while searching for =".to_string(),
            "Line(8): 'x' must be assigned a literal value.".to_string(),
            "Line(8): Unexpected eof while searching for )".to_string(),
        ]
    );
}

#[test]
fn line_numbers_are_written_in_decimal() {
    for (line_no, written) in [
        (0usize, "0"),
        (9, "9"),
        (10, "10"),
        (4096, "4096"),
        (1234567890, "1234567890"),
    ] {
        let (_, errors) = parse(on_line(line_no, vec![tag("t"), ch('{')]));
        assert_eq!(errors, vec![format!("Line({}): Unexpected eof while searching for }}", written)]);
    }
}

#[test]
fn parse_impl_before_the_first_pull_sees_the_end_of_the_input() {
    let mut parser = Parser::new(Lexer::new(on_line(1, vec![text("a")])));
    let mut children = Vec::new();
    parser.parse_impl(&mut children);
    assert!(children.is_empty());
    assert!(parser.error_log.is_empty());
    let tree = parser.parse();
    assert_eq!(show_tree(&tree), "root{text[a]}");
}

#[test]
fn parse_impl_appends_to_what_is_there() {
    let mut parser = Parser::new(Lexer::new(on_line(1, vec![text("a"), text("b")])));
    let tree = parser.parse();
    let mut children = children_of_root(tree);
    // The input is used up: another run of items adds nothing.
    parser.parse_impl(&mut children);
    assert_eq!(show_all(&children), "{text[a] text[b]}");
}

#[test]
fn log_that_is_not_empty_at_the_start_is_kept_and_gives_no_tree() {
    let mut parser = Parser::new(Lexer::new(on_line(1, vec![tag("t"), ch('{')])));
    parser.error_log.push("earlier".to_string());
    let tree = parser.parse();
    assert!(tree.is_none());
    assert_eq!(
        parser.error_log,
        vec!["earlier".to_string(), "Line(1): Unexpected eof while searching for }".to_string()]
    );
    assert_eq!(parser.errors(), &parser.error_log);
}

#[test]
fn parse_twice_finds_the_end_of_the_input_the_second_time() {
    let mut parser = Parser::new(Lexer::new(on_line(1, vec![text("a")])));
    assert_eq!(show_tree(&parser.parse()), "root{text[a]}");
    assert_eq!(show_tree(&parser.parse()), "root{}");
    assert!(parser.error_log.is_empty());
}

#[test]
fn new_tag_node_is_bare() {
    let node = AstNodeTag::new("name".to_string());
    assert_eq!(node.text, "name");
    assert!(node.children.is_empty());
    assert!(node.attributes.is_empty());
}
