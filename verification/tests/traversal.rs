use sr_markup::{
    ASTNode, AstLiteral, AstNodeRoot, AstNodeTag, AstNodeText, IAstNode, Lexeme, Lexer, Parser,
    Token, TokenTag, TokenText, VisitEvent,
};

fn text(content: &str) -> Token {
    Token::Text(TokenText {
        line_no_start: 0,
        line_no_end_with_content: 0,
        line_no_end: 0,
        text: content.to_string(),
    })
}

fn show_events(events: &[VisitEvent]) -> Vec<String> {
    events
        .iter()
        .map(|event| match event {
            VisitEvent::TagOpen { name, attributes } => {
                let mut shown = format!("open {}", name);
                for i in 0..attributes.len() {
                    let entry = attributes.entry(i);
                    shown.push_str(&format!(" {}={:?}", entry.name, entry.value));
                }
                shown
            }
            VisitEvent::TagClose => "close".to_string(),
            VisitEvent::Text(content) => format!("text {}", content),
            VisitEvent::Literal(literal) => format!("literal {:?}", literal),
        })
        .collect()
}

fn sample_tree() -> ASTNode {
    // a(k=true){ one b{ "two" } } three
    let tokens = vec![
        Token::Tag(TokenTag { text: "a".to_string() }),
        Token::Character('('),
        text("k"),
        Token::Character('='),
        Token::BoolLiteral(true),
        Token::Character(')'),
        Token::Character('{'),
        text("one"),
        Token::Tag(TokenTag { text: "b".to_string() }),
        Token::Character('{'),
        Token::StringLiteral("two".to_string()),
        Token::Character('}'),
        Token::Character('}'),
        text("three"),
    ];
    let lexemes = tokens.into_iter().map(|token| Lexeme { token, line_no: 1 }).collect();
    let mut parser = Parser::new(Lexer::new(lexemes));
    parser.parse().expect("the sample is well formed")
}

#[test]
fn visit_reports_the_tree_in_reading_order() {
    let mut events = Vec::new();
    sample_tree().visit(&mut events);
    assert_eq!(
        show_events(&events),
        vec![
            "open a k=Bool(true)",
            "text one",
            "open b",
            "literal Str(\"two\")",
            "close",
            "close",
            "text three",
        ]
    );
}

#[test]
fn second_visit_reports_what_the_first_reported() {
    let tree = sample_tree();
    let mut events = vec![VisitEvent::Text("already there".to_string())];
    tree.visit(&mut events);
    let after_first = events.len();
    tree.visit(&mut events);
    let shown = show_events(&events);
    assert_eq!(shown[0], "text already there");
    assert_eq!(after_first, 8);
    assert_eq!(shown.len(), 15);
    assert_eq!(shown[1..after_first], shown[after_first..]);
}

#[test]
fn each_kind_of_node_can_be_visited_by_itself() {
    let mut events = Vec::new();
    AstNodeText { text: "leaf".to_string() }.visit(&mut events);
    AstLiteral::Float(0.5f64.to_bits()).visit(&mut events);
    let mut tag = AstNodeTag::new("t".to_string());
    tag.attributes.insert("x".to_string(), AstLiteral::Str("y".to_string()));
    tag.children.push(ASTNode::Literal(AstLiteral::Bool(false)));
    tag.visit(&mut events);
    AstNodeRoot { children: vec![ASTNode::Text(AstNodeText { text: "r".to_string() })] }
        .visit(&mut events);
    AstNodeRoot { children: Vec::new() }.visit(&mut events);
    assert_eq!(
        show_events(&events),
        vec![
            "text leaf".to_string(),
            format!("literal Float({})", 0.5f64.to_bits()),
            "open t x=Str(\"y\")".to_string(),
            "literal Bool(false)".to_string(),
            "close".to_string(),
            "text r".to_string(),
        ]
    );
}
