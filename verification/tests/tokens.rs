use sr_markup::{make_empty_token_text, Lexeme, Lexer, Token, TokenTag, TokenText};

fn text_token(content: &str, start: usize, end_with_content: usize, end: usize) -> Token {
    Token::Text(TokenText {
        line_no_start: start,
        line_no_end_with_content: end_with_content,
        line_no_end: end,
        text: content.to_string(),
    })
}

#[test]
fn every_kind_of_token_has_its_text() {
    assert_eq!(Token::Tag(TokenTag { text: "image".to_string() }).to_text(), "image");
    assert_eq!(text_token("some text", 1, 2, 3).to_text(), "some text");
    assert_eq!(Token::StringLiteral("quoted".to_string()).to_text(), "quoted");
    assert_eq!(Token::NumberLiteral(2.5f64.to_bits()).to_text(), "number");
    assert_eq!(Token::BoolLiteral(true).to_text(), "true");
    assert_eq!(Token::BoolLiteral(false).to_text(), "false");
    assert_eq!(Token::Character('{').to_text(), "{");
    assert_eq!(Token::Character('\u{e9}').to_text(), "\u{e9}");
    assert_eq!(Token::Error("broken".to_string()).to_text(), "broken");
    assert_eq!(Token::EndOfFile.to_text(), "eof");
}

#[test]
fn only_strings_numbers_and_booleans_are_literals() {
    assert!(Token::StringLiteral(String::new()).is_literal());
    assert!(Token::NumberLiteral(0).is_literal());
    assert!(Token::BoolLiteral(false).is_literal());
    assert!(!Token::Tag(TokenTag { text: "t".to_string() }).is_literal());
    assert!(!text_token("t", 0, 0, 0).is_literal());
    assert!(!Token::Character('=').is_literal());
    assert!(!Token::Error("e".to_string()).is_literal());
    assert!(!Token::EndOfFile.is_literal());
}

#[test]
fn clone_keeps_what_a_token_carries() {
    match text_token("body", 4, 5, 6).clone() {
        Token::Text(t) => {
            assert_eq!(t.text, "body");
            assert_eq!((t.line_no_start, t.line_no_end_with_content, t.line_no_end), (4, 5, 6));
        }
        _ => panic!("the clone is no text token"),
    }
    match Token::NumberLiteral(1.25f64.to_bits()).clone() {
        Token::NumberLiteral(bits) => assert_eq!(f64::from_bits(bits), 1.25),
        _ => panic!("the clone is no number"),
    }
    match Token::Character(',').clone() {
        Token::Character(c) => assert_eq!(c, ','),
        _ => panic!("the clone is no character"),
    }
    match Token::Error("m".to_string()).clone() {
        Token::Error(m) => assert_eq!(m, "m"),
        _ => panic!("the clone is no error"),
    }
}

#[test]
fn empty_text_token_is_empty_and_on_line_zero() {
    match make_empty_token_text() {
        Token::Text(t) => {
            assert_eq!(t.text, "");
            assert_eq!((t.line_no_start, t.line_no_end_with_content, t.line_no_end), (0, 0, 0));
        }
        _ => panic!("not a text token"),
    }
}

#[test]
fn lexer_hands_out_its_tokens_in_order_and_then_end_of_file_for_ever() {
    let mut lexer = Lexer::new(vec![
        Lexeme { token: text_token("a", 0, 0, 0), line_no: 3 },
        Lexeme { token: Token::Character('{'), line_no: 5 },
    ]);
    assert_eq!(lexer.current_line_number(), 1);
    assert_eq!(lexer.get_next_token().to_text(), "a");
    assert_eq!(lexer.current_line_number(), 3);
    assert!(matches!(lexer.get_next_token(), Token::Character('{')));
    assert_eq!(lexer.current_line_number(), 5);
    for _ in 0..3 {
        assert!(matches!(lexer.get_next_token(), Token::EndOfFile));
        assert_eq!(lexer.current_line_number(), 5);
    }
}

#[test]
fn lexer_does_not_pass_an_end_of_file_token() {
    let mut lexer = Lexer::new(vec![
        Lexeme { token: Token::EndOfFile, line_no: 12 },
        Lexeme { token: Token::BoolLiteral(true), line_no: 13 },
    ]);
    for _ in 0..3 {
        assert!(matches!(lexer.get_next_token(), Token::EndOfFile));
        assert_eq!(lexer.current_line_number(), 12);
    }
}
