use sr_markup::text::{digit_char, push_decimal};
use sr_markup::{AstLiteral, Attributes};

fn number_at(attributes: &Attributes, name: &str) -> Option<f64> {
    match attributes.get(name) {
        Some(AstLiteral::Float(bits)) => Some(f64::from_bits(*bits)),
        _ => None,
    }
}

#[test]
fn new_attributes_are_empty() {
    let attributes = Attributes::new();
    assert_eq!(attributes.len(), 0);
    assert!(attributes.is_empty());
    assert!(attributes.get("x").is_none());
}

#[test]
fn insert_assigns_and_get_finds() {
    let mut attributes = Attributes::new();
    attributes.insert("width".to_string(), AstLiteral::Float(640.0f64.to_bits()));
    attributes.insert("alt".to_string(), AstLiteral::Str("a picture".to_string()));
    attributes.insert("wide".to_string(), AstLiteral::Bool(true));
    assert_eq!(attributes.len(), 3);
    assert!(!attributes.is_empty());
    assert_eq!(number_at(&attributes, "width"), Some(640.0));
    assert!(matches!(attributes.get("alt"), Some(AstLiteral::Str(s)) if s == "a picture"));
    assert!(matches!(attributes.get("wide"), Some(AstLiteral::Bool(true))));
    assert!(attributes.get("height").is_none());
    assert!(attributes.get("").is_none());
}

#[test]
fn insert_under_a_name_that_is_there_replaces_the_value_only() {
    let mut attributes = Attributes::new();
    attributes.insert("a".to_string(), AstLiteral::Float(1.0f64.to_bits()));
    attributes.insert("b".to_string(), AstLiteral::Float(2.0f64.to_bits()));
    attributes.insert("a".to_string(), AstLiteral::Float(3.0f64.to_bits()));
    assert_eq!(attributes.len(), 2);
    assert_eq!(number_at(&attributes, "a"), Some(3.0));
    assert_eq!(number_at(&attributes, "b"), Some(2.0));
    assert_eq!(attributes.entry(0).name, "a");
    assert_eq!(attributes.entry(1).name, "b");
    assert!(matches!(attributes.entry(0).value, AstLiteral::Float(bits) if f64::from_bits(bits) == 3.0));
}

#[test]
fn clone_of_attributes_holds_the_same_assignments() {
    let mut attributes = Attributes::new();
    attributes.insert("a".to_string(), AstLiteral::Bool(false));
    attributes.insert("b".to_string(), AstLiteral::Str("text".to_string()));
    let copy = attributes.clone();
    attributes.insert("a".to_string(), AstLiteral::Bool(true));
    assert_eq!(copy.len(), 2);
    assert!(matches!(copy.get("a"), Some(AstLiteral::Bool(false))));
    assert!(matches!(copy.get("b"), Some(AstLiteral::Str(s)) if s == "text"));
    assert!(matches!(attributes.get("a"), Some(AstLiteral::Bool(true))));
}

#[test]
fn clone_of_a_literal_is_the_same_literal() {
    assert!(matches!(AstLiteral::Str("s".to_string()).clone(), AstLiteral::Str(s) if s == "s"));
    assert!(matches!(AstLiteral::Float(7).clone(), AstLiteral::Float(7)));
    assert!(matches!(AstLiteral::Bool(true).clone(), AstLiteral::Bool(true)));
}

#[test]
fn digits_are_the_ten_decimal_digits() {
    let digits: String = (0..10).map(digit_char).collect();
    assert_eq!(digits, "0123456789");
}

#[test]
fn push_decimal_appends_the_numeral() {
    for n in [0usize, 1, 9, 10, 11, 99, 100, 101, 65535, usize::MAX] {
        let mut out = String::from("n=");
        push_decimal(&mut out, n);
        assert_eq!(out, format!("n={}", n));
    }
}
