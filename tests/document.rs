use mdby::filter::format_value;
use mdby::history::transaction_message;
use mdby::document::{decimal_to_text, like_to_regex};
use mdby::text::int_to_text;
use mdby::{Collection, Decimal, Document, OutputFormat, SelectStmt, Value, View};

#[test]
fn test_document_creation() {
    let mut doc = Document::new("my-doc");
    doc.set("title", Value::String("Hello World".into()));
    doc.set("priority", Value::Int(1));
    doc.set("done", Value::Bool(false));
    assert_eq!(doc.id, "my-doc");
    assert_eq!(doc.get("title"), Some(&Value::String("Hello World".into())));
}

#[test]
fn set_replaces_and_keeps_order() {
    let mut doc = Document::new("d");
    doc.set("a", Value::Int(1));
    doc.set("b", Value::Int(2));
    doc.set("a", Value::Int(3));
    assert_eq!(doc.fields.len(), 2);
    assert_eq!(doc.get("a"), Some(&Value::Int(3)));
    assert_eq!(doc.path, "d.md");
    assert_eq!(doc.get("zzz"), None);
    let doc = doc.with_body("text".to_string());
    assert_eq!(doc.body, "text");
}

#[test]
fn value_accessors() {
    assert_eq!(Value::String("x".into()).as_str(), Some("x"));
    assert_eq!(Value::Int(4).as_i64(), Some(4));
    assert_eq!(Value::Bool(true).as_bool(), Some(true));
    assert_eq!(Value::Null.as_bool(), None);
    assert_eq!(Value::Array(vec![Value::Null]).as_array().map(|a| a.len()), Some(1));
}

#[test]
fn number_text() {
    assert_eq!(int_to_text(-42), "-42");
    assert_eq!(int_to_text(i64::MIN), "-9223372036854775808");
    assert_eq!(decimal_to_text(Decimal { units: 42_000_000_000_000_000_000 }), "42");
    assert_eq!(decimal_to_text(Decimal { units: -1_250_000_000_000_000_000 }), "-1.25");
    assert_eq!(decimal_to_text(Decimal { units: 1 }), "0.000000000000000001");
}

#[test]
fn like_pattern_translation() {
    assert_eq!(like_to_regex("a%b_c"), "^a.*b.c$");
    assert!(Value::String("abc".into()).matches_pattern("a_c"));
    assert!(!Value::String("abcd".into()).matches_pattern("a_c"));
}

#[test]
fn collection_paths_and_views() {
    let c = Collection::open("todos", "/db");
    assert_eq!(c.path, "/db/collections/todos");
    let v = View::new("active", SelectStmt::new("todos")).with_template("list.html");
    assert_eq!(v.formats, vec![OutputFormat::Html, OutputFormat::Json]);
    assert_eq!(v.template, Some("list.html".to_string()));
}

#[test]
fn display_of_values() {
    let v = Value::Array(vec![Value::Int(1), Value::Null, Value::String("x".into()), Value::Bool(true)]);
    assert_eq!(format_value(&v), "[1, NULL, x, true]");
    assert_eq!(format_value(&Value::Object(vec![])), "{...}");
    assert_eq!(format_value(&Value::Float(Decimal { units: 500_000_000_000_000_000 })), "0.5");
    assert_eq!(transaction_message("T", &vec![]), "T");
    assert_eq!(transaction_message("T", &vec!["a".to_string(), "b".to_string()]), "T\n\na\nb");
}
