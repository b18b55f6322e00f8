use mdby::schema::{describe_value_type, is_valid_date, is_valid_datetime, ValidationError};
use mdby::{Decimal, Document, FieldDef, FieldType, Schema, Value};

fn doc_with(id: &str, key: &str, v: Value) -> Document {
    let mut d = Document::new(id);
    d.set(key, v);
    d
}

fn s(x: &str) -> Value {
    Value::String(x.to_string())
}

#[test]
fn test_schema_validation() {
    let mut done = FieldDef::default();
    done.field_type = FieldType::Bool;
    done.default = Some(Value::Bool(false));
    let mut title = FieldDef::default();
    title.required = true;
    let schema = Schema::new("todos").field("title", title).field("done", done);
    let doc = doc_with("task-1", "title", s("Buy groceries"));
    assert!(schema.validate(&doc).is_ok());
    let empty_doc = Document::new("task-2");
    assert!(matches!(schema.validate(&empty_doc), Err(ValidationError::MissingRequired(_))));
}

#[test]
fn test_type_validation_string() {
    let schema = Schema::new("test").field("name", FieldDef::default());
    let doc = doc_with("doc-1", "name", s("Alice"));
    assert!(schema.validate(&doc).is_ok());
    let doc = doc_with("doc-2", "name", Value::Int(42));
    assert!(matches!(schema.validate(&doc), Err(ValidationError::TypeMismatch { .. })));
}

#[test]
fn test_type_validation_int() {
    let mut def = FieldDef::default();
    def.field_type = FieldType::Int;
    let schema = Schema::new("test").field("count", def);
    let doc = doc_with("doc-1", "count", Value::Int(42));
    assert!(schema.validate(&doc).is_ok());
    let doc = doc_with("doc-2", "count", s("not a number"));
    assert!(matches!(schema.validate(&doc), Err(ValidationError::TypeMismatch { .. })));
}

#[test]
fn test_type_validation_bool() {
    let mut def = FieldDef::default();
    def.field_type = FieldType::Bool;
    let schema = Schema::new("test").field("active", def);
    let doc = doc_with("doc-1", "active", Value::Bool(true));
    assert!(schema.validate(&doc).is_ok());
    let doc = doc_with("doc-2", "active", s("true"));
    assert!(matches!(schema.validate(&doc), Err(ValidationError::TypeMismatch { .. })));
}

#[test]
fn test_type_validation_array() {
    let mut def = FieldDef::default();
    def.field_type = FieldType::Array(Box::new(FieldType::String));
    let schema = Schema::new("test").field("tags", def);
    let doc = doc_with("doc-1", "tags", Value::Array(vec![s("rust"), s("database")]));
    assert!(schema.validate(&doc).is_ok());
    let doc = doc_with("doc-2", "tags", Value::Array(vec![Value::Int(1), Value::Int(2)]));
    assert!(matches!(schema.validate(&doc), Err(ValidationError::TypeMismatch { .. })));
}

#[test]
fn test_type_validation_date() {
    let mut def = FieldDef::default();
    def.field_type = FieldType::Date;
    let schema = Schema::new("test").field("due_date", def);
    let doc = doc_with("doc-1", "due_date", s("2024-01-15"));
    assert!(schema.validate(&doc).is_ok());
    let doc = doc_with("doc-2", "due_date", s("not-a-date"));
    assert!(matches!(schema.validate(&doc), Err(ValidationError::TypeMismatch { .. })));
}

#[test]
fn test_type_validation_datetime() {
    let mut def = FieldDef::default();
    def.field_type = FieldType::DateTime;
    let schema = Schema::new("test").field("created_at", def);
    let doc = doc_with("doc-1", "created_at", s("2024-01-15T10:30:00"));
    assert!(schema.validate(&doc).is_ok());
    let doc = doc_with("doc-2", "created_at", s("2024-01-15T10:30:00Z"));
    assert!(schema.validate(&doc).is_ok());
    let doc = doc_with("doc-3", "created_at", s("yesterday"));
    assert!(matches!(schema.validate(&doc), Err(ValidationError::TypeMismatch { .. })));
}

#[test]
fn test_null_always_valid() {
    let schema = Schema::new("test").field("optional", FieldDef::default());
    let doc = doc_with("doc-1", "optional", Value::Null);
    assert!(schema.validate(&doc).is_ok());
}

#[test]
fn test_date_validation_helpers() {
    assert!(is_valid_date("2024-01-15"));
    assert!(is_valid_date("2024-12-31"));
    assert!(!is_valid_date("2024-13-01"));
    assert!(!is_valid_date("not-a-date"));
    assert!(!is_valid_date("2024/01/15"));

    assert!(is_valid_datetime("2024-01-15T10:30:00"));
    assert!(is_valid_datetime("2024-01-15T10:30:00Z"));
    assert!(is_valid_datetime("2024-01-15 10:30:00"));
    assert!(!is_valid_datetime("not-a-datetime"));
}

#[test]
fn dates_are_loose_on_month_length() {
    assert!(is_valid_date("2024-02-31"));
    assert!(!is_valid_date("2024-00-10"));
    assert!(!is_valid_date("2024-01-32"));
    assert!(!is_valid_date("2024-1-015x"));
    assert!(!is_valid_date("2024-1-015"));
    assert!(!is_valid_date("+024-01-15"));
    assert!(!is_valid_date("2024-01-1x"));
    assert!(is_valid_datetime("2024-01-15"));
    assert!(!is_valid_datetime("2024-01-15T24:00"));
    assert!(!is_valid_datetime("2024-01-15T10:60"));
    assert!(is_valid_datetime("2024-01-15T23:59+02:00"));
    assert!(!is_valid_datetime("2024-01-15X10:30"));
    assert!(!is_valid_datetime("2024-01-15T1030"));
}

#[test]
fn whole_decimals_fit_int_fields() {
    let mut def = FieldDef::default();
    def.field_type = FieldType::Int;
    let schema = Schema::new("test").field("count", def);
    let whole = Decimal { units: 42 * 1_000_000_000_000_000_000 };
    let half = Decimal { units: 4_500_000_000_000_000_000 };
    assert!(schema.validate(&doc_with("a", "count", Value::Float(whole))).is_ok());
    assert!(schema.validate(&doc_with("b", "count", Value::Float(half))).is_err());
}

#[test]
fn type_mismatch_names_types() {
    let mut def = FieldDef::default();
    def.field_type = FieldType::Array(Box::new(FieldType::Int));
    let schema = Schema::new("test").field("xs", def);
    let doc = doc_with("d", "xs", Value::Array(vec![s("a")]));
    match schema.validate(&doc) {
        Err(ValidationError::TypeMismatch { field, expected, actual }) => {
            assert_eq!(field, "xs");
            assert_eq!(expected, "Array(Int)");
            assert_eq!(actual, "array<string>");
        }
        _ => panic!("expected a type mismatch"),
    }
    assert_eq!(describe_value_type(&Value::Array(vec![])), "array");
    assert_eq!(describe_value_type(&Value::Object(vec![])), "object");
}
