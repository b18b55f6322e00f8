use mdby::validation::ValidationError;
use mdby::{sanitize_identifier, validate_collection_name, validate_document_id, validate_template_name};

#[test]
fn test_valid_identifiers() {
    assert!(validate_collection_name("todos").is_ok());
    assert!(validate_collection_name("my-collection").is_ok());
    assert!(validate_collection_name("Collection123").is_ok());
    assert!(validate_collection_name("a").is_ok());
    assert!(validate_document_id("task-1").is_ok());
    assert!(validate_document_id("2024-01-15-notes").is_ok());
}

#[test]
fn test_path_traversal_blocked() {
    assert!(validate_collection_name("..").is_err());
    assert!(validate_collection_name("../secret").is_err());
    assert!(validate_collection_name("foo/bar").is_err());
    assert!(validate_collection_name("foo\\bar").is_err());
    assert!(validate_document_id("../../../etc/passwd").is_err());
}

#[test]
fn test_invalid_characters() {
    assert!(validate_collection_name("foo bar").is_err());
    assert!(validate_collection_name("foo.bar").is_err());
    assert!(validate_collection_name("foo@bar").is_err());
    assert!(validate_collection_name("foo:bar").is_err());
}

#[test]
fn test_invalid_start_characters() {
    assert!(validate_collection_name("-foo").is_err());
    assert!(validate_collection_name("_foo").is_err());
}

#[test]
fn test_reserved_names() {
    assert!(validate_collection_name("con").is_err());
    assert!(validate_collection_name("CON").is_err());
    assert!(validate_collection_name("nul").is_err());
    assert!(validate_collection_name("..").is_err());
}

#[test]
fn test_empty_and_too_long() {
    assert!(validate_collection_name("").is_err());
    let long_name = "a".repeat(256);
    assert!(validate_collection_name(&long_name).is_err());
}

#[test]
fn test_template_names() {
    assert!(validate_template_name("list.html").is_ok());
    assert!(validate_template_name("todo-view.html").is_ok());
    assert!(validate_template_name("../secret.html").is_err());
    assert!(validate_template_name(".hidden").is_err());
}

#[test]
fn test_sanitize() {
    assert_eq!(sanitize_identifier("hello world"), Some("hello_world".to_string()));
    assert_eq!(sanitize_identifier("foo/bar"), Some("foo_bar".to_string()));
    assert_eq!(sanitize_identifier("___"), None);
    assert_eq!(sanitize_identifier("123-test"), Some("123-test".to_string()));
    assert_eq!(sanitize_identifier("-foo"), Some("foo".to_string()));
}

#[test]
fn identifier_errors_name_their_kind() {
    assert!(matches!(validate_collection_name(""), Err(ValidationError::Empty)));
    assert!(matches!(validate_collection_name(&"b".repeat(256)), Err(ValidationError::TooLong(_, 255))));
    assert!(matches!(validate_collection_name("a".repeat(255).as_str()), Ok(())));
    assert!(matches!(validate_collection_name("-x"), Err(ValidationError::InvalidIdentifier(_, r)) if r.contains("cannot start")));
    assert!(matches!(validate_collection_name("a b"), Err(ValidationError::InvalidIdentifier(_, r)) if r.contains("invalid characters")));
    assert!(matches!(validate_collection_name("Com7"), Err(ValidationError::Reserved(n)) if n == "Com7"));
    assert!(validate_collection_name("com0").is_ok());
    assert!(validate_collection_name("lpt9").is_err());
    assert!(matches!(validate_template_name("a..b"), Err(ValidationError::InvalidIdentifier(_, r)) if r.contains("path traversal")));
    assert!(matches!(validate_template_name("nul.html"), Err(ValidationError::Reserved(_))));
    assert!(validate_template_name("null.html").is_ok());
}

#[test]
fn sanitize_collapses_runs_and_trims() {
    assert_eq!(sanitize_identifier(""), None);
    assert_eq!(sanitize_identifier("a  b!!c"), Some("a_b_c".to_string()));
    assert_eq!(sanitize_identifier("abc!!"), Some("abc".to_string()));
    assert_eq!(sanitize_identifier("a-_b"), Some("a-_b".to_string()));
    assert_eq!(sanitize_identifier("con"), None);
    assert_eq!(sanitize_identifier("!-x"), None);
}
