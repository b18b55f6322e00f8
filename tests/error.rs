use mdby::Error;

#[test]
fn test_error_display() {
    let err = Error::CollectionNotFound { name: "todos".to_string() };
    assert_eq!(err.to_text(), "Collection 'todos' does not exist");
}

#[test]
fn test_error_suggestion() {
    let err = Error::CollectionNotFound { name: "todos".to_string() };
    assert!(err.suggestion().is_some());
}

#[test]
fn recoverable_kinds() {
    assert!(Error::ViewNotFound { name: "v".into() }.is_recoverable());
    assert!(!Error::MissingDocumentId.is_recoverable());
    assert!(Error::MissingDocumentId.suggestion().unwrap().contains("id"));
    assert!(Error::ViewAlreadyExists { name: "v".into() }.suggestion().is_none());
    assert_eq!(Error::MissingDocumentId.to_text(), "INSERT requires an 'id' column");
}
