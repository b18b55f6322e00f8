use mdby::{Database, Error, FieldType, QueryResult, Value};

fn setup_test_db() -> Database {
    Database::new("db")
}

fn exec(db: &mut Database, query: &str) -> QueryResult {
    db.execute(query).expect(&format!("Query failed: {}", query))
}

fn ids(result: QueryResult) -> Vec<String> {
    match result {
        QueryResult::Documents(docs) => docs.into_iter().map(|d| d.id).collect(),
        _ => panic!("Expected Documents"),
    }
}

#[test]
fn test_create_collection_basic() {
    let mut db = setup_test_db();
    let result = exec(&mut db, "CREATE COLLECTION todos");
    assert!(matches!(result, QueryResult::CollectionCreated(name) if name == "todos"));
    assert!(db.find_collection("todos").is_some());
}

#[test]
fn test_create_collection_with_schema() {
    let mut db = setup_test_db();
    let result = exec(&mut db, "CREATE COLLECTION todos (title STRING REQUIRED, done BOOL DEFAULT false, priority INT)");
    assert!(matches!(result, QueryResult::CollectionCreated(_)));
    let schema = db.schema.get("todos").expect("schema registered");
    assert_eq!(schema.fields.len(), 3);
    assert!(schema.fields[0].1.required);
    assert_eq!(schema.fields[1].1.default, Some(Value::Bool(false)));
    assert!(matches!(schema.fields[2].1.field_type, FieldType::Int));
}

#[test]
fn test_create_collection_if_not_exists() {
    let mut db = setup_test_db();
    exec(&mut db, "CREATE COLLECTION todos (n INT)");
    let result = exec(&mut db, "CREATE IF NOT EXISTS COLLECTION todos");
    assert!(matches!(result, QueryResult::CollectionCreated(_)));
    assert_eq!(db.schema.get("todos").unwrap().fields.len(), 1);
    assert_eq!(db.commits.len(), 1);
}

#[test]
fn test_create_collection_duplicate_fails() {
    let mut db = setup_test_db();
    exec(&mut db, "CREATE COLLECTION todos");
    let result = db.execute("CREATE COLLECTION todos");
    assert!(result.is_err());
    assert!(result.unwrap_err().to_text().contains("already exists"));
}

#[test]
fn test_insert_basic() {
    let mut db = setup_test_db();
    exec(&mut db, "CREATE COLLECTION todos");
    let result = exec(&mut db, "INSERT INTO todos (id, title) VALUES ('task-1', 'Buy milk')");
    assert!(matches!(result, QueryResult::Affected(1)));
    let ci = db.find_collection("todos").unwrap();
    assert_eq!(db.collections[ci].documents[0].path, "task-1.md");
}

#[test]
fn test_insert_with_multiple_fields() {
    let mut db = setup_test_db();
    exec(&mut db, "CREATE COLLECTION todos");
    exec(&mut db, "INSERT INTO todos (id, title, done, priority) VALUES ('task-1', 'Buy milk', false, 5)");
    let result = exec(&mut db, "SELECT * FROM todos WHERE @id = 'task-1'");
    assert_eq!(ids(result), vec!["task-1"]);
}

#[test]
fn test_insert_duplicate_fails() {
    let mut db = setup_test_db();
    exec(&mut db, "CREATE COLLECTION todos");
    exec(&mut db, "INSERT INTO todos (id, title) VALUES ('task-1', 'Buy milk')");
    let result = db.execute("INSERT INTO todos (id, title) VALUES ('task-1', 'Duplicate')");
    assert!(matches!(result, Err(Error::DocumentAlreadyExists { .. })));
}

#[test]
fn test_insert_requires_id() {
    let mut db = setup_test_db();
    exec(&mut db, "CREATE COLLECTION todos");
    let result = db.execute("INSERT INTO todos (title) VALUES ('No ID')");
    assert!(result.is_err());
    assert!(result.unwrap_err().to_text().contains("id"));
}

#[test]
fn test_insert_validates_schema_required_fields() {
    let mut db = setup_test_db();
    exec(&mut db, "CREATE COLLECTION todos (title STRING REQUIRED)");
    let result = db.execute("INSERT INTO todos (id) VALUES ('task-1')");
    assert!(matches!(result, Err(Error::MissingRequiredField { .. })));
}

#[test]
fn test_select_all() {
    let mut db = setup_test_db();
    exec(&mut db, "CREATE COLLECTION todos");
    exec(&mut db, "INSERT INTO todos (id, title) VALUES ('task-1', 'First')");
    exec(&mut db, "INSERT INTO todos (id, title) VALUES ('task-2', 'Second')");
    assert_eq!(ids(exec(&mut db, "SELECT * FROM todos")).len(), 2);
}

#[test]
fn test_select_empty_collection() {
    let mut db = setup_test_db();
    exec(&mut db, "CREATE COLLECTION todos");
    assert_eq!(ids(exec(&mut db, "SELECT * FROM todos")).len(), 0);
}

#[test]
fn test_select_nonexistent_collection() {
    let mut db = setup_test_db();
    let result = db.execute("SELECT * FROM nonexistent");
    assert!(result.is_err());
    assert!(result.unwrap_err().to_text().contains("does not exist"));
}

#[test]
fn test_select_with_where_equality() {
    let mut db = setup_test_db();
    exec(&mut db, "CREATE COLLECTION todos");
    exec(&mut db, "INSERT INTO todos (id, title, done) VALUES ('task-1', 'First', true)");
    exec(&mut db, "INSERT INTO todos (id, title, done) VALUES ('task-2', 'Second', false)");
    assert_eq!(ids(exec(&mut db, "SELECT * FROM todos WHERE done = true")), vec!["task-1"]);
}

#[test]
fn test_select_where_by_id() {
    let mut db = setup_test_db();
    exec(&mut db, "CREATE COLLECTION todos");
    exec(&mut db, "INSERT INTO todos (id, title) VALUES ('task-1', 'First')");
    exec(&mut db, "INSERT INTO todos (id, title) VALUES ('task-2', 'Second')");
    assert_eq!(ids(exec(&mut db, "SELECT * FROM todos WHERE @id = 'task-2'")), vec!["task-2"]);
}

#[test]
fn test_select_with_order_by() {
    let mut db = setup_test_db();
    exec(&mut db, "CREATE COLLECTION todos");
    exec(&mut db, "INSERT INTO todos (id, title, priority) VALUES ('task-1', 'Low', 1)");
    exec(&mut db, "INSERT INTO todos (id, title, priority) VALUES ('task-2', 'High', 10)");
    exec(&mut db, "INSERT INTO todos (id, title, priority) VALUES ('task-3', 'Med', 5)");
    let got = ids(exec(&mut db, "SELECT * FROM todos ORDER BY priority DESC"));
    assert_eq!(got, vec!["task-2", "task-3", "task-1"]);
}

#[test]
fn sort_desc_tie_break_scenario() {
    let mut db = setup_test_db();
    exec(&mut db, "CREATE COLLECTION todos");
    exec(&mut db, "INSERT INTO todos (id, priority) VALUES ('task-1', 1)");
    exec(&mut db, "INSERT INTO todos (id, priority) VALUES ('task-3', 5)");
    exec(&mut db, "INSERT INTO todos (id, priority) VALUES ('task-2', 10)");
    exec(&mut db, "INSERT INTO todos (id) VALUES ('task-4')");
    exec(&mut db, "INSERT INTO todos (id, priority) VALUES ('task-5', 5)");
    let got = ids(exec(&mut db, "SELECT * FROM todos ORDER BY priority DESC"));
    assert_eq!(got, vec!["task-2", "task-3", "task-5", "task-1", "task-4"]);
    let asc = ids(exec(&mut db, "SELECT * FROM todos ORDER BY priority"));
    assert_eq!(asc, vec!["task-4", "task-1", "task-3", "task-5", "task-2"]);
}

#[test]
fn test_select_with_limit() {
    let mut db = setup_test_db();
    exec(&mut db, "CREATE COLLECTION todos");
    for i in 1..=10 {
        exec(&mut db, &format!("INSERT INTO todos (id, title) VALUES ('task-{}', 'Task {}')", i, i));
    }
    assert_eq!(ids(exec(&mut db, "SELECT * FROM todos LIMIT 3")).len(), 3);
}

#[test]
fn test_select_with_offset() {
    let mut db = setup_test_db();
    exec(&mut db, "CREATE COLLECTION todos");
    exec(&mut db, "INSERT INTO todos (id, title, priority) VALUES ('task-3', 'Third', 3)");
    exec(&mut db, "INSERT INTO todos (id, title, priority) VALUES ('task-1', 'First', 1)");
    exec(&mut db, "INSERT INTO todos (id, title, priority) VALUES ('task-2', 'Second', 2)");
    let got = ids(exec(&mut db, "SELECT * FROM todos ORDER BY priority LIMIT 2 OFFSET 1"));
    assert_eq!(got, vec!["task-2", "task-3"]);
    assert_eq!(ids(exec(&mut db, "SELECT * FROM todos ORDER BY priority OFFSET 3")).len(), 0);
    assert_eq!(ids(exec(&mut db, "SELECT * FROM todos OFFSET 99")).len(), 0);
}

#[test]
fn test_select_with_and_condition() {
    let mut db = setup_test_db();
    exec(&mut db, "CREATE COLLECTION todos");
    exec(&mut db, "INSERT INTO todos (id, title, done, priority) VALUES ('task-1', 'A', true, 5)");
    exec(&mut db, "INSERT INTO todos (id, title, done, priority) VALUES ('task-2', 'B', false, 5)");
    exec(&mut db, "INSERT INTO todos (id, title, done, priority) VALUES ('task-3', 'C', true, 1)");
    assert_eq!(ids(exec(&mut db, "SELECT * FROM todos WHERE done = true AND priority = 5")), vec!["task-1"]);
}

#[test]
fn projection_keeps_named_fields() {
    let mut db = setup_test_db();
    exec(&mut db, "CREATE COLLECTION todos");
    exec(&mut db, "INSERT INTO todos (id, title, done) VALUES ('task-1', 'A', true) BODY 'text'");
    match exec(&mut db, "SELECT title, @id FROM todos") {
        QueryResult::Documents(docs) => {
            assert_eq!(docs[0].fields.len(), 1);
            assert_eq!(docs[0].get("title"), Some(&Value::String("A".into())));
            assert_eq!(docs[0].body, "text");
            assert_eq!(docs[0].id, "task-1");
        }
        _ => panic!("Expected Documents"),
    }
}

#[test]
fn test_update_single_field() {
    let mut db = setup_test_db();
    exec(&mut db, "CREATE COLLECTION todos");
    exec(&mut db, "INSERT INTO todos (id, title, done) VALUES ('task-1', 'Buy milk', false)");
    let result = exec(&mut db, "UPDATE todos SET done = true WHERE @id = 'task-1'");
    assert!(matches!(result, QueryResult::Affected(1)));
    match exec(&mut db, "SELECT * FROM todos WHERE @id = 'task-1'") {
        QueryResult::Documents(docs) => {
            assert_eq!(docs.len(), 1);
            assert_eq!(docs[0].get("done").and_then(|v| v.as_bool()), Some(true));
        }
        _ => panic!("Expected Documents"),
    }
}

#[test]
fn test_update_multiple_documents() {
    let mut db = setup_test_db();
    exec(&mut db, "CREATE COLLECTION todos");
    exec(&mut db, "INSERT INTO todos (id, title, done) VALUES ('task-1', 'A', false)");
    exec(&mut db, "INSERT INTO todos (id, title, done) VALUES ('task-2', 'B', false)");
    exec(&mut db, "INSERT INTO todos (id, title, done) VALUES ('task-3', 'C', true)");
    let result = exec(&mut db, "UPDATE todos SET done = true WHERE done = false");
    assert!(matches!(result, QueryResult::Affected(2)));
}

#[test]
fn update_changes_exactly_the_matches() {
    let mut db = setup_test_db();
    exec(&mut db, "CREATE COLLECTION todos");
    exec(&mut db, "INSERT INTO todos (id, title, done) VALUES ('task-1', 'A', false)");
    exec(&mut db, "INSERT INTO todos (id, title, done) VALUES ('task-2', 'B', true)");
    exec(&mut db, "INSERT INTO todos (id, title, done) VALUES ('task-3', 'C', false)");
    let result = exec(&mut db, "UPDATE todos SET title = 'Z', old = title WHERE done = false");
    assert!(matches!(result, QueryResult::Affected(2)));
    assert_eq!(ids(exec(&mut db, "SELECT * FROM todos WHERE title = 'Z'")), vec!["task-1", "task-3"]);
    assert_eq!(ids(exec(&mut db, "SELECT * FROM todos WHERE title = 'B'")), vec!["task-2"]);
    assert_eq!(ids(exec(&mut db, "SELECT * FROM todos WHERE old = 'C'")), vec!["task-3"]);
    assert_eq!(db.commits.last().unwrap(), "UPDATE todos: 2 document(s)");
}

#[test]
fn test_update_no_matches() {
    let mut db = setup_test_db();
    exec(&mut db, "CREATE COLLECTION todos");
    exec(&mut db, "INSERT INTO todos (id, title) VALUES ('task-1', 'Test')");
    let result = exec(&mut db, "UPDATE todos SET done = true WHERE @id = 'nonexistent'");
    assert!(matches!(result, QueryResult::Affected(0)));
}

#[test]
fn test_delete_single() {
    let mut db = setup_test_db();
    exec(&mut db, "CREATE COLLECTION todos");
    exec(&mut db, "INSERT INTO todos (id, title) VALUES ('task-1', 'Test')");
    let result = exec(&mut db, "DELETE FROM todos WHERE @id = 'task-1'");
    assert!(matches!(result, QueryResult::Affected(1)));
    assert_eq!(ids(exec(&mut db, "SELECT * FROM todos")).len(), 0);
}

#[test]
fn test_delete_multiple() {
    let mut db = setup_test_db();
    exec(&mut db, "CREATE COLLECTION todos");
    exec(&mut db, "INSERT INTO todos (id, title, done) VALUES ('task-1', 'A', true)");
    exec(&mut db, "INSERT INTO todos (id, title, done) VALUES ('task-2', 'B', true)");
    exec(&mut db, "INSERT INTO todos (id, title, done) VALUES ('task-3', 'C', false)");
    let result = exec(&mut db, "DELETE FROM todos WHERE done = true");
    assert!(matches!(result, QueryResult::Affected(2)));
    assert_eq!(ids(exec(&mut db, "SELECT * FROM todos")), vec!["task-3"]);
}

#[test]
fn test_drop_collection() {
    let mut db = setup_test_db();
    exec(&mut db, "CREATE COLLECTION todos");
    exec(&mut db, "INSERT INTO todos (id, title) VALUES ('task-1', 'Test')");
    let result = exec(&mut db, "DROP COLLECTION todos");
    assert!(matches!(result, QueryResult::Affected(1)));
    assert!(db.find_collection("todos").is_none());
    assert!(db.execute("SELECT * FROM todos").is_err());
}

#[test]
fn test_create_view() {
    let mut db = setup_test_db();
    exec(&mut db, "CREATE COLLECTION todos");
    let result = exec(&mut db, "CREATE VIEW active AS SELECT * FROM todos WHERE done = false");
    assert!(matches!(result, QueryResult::ViewCreated(name) if name == "active"));
    assert!(db.find_view("active").is_some());
}

#[test]
fn test_create_view_with_template() {
    let mut db = setup_test_db();
    exec(&mut db, "CREATE COLLECTION todos");
    let result = exec(&mut db, "CREATE VIEW active AS SELECT * FROM todos WHERE done = false TEMPLATE 'list.html'");
    assert!(matches!(result, QueryResult::ViewCreated(_)));
    assert!(db.execute("CREATE VIEW active AS SELECT * FROM todos").is_err());
    assert!(db.execute("CREATE VIEW other AS SELECT * FROM todos TEMPLATE '../x.html'").is_err());
}

#[test]
fn test_drop_view() {
    let mut db = setup_test_db();
    exec(&mut db, "CREATE COLLECTION todos");
    exec(&mut db, "CREATE VIEW active AS SELECT * FROM todos");
    let result = exec(&mut db, "DROP VIEW active");
    assert!(matches!(result, QueryResult::Affected(1)));
    assert!(db.find_view("active").is_none());
    assert!(matches!(db.execute("DROP VIEW active"), Err(Error::ViewNotFound { .. })));
}

#[test]
fn test_path_traversal_in_document_id_blocked() {
    let mut db = setup_test_db();
    exec(&mut db, "CREATE COLLECTION todos");
    let attacks = vec![
        "INSERT INTO todos (id, title) VALUES ('../evil', 'test')",
        "INSERT INTO todos (id, title) VALUES ('foo/bar', 'test')",
        "INSERT INTO todos (id, title) VALUES ('foo\\bar', 'test')",
        "INSERT INTO todos (id, title) VALUES ('.hidden', 'test')",
    ];
    for attack in attacks {
        let result = db.execute(attack);
        assert!(result.is_err(), "Should have blocked: {}", attack);
    }
}

#[test]
fn test_path_traversal_in_collection_name_blocked() {
    let mut db = setup_test_db();
    assert!(db.execute("CREATE COLLECTION my-collection").is_ok());
    assert!(db.execute("CREATE COLLECTION _hidden").is_err());
}

#[test]
fn test_operations_create_git_commits() {
    let mut db = setup_test_db();
    exec(&mut db, "CREATE COLLECTION todos");
    assert_eq!(db.commits.len(), 1);
    exec(&mut db, "INSERT INTO todos (id, title) VALUES ('task-1', 'Test')");
    assert_eq!(db.commits.len(), 2);
    assert_eq!(db.commits[0], "CREATE COLLECTION todos");
    assert_eq!(db.commits[1], "INSERT into todos: task-1");
}

#[test]
fn test_special_characters_in_string_values() {
    let mut db = setup_test_db();
    exec(&mut db, "CREATE COLLECTION todos");
    exec(&mut db, r#"INSERT INTO todos (id, title) VALUES ('task-1', 'Test with "quotes"')"#);
    match exec(&mut db, "SELECT * FROM todos") {
        QueryResult::Documents(docs) => {
            assert_eq!(docs.len(), 1);
            assert_eq!(docs[0].get("title"), Some(&Value::String("Test with \"quotes\"".into())));
        }
        _ => panic!("Expected Documents"),
    }
}

#[test]
fn test_numeric_string_id() {
    let mut db = setup_test_db();
    exec(&mut db, "CREATE COLLECTION todos");
    exec(&mut db, "INSERT INTO todos (id, title) VALUES ('123', 'Numeric ID')");
    assert_eq!(ids(exec(&mut db, "SELECT * FROM todos WHERE @id = '123'")).len(), 1);
}

#[test]
fn test_schema_type_validation_int_field() {
    let mut db = setup_test_db();
    exec(&mut db, "CREATE COLLECTION items (name STRING, count INT)");
    assert!(db.execute("INSERT INTO items (id, name, count) VALUES ('item-1', 'Widget', 42)").is_ok());
    let result = db.execute("INSERT INTO items (id, name, count) VALUES ('item-2', 'Gadget', 'not-a-number')");
    assert!(result.is_err());
    let err_msg = result.unwrap_err().to_text();
    assert!(err_msg.contains("TypeMismatch") || err_msg.contains("type") || err_msg.contains("expected"));
    assert!(db.execute("INSERT INTO items (id, count) VALUES ('item-3', 42.0)").is_ok());
    assert!(db.execute("INSERT INTO items (id, count) VALUES ('item-4', 42.5)").is_err());
}

#[test]
fn test_schema_type_validation_bool_field() {
    let mut db = setup_test_db();
    exec(&mut db, "CREATE COLLECTION flags (name STRING, enabled BOOL)");
    assert!(db.execute("INSERT INTO flags (id, name, enabled) VALUES ('flag-1', 'Feature', true)").is_ok());
    assert!(db.execute("INSERT INTO flags (id, name, enabled) VALUES ('flag-2', 'Other', 'yes')").is_err());
}

#[test]
fn test_schema_type_validation_date_field() {
    let mut db = setup_test_db();
    exec(&mut db, "CREATE COLLECTION events (title STRING, event_date DATE)");
    assert!(db.execute("INSERT INTO events (id, title, event_date) VALUES ('event-1', 'Meeting', '2024-01-15')").is_ok());
    assert!(db.execute("INSERT INTO events (id, title, event_date) VALUES ('event-2', 'Party', 'next tuesday')").is_err());
}

#[test]
fn missing_id_regardless_of_schema() {
    let mut db = setup_test_db();
    assert!(matches!(db.execute("INSERT INTO t (title) VALUES ('x')"), Err(Error::MissingDocumentId)));
    exec(&mut db, "CREATE COLLECTION t (title STRING REQUIRED)");
    assert!(matches!(db.execute("INSERT INTO t (title) VALUES ('x')"), Err(Error::MissingDocumentId)));
    assert!(matches!(db.execute("INSERT INTO t (id, title) VALUES (7, 'x')"), Err(Error::MissingDocumentId)));
    assert_eq!(db.commits.len(), 1);
}

#[test]
fn parse_errors_change_nothing() {
    let mut db = setup_test_db();
    assert!(matches!(db.execute("SELEKT * FROM t"), Err(Error::ParseError { .. })));
    assert!(db.collections.is_empty());
}

#[test]
fn error_kinds_for_names() {
    let mut db = setup_test_db();
    assert!(matches!(db.execute("CREATE COLLECTION con"), Err(Error::ReservedName { name }) if name == "con"));
    assert!(matches!(db.execute("DROP COLLECTION todos"), Err(Error::CollectionNotFound { .. })));
    assert!(matches!(db.execute("UPDATE nope SET a = 1"), Err(Error::CollectionNotFound { .. })));
    assert!(matches!(db.execute("DELETE FROM nope"), Err(Error::CollectionNotFound { .. })));
    assert!(matches!(db.execute("CREATE VIEW v AS SELECT * FROM _bad"), Err(Error::InvalidIdentifier { .. })));
    match db.execute("INSERT INTO t (id) VALUES ('a b')") {
        Err(e) => assert_eq!(e.to_text(), "Invalid identifier 'a b': contains invalid characters (only alphanumeric, underscore, and hyphen allowed)"),
        Ok(_) => panic!("expected an invalid identifier"),
    }
    assert!(db.collections.is_empty());
    assert!(db.commits.is_empty());
}

#[test]
fn insert_creates_missing_collection_and_keeps_body() {
    let mut db = setup_test_db();
    exec(&mut db, "INSERT INTO notes (id, title, title) VALUES ('n1', 'a', 'b') BODY 'hello'");
    let ci = db.find_collection("notes").unwrap();
    let doc = &db.collections[ci].documents[0];
    assert_eq!(doc.body, "hello");
    assert_eq!(doc.get("title"), Some(&Value::String("b".into())));
    assert_eq!(doc.get("id"), None);
}
