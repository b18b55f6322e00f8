use mdby::conflict::{merge_fields, resolve, ConflictResolution};
use mdby::{Document, Value};

fn text(s: &str) -> Value {
    Value::String(s.into())
}

#[test]
fn test_merge_fields_no_conflict() {
    let mut ours = Document::new("test");
    ours.set("title", text("Our Title"));
    ours.set("ours_only", text("value"));
    let mut theirs = Document::new("test");
    theirs.set("title", text("Our Title"));
    theirs.set("theirs_only", text("value"));
    let result = merge_fields(None, &ours, &theirs).unwrap();
    assert_eq!(result.get("title"), Some(&text("Our Title")));
    assert_eq!(result.get("ours_only"), Some(&text("value")));
    assert_eq!(result.get("theirs_only"), Some(&text("value")));
}

#[test]
fn test_merge_fields_conflict_theirs_wins() {
    let mut ours = Document::new("test");
    ours.set("title", text("Our Title"));
    let mut theirs = Document::new("test");
    theirs.set("title", text("Their Title"));
    let result = merge_fields(None, &ours, &theirs).unwrap();
    assert_eq!(result.get("title"), Some(&text("Their Title")));
}

#[test]
fn merge_keeps_local_change_over_unchanged_remote() {
    let mut base = Document::new("d");
    base.set("n", Value::Int(1));
    let mut ours = Document::new("d");
    ours.set("n", Value::Int(2));
    let mut theirs = Document::new("d");
    theirs.set("n", Value::Int(1));
    theirs.body = "remote".into();
    let result = merge_fields(Some(&base), &ours, &theirs).unwrap();
    assert_eq!(result.get("n"), Some(&Value::Int(2)));
    assert_eq!(result.body, "remote");
}

#[test]
fn strategies() {
    let mut ours = Document::new("d");
    ours.body = "a".into();
    ours.set("x", Value::Int(1));
    let mut theirs = Document::new("d");
    theirs.body = "b".into();
    theirs.set("y", Value::Int(2));
    assert!(resolve(None, &ours, &theirs, ConflictResolution::Manual).is_err());
    assert_eq!(resolve(None, &ours, &theirs, ConflictResolution::Ours).unwrap().body, "a");
    assert_eq!(resolve(None, &ours, &theirs, ConflictResolution::Theirs).unwrap().body, "b");
    let both = resolve(None, &ours, &theirs, ConflictResolution::ConcatenateBody).unwrap();
    assert_eq!(both.body, "<<<<<<< OURS\na\n=======\nb\n>>>>>>> THEIRS");
    assert_eq!(both.get("x"), Some(&Value::Int(1)));
    assert_eq!(both.get("y"), Some(&Value::Int(2)));
    assert_eq!(ConflictResolution::default(), ConflictResolution::MergeFields);
}
