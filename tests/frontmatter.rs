use mdby::frontmatter::{frame, split_frontmatter};

#[test]
fn frame_then_split_round_trip() {
    let text = frame("title: Test Document\n", "This is the body.\n\nWith multiple paragraphs.");
    assert_eq!(text, "---\ntitle: Test Document\n---\n\nThis is the body.\n\nWith multiple paragraphs.");
    let (yaml, body) = split_frontmatter(&text).unwrap();
    assert_eq!(yaml, Some("title: Test Document".to_string()));
    assert_eq!(body, "This is the body.\n\nWith multiple paragraphs.");
}

#[test]
fn split_without_frontmatter() {
    let (yaml, body) = split_frontmatter("  # Just a document\n\nWith no frontmatter.").unwrap();
    assert_eq!(yaml, None);
    assert_eq!(body, "# Just a document\n\nWith no frontmatter.");
}

#[test]
fn split_unclosed_is_an_error() {
    assert!(split_frontmatter("---\ntitle: x\nno end").is_err());
}

#[test]
fn split_stops_at_first_marker() {
    let (yaml, body) = split_frontmatter("---\na: 1\n---\n\n\nbody\n---\nmore").unwrap();
    assert_eq!(yaml, Some("a: 1".to_string()));
    assert_eq!(body, "body\n---\nmore");
}

#[test]
fn render_without_fields_is_the_body() {
    assert_eq!(mdby::frontmatter::render_text("", 0, "just text"), "just text");
    assert_eq!(mdby::frontmatter::render_text("a: 1\n", 1, "b"), "---\na: 1\n---\n\nb");
}
