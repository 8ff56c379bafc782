use corolla::text::{contains, same_text};

#[test]
fn substring_search() {
    assert!(contains("no such table: x", "no such table"));
    assert!(contains("error: no such table", "no such table"));
    assert!(!contains("no such tab", "no such table"));
    assert!(contains("anything", ""));
    assert!(!contains("", "a"));
}

#[test]
fn text_equality() {
    assert!(same_text("read01", "read01"));
    assert!(!same_text("read01", "read02"));
    assert!(!same_text("read0", "read01"));
    assert!(same_text("", ""));
}
