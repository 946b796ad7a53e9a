use projkit::gitignore::{ensure_entries_in_gitignore, has_entry};

#[test]
fn has_entry_normalizes_slashes_and_whitespace() {
    for line in ["target", "/target", "target/", "/target/", "  /target/  ", "target\r"] {
        assert!(has_entry(line, "target"), "{line:?}");
    }
    assert!(has_entry("a\n\nb\ntarget\n", "target"));
}

#[test]
fn has_entry_skips_comments_and_blank_lines() {
    assert!(!has_entry("# target\n", "target"));
    assert!(!has_entry("\n   \n", "target"));
    assert!(!has_entry("targets\n", "target"));
    assert!(!has_entry("", "target"));
}

#[test]
fn missing_file_gets_one_line_per_entry() {
    assert_eq!(
        ensure_entries_in_gitignore(None, &["target", ".env"]),
        Some("target\n.env\n".to_string())
    );
    assert_eq!(ensure_entries_in_gitignore(None, &[]), Some(String::new()));
}

#[test]
fn existing_file_gets_missing_entries_appended() {
    assert_eq!(
        ensure_entries_in_gitignore(Some("foo"), &["target"]),
        Some("foo\ntarget\n".to_string())
    );
    assert_eq!(
        ensure_entries_in_gitignore(Some("foo\n"), &["target", "foo"]),
        Some("foo\ntarget\n".to_string())
    );
    assert_eq!(
        ensure_entries_in_gitignore(Some("# target\n"), &["target"]),
        Some("# target\ntarget\n".to_string())
    );
    assert_eq!(ensure_entries_in_gitignore(Some(""), &["a", "a"]), Some("a\n".to_string()));
}

#[test]
fn listed_entries_are_not_written() {
    assert_eq!(ensure_entries_in_gitignore(Some("/target/\n.env\n"), &["target", ".env"]), None);
    assert_eq!(ensure_entries_in_gitignore(Some("x\n"), &[]), None);
}

#[test]
fn second_update_writes_nothing() {
    let first = ensure_entries_in_gitignore(Some("node_modules"), &["target", "dist"]).unwrap();
    assert_eq!(first, "node_modules\ntarget\ndist\n");
    assert_eq!(ensure_entries_in_gitignore(Some(&first), &["target", "dist"]), None);
    let fresh = ensure_entries_in_gitignore(None, &["target"]).unwrap();
    assert_eq!(ensure_entries_in_gitignore(Some(&fresh), &["target"]), None);
}
