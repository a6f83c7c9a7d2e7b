use mdv::confine::{request_target, validate_path};
use mdv::path::{is_hidden, is_markdown_path, path_components, path_extension, path_file_name, path_starts_with};

#[test]
fn components_skip_empty_and_dot_pieces() {
    assert_eq!(path_components("/tmp//docs/./sub/"), vec!["tmp", "docs", "sub"]);
    assert!(path_components("/").is_empty());
}

#[test]
fn starts_with_is_component_wise() {
    assert!(path_starts_with("/tmp/docs/a.md", "/tmp/docs"));
    assert!(path_starts_with("/tmp/docs", "/tmp/docs"));
    assert!(!path_starts_with("/tmp/docs2/a.md", "/tmp/docs"));
    assert!(!path_starts_with("/etc/passwd", "/tmp/docs"));
    assert!(!path_starts_with("tmp/docs/a.md", "/tmp/docs"));
    assert!(path_starts_with("/anything", "/"));
}

#[test]
fn request_target_never_replaces_root() {
    assert_eq!(request_target("/tmp/docs", "/etc/passwd"), "/tmp/docs/etc/passwd");
    assert_eq!(request_target("/tmp/docs", "sub/b.md"), "/tmp/docs/sub/b.md");
    assert_eq!(request_target("/tmp/docs/", "a.md"), "/tmp/docs/a.md");
    assert_eq!(request_target("/tmp/docs", ""), "/tmp/docs/");
    assert_eq!(request_target("/tmp/docs", "../../etc/passwd"), "/tmp/docs/../../etc/passwd");
}

#[test]
fn validate_path_rejects_escapes() {
    // what canonicalizing the traversal or an outward symlink would give
    assert_eq!(validate_path("/tmp/docs", "/etc/passwd"), None);
    assert_eq!(validate_path("/tmp/docs", "/tmp/docs-other/a.md"), None);
    assert_eq!(validate_path("/tmp/docs", "/tmp"), None);
    assert_eq!(validate_path("/tmp/docs", "/tmp/docs/sub/b.md"), Some("/tmp/docs/sub/b.md".to_string()));
    assert_eq!(validate_path("/tmp/docs", "/tmp/docs"), Some("/tmp/docs".to_string()));
}

#[test]
fn file_names_and_extensions() {
    assert_eq!(path_file_name("/tmp/docs"), Some("docs".to_string()));
    assert_eq!(path_file_name("/tmp/docs/"), Some("docs".to_string()));
    assert_eq!(path_file_name("/"), None);
    assert_eq!(path_file_name("/tmp/.."), None);
    assert_eq!(path_extension("a.b.md"), Some("md".to_string()));
    assert_eq!(path_extension(".md"), None);
    assert_eq!(path_extension("a."), Some("".to_string()));
    assert_eq!(path_extension("notes"), None);
    assert!(is_markdown_path("/tmp/docs/sub/b.md"));
    assert!(!is_markdown_path("/tmp/docs/notes.txt"));
    assert!(!is_markdown_path("/tmp/docs/.md"));
    assert!(is_hidden(".git"));
    assert!(!is_hidden("a.md"));
}
