use mdv::listing::{directory_page, EntryFacts};
use mdv::page::{format_file_size, generate_breadcrumbs};
use mdv::render::{content_type, content_type_for_mime, markdown_page, markdown_page_with_html, view_kind, ViewKind};

fn as_double_text(size: u64) -> String {
    const KB: u64 = 1024;
    const MB: u64 = KB * 1024;
    const GB: u64 = MB * 1024;
    if size >= GB {
        format!("{:.1} GB", size as f64 / GB as f64)
    } else if size >= MB {
        format!("{:.1} MB", size as f64 / MB as f64)
    } else if size >= KB {
        format!("{:.1} KB", size as f64 / KB as f64)
    } else {
        format!("{} B", size)
    }
}

#[test]
fn file_size_exact_values() {
    assert_eq!(format_file_size(0), "0 B");
    assert_eq!(format_file_size(1023), "1023 B");
    assert_eq!(format_file_size(1024), "1.0 KB");
    assert_eq!(format_file_size(1280), "1.2 KB");
    assert_eq!(format_file_size(1536), "1.5 KB");
    assert_eq!(format_file_size(1048576), "1.0 MB");
    assert_eq!(format_file_size(5 * 1073741824), "5.0 GB");
}

#[test]
fn file_size_matches_double_formatting() {
    let mut samples: Vec<u64> = vec![u64::MAX, u64::MAX - 1, 1 << 53, (1 << 53) + 1, (1 << 63) + 12345];
    let mut x: u64 = 0x9E37_79B9_7F4A_7C15;
    for _ in 0..20000 {
        x ^= x << 13;
        x ^= x >> 7;
        x ^= x << 17;
        samples.push(x >> (x % 64));
        samples.push(x % 3_000_000);
    }
    for k in 0..64u32 {
        samples.push(1u64 << k);
        samples.push((1u64 << k).wrapping_sub(1));
        samples.push((1u64 << k) + (1u64 << k) / 2);
    }
    for s in samples {
        assert_eq!(format_file_size(s), as_double_text(s), "size {}", s);
    }
}

#[test]
fn breadcrumbs_for_nested_file() {
    let b = generate_breadcrumbs("docs-1a2b", "docs", "sub/b.md");
    let got: Vec<(String, String, bool)> = b.into_iter().map(|c| (c.name, c.path, c.is_last)).collect();
    assert_eq!(
        got,
        vec![
            ("root".to_string(), "/".to_string(), false),
            ("docs".to_string(), "/view/docs-1a2b".to_string(), false),
            ("sub".to_string(), "/view/docs-1a2b/sub".to_string(), false),
            ("b.md".to_string(), "/view/docs-1a2b/sub/b.md".to_string(), true),
        ]
    );
}

#[test]
fn breadcrumbs_for_workspace_root() {
    let b = generate_breadcrumbs("docs-1a2b", "docs", "");
    assert_eq!(b.len(), 2);
    assert!(b[1].is_last);
    assert!(!b[0].is_last);
}

#[test]
fn content_types() {
    assert_eq!(content_type("/tmp/docs/pic.png"), "image/png");
    assert_eq!(content_type("/tmp/docs/notes.txt"), "text/plain; charset=utf-8");
    assert_eq!(content_type("/tmp/docs/blob"), "application/octet-stream");
    assert_eq!(content_type_for_mime("text/html"), "text/html; charset=utf-8");
    assert_eq!(content_type_for_mime("application/json"), "application/json");
    assert_eq!(content_type_for_mime("textual/x"), "textual/x");
}

#[test]
fn markdown_page_fields() {
    let p = markdown_page("docs-1a2b", "docs", "/tmp/docs/sub/b.md", "sub/b.md", "# Title\n", Some(2048));
    assert_eq!(p.content, "<h1>Title</h1>\n");
    assert_eq!(p.filename, "b.md");
    assert_eq!(p.file_size, "2.0 KB");
    assert_eq!(p.raw_path, "/_raw/docs-1a2b/sub/b.md");
    assert_eq!(p.breadcrumbs.len(), 4);
    let q = markdown_page_with_html("docs-1a2b", "docs", "/", "/a.md", "<p>x</p>".to_string(), None);
    assert_eq!(q.content, "<p>x</p>");
    assert_eq!(q.filename, "unknown");
    assert_eq!(q.file_size, "-");
    assert_eq!(q.raw_path, "/_raw/docs-1a2b/a.md");
}

fn fact(name: &str, is_dir: bool, has_markdown: bool, size: u64) -> EntryFacts {
    EntryFacts { name: name.to_string(), is_dir, has_markdown, size, modified: Some("2024-01-02 03:04".to_string()) }
}

#[test]
fn directory_listing_filters_and_sorts() {
    let facts = vec![
        fact("zeta.md", false, false, 10),
        fact("notes.txt", false, false, 10),
        fact(".hidden.md", false, false, 10),
        fact("Beta.md", false, false, 2048),
        fact("alpha.md", false, false, 10),
        fact("sub", true, true, 0),
        fact("empty", true, false, 0),
        fact("Assets", true, true, 0),
    ];
    let page = directory_page("docs-1a2b", "docs", "", &facts);
    let names: Vec<&str> = page.entries.iter().map(|e| e.name.as_str()).collect();
    assert_eq!(names, vec!["Assets", "sub", "alpha.md", "Beta.md", "zeta.md"]);
    assert_eq!(page.entries[0].size, "-");
    assert!(page.entries[0].is_dir);
    assert_eq!(page.entries[3].size, "2.0 KB");
    assert_eq!(page.entries[3].path, "/view/docs-1a2b/Beta.md");
    assert_eq!(page.entries[3].modified, "2024-01-02 03:04");
    assert!(!page.has_parent);
    assert_eq!(page.parent_path, "/view/docs-1a2b");
}

#[test]
fn directory_listing_nested_paths() {
    let facts = vec![fact("c.md", false, false, 1), EntryFacts { modified: None, ..fact("d.md", false, false, 1) }];
    let page = directory_page("docs-1a2b", "docs", "/sub/deeper", &facts);
    assert_eq!(page.entries[0].path, "/view/docs-1a2b/sub/deeper/c.md");
    assert_eq!(page.entries[1].modified, "-");
    assert!(page.has_parent);
    assert_eq!(page.parent_path, "/view/docs-1a2b/sub");
    let one = directory_page("docs-1a2b", "docs", "sub", &facts);
    assert_eq!(one.parent_path, "/view/docs-1a2b");
}

#[test]
fn equal_lowercase_names_keep_directory_order() {
    let facts = vec![fact("a.md", false, false, 1), fact("A.md", false, false, 2)];
    let page = directory_page("w-1", "w", "", &facts);
    assert_eq!(page.entries[0].name, "a.md");
    assert_eq!(page.entries[1].name, "A.md");
}

#[test]
fn view_kinds() {
    assert_eq!(view_kind("/tmp/docs/sub", true, false), ViewKind::Directory);
    assert_eq!(view_kind("/tmp/docs/sub/b.md", false, true), ViewKind::Markdown);
    assert_eq!(view_kind("/tmp/docs/notes.txt", false, true), ViewKind::Static);
    assert_eq!(view_kind("/tmp/docs/gone.md", false, false), ViewKind::Missing);
}
