use md_editor::listing::{markdown_entry, sort_entries, MarkdownFileEntry};
use md_editor::paths::is_markdown_file;
use md_editor::search::{build_snippet, search_documents, ScannedDocument};

fn scanned(root: &str, path: &str, content: &str) -> ScannedDocument {
    ScannedDocument {
        entry: markdown_entry(root, path),
        content: Some(content.to_string()),
    }
}

#[test]
fn lists_markdown_files_in_folder() {
    // The walker would meet these three entries; only the markdown
    // family is eligible, and results come sorted by relative path.
    let root = "/w";
    let candidates = ["/w/README.md", "/w/docs/guide.markdown", "/w/notes.txt"];
    let mut files: Vec<MarkdownFileEntry> = Vec::new();
    for path in candidates {
        if is_markdown_file(path) {
            files.push(markdown_entry(root, path));
        }
    }
    sort_entries(&mut files);
    assert_eq!(files.len(), 2);
    assert!(files.iter().any(|file| file.relative_path == "README.md"));
    assert!(files.iter().any(|file| file.relative_path == "docs/guide.markdown"));
}

#[test]
fn entries_sort_case_insensitively_by_relative_path() {
    let root = "/w";
    let mut files = vec![
        markdown_entry(root, "/w/zeta.md"),
        markdown_entry(root, "/w/Alpha.md"),
        markdown_entry(root, "/w/beta.md"),
    ];
    sort_entries(&mut files);
    let order: Vec<&str> = files.iter().map(|f| f.relative_path.as_str()).collect();
    assert_eq!(order, vec!["Alpha.md", "beta.md", "zeta.md"]);
    assert_eq!(files[0].name, "Alpha.md");
    assert_eq!(files[0].path, "/w/Alpha.md");
}

#[test]
fn search_workspace_finds_expected_match() {
    let docs = vec![
        scanned("/w", "/w/a.md", "hello world\nalpha beta"),
        scanned("/w", "/w/b.md", "another file"),
    ];
    let hits = search_documents(&docs, "hello alpha", None);
    assert_eq!(hits.len(), 1);
    assert_eq!(hits[0].name, "a.md");
}

#[test]
fn search_requires_every_token() {
    let docs = vec![scanned("/w", "/w/only.md", "hello there")];
    assert_eq!(search_documents(&docs, "hello alpha", None).len(), 0);
    assert_eq!(search_documents(&docs, "hello", None).len(), 1);
    assert_eq!(search_documents(&docs, "HELLO tHeRe", None).len(), 1);
}

#[test]
fn search_reports_line_of_first_token_match() {
    let docs = vec![scanned("/w", "/w/a.md", "first line\nsecond target line\nthird")];
    let hits = search_documents(&docs, "target", None);
    assert_eq!(hits.len(), 1);
    assert_eq!(hits[0].line, 2);
    assert_eq!(hits[0].snippet, "first line second target line third");
}

#[test]
fn search_honors_and_clamps_the_limit() {
    let mut docs = Vec::new();
    for i in 0..5 {
        docs.push(scanned("/w", &format!("/w/f{}.md", i), "needle content"));
    }
    assert_eq!(search_documents(&docs, "needle", Some(3)).len(), 3);
    // A zero limit is clamped up to one result.
    assert_eq!(search_documents(&docs, "needle", Some(0)).len(), 1);
    assert_eq!(search_documents(&docs, "needle", None).len(), 5);
}

#[test]
fn search_skips_unreadable_files_and_empty_queries() {
    let docs = vec![
        ScannedDocument { entry: markdown_entry("/w", "/w/bad.md"), content: None },
        scanned("/w", "/w/good.md", "needle"),
    ];
    let hits = search_documents(&docs, "needle", None);
    assert_eq!(hits.len(), 1);
    assert_eq!(hits[0].name, "good.md");
    assert_eq!(search_documents(&docs, "   ", None).len(), 0);
    assert_eq!(search_documents(&docs, "", None).len(), 0);
}

#[test]
fn snippets_collapse_whitespace_around_the_match() {
    assert_eq!(build_snippet("a\n\nb\t c", 0), "a b c");
    let long_head = "x".repeat(200);
    let text = format!("{} match tail", long_head);
    // The window keeps at most 80 characters before the match.
    let snippet = build_snippet(&text, 201);
    assert_eq!(snippet, format!("{} match tail", "x".repeat(79)));
}
