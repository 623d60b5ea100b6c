use md_editor::hashing::{hash_u64, u64_to_dec, u64_to_hex};
use md_editor::paths::{
    app_log_path, ext_from_path, history_dir, history_index_path, is_image_file,
    is_markdown_file, is_supported_open_path, is_text_openable_file, join_path, parent_dir,
    recovery_draft_path, relative_to, session_state_path, should_skip_dir,
    snapshot_dir_for_document,
};

#[test]
fn classifies_markdown_extensions() {
    assert!(is_markdown_file("/w/README.md"));
    assert!(is_markdown_file("/w/guide.markdown"));
    assert!(is_markdown_file("/w/UPPER.MD"));
    assert!(!is_markdown_file("/w/notes.txt"));
    assert!(!is_markdown_file("/w/README"));
    assert!(!is_markdown_file("/w/.md"));
}

#[test]
fn classifies_text_and_image_files() {
    assert!(is_text_openable_file("a.txt"));
    assert!(is_text_openable_file("a.md"));
    assert!(!is_text_openable_file("a.png"));
    assert!(is_supported_open_path("/x/a.markdown"));
    assert!(is_image_file("p.PNG"));
    assert!(is_image_file("p.jpeg"));
    assert!(is_image_file("p.svg"));
    assert!(!is_image_file("p.tiff"));
}

#[test]
fn skips_hidden_and_dependency_directories() {
    assert!(should_skip_dir("/w/.git"));
    assert!(should_skip_dir("/w/node_modules"));
    assert!(should_skip_dir("/w/target"));
    assert!(!should_skip_dir("/w/docs"));
    assert!(!should_skip_dir("/w/targets"));
}

#[test]
fn joins_and_relativizes_paths() {
    assert_eq!(join_path("/w", "a.md"), "/w/a.md");
    assert_eq!(join_path("/w/", "a.md"), "/w/a.md");
    assert_eq!(join_path("/w", "/abs/a.md"), "/abs/a.md");
    assert_eq!(relative_to("/w", "/w/docs/a.md"), "docs/a.md");
    assert_eq!(relative_to("/w", "/other/a.md"), "/other/a.md");
    assert_eq!(relative_to("/w", "/w"), "");
}

#[test]
fn parent_of_path_forms() {
    assert_eq!(parent_dir("/w/a.md"), Some("/w".to_string()));
    assert_eq!(parent_dir("/a.md"), Some("/".to_string()));
    assert_eq!(parent_dir("a.md"), Some("".to_string()));
    assert_eq!(parent_dir("/"), None);
    assert_eq!(parent_dir(""), None);
}

#[test]
fn extension_extraction_lowercases() {
    assert_eq!(ext_from_path("/w/a.PNG"), Some("png".to_string()));
    assert_eq!(ext_from_path("/w/archive.tar.GZ"), Some("gz".to_string()));
    assert_eq!(ext_from_path("/w/README"), None);
    assert_eq!(ext_from_path("/w/.gitignore"), None);
}

#[test]
fn support_directory_layout() {
    assert_eq!(recovery_draft_path("/sup"), "/sup/recovery-draft.md");
    assert_eq!(app_log_path("/sup"), "/sup/md-editor.log");
    assert_eq!(history_dir("/sup"), "/sup/history");
    assert_eq!(history_index_path("/sup"), "/sup/history/index.json");
    assert_eq!(session_state_path("/sup"), "/sup/session.json");
}

#[test]
fn number_formatting_matches_std() {
    assert_eq!(u64_to_hex(255), "ff");
    assert_eq!(u64_to_hex(0), "0");
    assert_eq!(u64_to_hex(0xdeadbeef), format!("{:x}", 0xdeadbeefu64));
    assert_eq!(u64_to_dec(0), "0");
    assert_eq!(u64_to_dec(1234567890), "1234567890");
}

#[test]
fn content_hash_is_stable_and_separates() {
    assert_eq!(hash_u64("alpha"), hash_u64("alpha"));
    assert_ne!(hash_u64("alpha"), hash_u64("beta"));
    assert_ne!(hash_u64(""), hash_u64(" "));
}

#[test]
fn snapshot_directories_are_stable_per_document() {
    let a = snapshot_dir_for_document("/sup/history", "/w/a.md");
    let b = snapshot_dir_for_document("/sup/history", "/w/a.md");
    let c = snapshot_dir_for_document("/sup/history", "/w/b.md");
    assert_eq!(a, b);
    assert_ne!(a, c);
    assert!(a.starts_with("/sup/history/"));
    assert_eq!(a, format!("/sup/history/{:x}", hash_u64("/w/a.md")));
}
