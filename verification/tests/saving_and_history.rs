use md_editor::errors::{map_io_error, AppError, AppErrorCode, IoErrorClass};
use md_editor::history::{
    create_snapshot, find_snapshot, list_snapshots, snapshot_open_mtime, HistoryIndex,
    SnapshotOutcome,
};
use md_editor::saving::{
    draft_from_content, save_decision, store_recovery_draft_plan, temp_file_name,
    DraftStoreAction,
};

const HIST: &str = "/sup/history";

fn must_create(
    index: &mut HistoryIndex,
    path: &str,
    content: &str,
    reason: &str,
    now_ms: u64,
) -> SnapshotOutcome {
    match create_snapshot(index, path, content, reason, now_ms, HIST) {
        Ok(outcome) => outcome,
        Err(error) => panic!("snapshot failed: {}", error.message),
    }
}

#[test]
fn error_mapping_follows_the_taxonomy() {
    let e = map_io_error(IoErrorClass::NotFound, "gone".to_string());
    assert_eq!(e.code, AppErrorCode::FileNotFound);
    assert_eq!(e.message, "gone");
    let e = map_io_error(IoErrorClass::PermissionDenied, "no".to_string());
    assert_eq!(e.code, AppErrorCode::PermissionDenied);
    let e = map_io_error(IoErrorClass::Other, "boom".to_string());
    assert_eq!(e.code, AppErrorCode::Io);
    let e = AppError::new(AppErrorCode::Conflict, "c".to_string());
    assert_eq!(e.code, AppErrorCode::Conflict);
}

#[test]
fn rejects_conflicting_save() {
    // The file was modified after the caller captured its mtime.
    let stale = save_decision(true, Some(1_000), Some(1_004));
    let error = stale.expect_err("should detect conflict");
    assert_eq!(error.code, AppErrorCode::Conflict);
    // Saving with the current mtime succeeds.
    assert!(save_decision(true, Some(1_004), Some(1_004)).is_ok());
    // Unconditional save ignores the time entirely.
    assert!(save_decision(true, None, None).is_ok());
    // A vanished file is reported as missing.
    let gone = save_decision(false, None, None).expect_err("missing file");
    assert_eq!(gone.code, AppErrorCode::FileNotFound);
}

#[test]
fn temp_names_carry_target_and_process() {
    assert_eq!(temp_file_name("doc.md", 42), ".doc.md.42.tmp");
    assert_ne!(temp_file_name("doc.md", 42), temp_file_name("doc.md", 43));
}

#[test]
fn recovery_draft_roundtrip() {
    assert_eq!(store_recovery_draft_plan("Recovered"), DraftStoreAction::WriteAtomic);
    assert_eq!(draft_from_content("Recovered".to_string()), Some("Recovered".to_string()));
    assert_eq!(store_recovery_draft_plan(""), DraftStoreAction::Remove);
    assert_eq!(store_recovery_draft_plan("   \n\t"), DraftStoreAction::Remove);
    assert_eq!(draft_from_content(String::new()), None);
}

#[test]
fn dedup_returns_the_same_snapshot() {
    let mut index = HistoryIndex::new();
    let first = must_create(&mut index, "/w/a.md", "same text", "manual", 1_000);
    let first_entry = match first {
        SnapshotOutcome::Created { ref entry, .. } => entry,
        _ => panic!("first call must create"),
    };
    let second = must_create(&mut index, "/w/a.md", "same text", "manual", 2_000);
    match second {
        SnapshotOutcome::Reused(entry) => {
            assert_eq!(entry.id, first_entry.id);
            assert_eq!(entry.created_at_ms, 1_000);
        },
        _ => panic!("identical content must dedup"),
    }
    assert_eq!(list_snapshots(&index, "/w/a.md").len(), 1);
}

#[test]
fn autosaves_coalesce_within_a_minute() {
    let mut index = HistoryIndex::new();
    let first = must_create(&mut index, "/w/a.md", "v1", "autosave", 10_000);
    let first_id = match first {
        SnapshotOutcome::Created { entry, .. } => entry.id,
        _ => panic!("first call must create"),
    };
    // Different content, 30 s later: coalesced into the first record.
    let second = must_create(&mut index, "/w/a.md", "v2", "autosave", 40_000);
    match second {
        SnapshotOutcome::Reused(entry) => assert_eq!(entry.id, first_id),
        _ => panic!("autosave within the window must coalesce"),
    }
    // Different content, past the window: a fresh record.
    let third = must_create(&mut index, "/w/a.md", "v3", "autosave", 80_000);
    match third {
        SnapshotOutcome::Created { entry, .. } => assert_ne!(entry.id, first_id),
        _ => panic!("autosave past the window must create"),
    }
    // A manual save with new content is never coalesced.
    let mut index2 = HistoryIndex::new();
    must_create(&mut index2, "/w/b.md", "v1", "autosave", 10_000);
    let manual = must_create(&mut index2, "/w/b.md", "v2", "manual", 20_000);
    assert!(matches!(manual, SnapshotOutcome::Created { .. }));
}

#[test]
fn snapshot_retention_prunes_to_fifty() {
    let path = "/tmp/fake.md".to_string();
    let mut index = HistoryIndex::new();
    for index_no in 0..55u64 {
        let content = format!("content-{}", index_no);
        // Spread the calls out so nothing dedups or coalesces.
        if let Err(error) = create_snapshot(
            &mut index,
            &path,
            &content,
            "manual",
            1_000_000 + index_no * 120_000,
            HIST,
        ) {
            panic!("snapshot: {}", error.message);
        }
    }
    let entries = list_snapshots(&index, &path);
    assert!(entries.len() <= 50);
}

#[test]
fn retention_drops_the_oldest_and_reports_their_files() {
    let path = "/w/c.md";
    let mut index = HistoryIndex::new();
    let mut first_file = String::new();
    let mut all_pruned: Vec<String> = Vec::new();
    for i in 0..51u64 {
        let content = format!("body-{}", i);
        match must_create(&mut index, path, &content, "manual", i * 100_000) {
            SnapshotOutcome::Created { snapshot_file_path, mut pruned_files, .. } => {
                if i == 0 {
                    first_file = snapshot_file_path;
                }
                all_pruned.append(&mut pruned_files);
            },
            _ => panic!("each call must create"),
        }
    }
    let entries = list_snapshots(&index, path);
    assert_eq!(entries.len(), 50);
    // The oldest record was pruned, and its backing file was named for deletion.
    assert_eq!(all_pruned, vec![first_file]);
    assert_eq!(entries.last().unwrap().created_at_ms, 100_000);
}

#[test]
fn listing_is_newest_first_and_isolated_per_document() {
    let mut index = HistoryIndex::new();
    must_create(&mut index, "/w/a.md", "one", "manual", 1_000);
    must_create(&mut index, "/w/a.md", "two", "manual", 900_000);
    must_create(&mut index, "/w/a.md", "three", "manual", 500_000);
    must_create(&mut index, "/w/b.md", "other", "manual", 700_000);
    let entries = list_snapshots(&index, "/w/a.md");
    assert_eq!(entries.len(), 3);
    assert_eq!(entries[0].created_at_ms, 900_000);
    assert_eq!(entries[1].created_at_ms, 500_000);
    assert_eq!(entries[2].created_at_ms, 1_000);
    assert_eq!(list_snapshots(&index, "/w/b.md").len(), 1);
    assert_eq!(list_snapshots(&index, "/w/unknown.md").len(), 0);
}

#[test]
fn load_snapshot_failure_modes() {
    let mut index = HistoryIndex::new();
    let missing = find_snapshot(&index, "/w/a.md", "any").expect_err("no history");
    assert_eq!(missing.code, AppErrorCode::FileNotFound);
    assert_eq!(missing.message, "No snapshots available for this document");
    let created = must_create(&mut index, "/w/a.md", "text", "manual", 1_000);
    let (id, file_path) = match created {
        SnapshotOutcome::Created { entry, snapshot_file_path, .. } => (
            entry.id,
            snapshot_file_path,
        ),
        _ => panic!("must create"),
    };
    let not_there = find_snapshot(&index, "/w/a.md", "bogus").expect_err("unknown id");
    assert_eq!(not_there.code, AppErrorCode::FileNotFound);
    assert_eq!(not_there.message, "Snapshot not found");
    let record = find_snapshot(&index, "/w/a.md", &id).expect("known id");
    assert_eq!(record.id, id);
    assert_eq!(record.file_path, file_path);
    assert_eq!(record.size_bytes, 4);
    // Fallback modification time when the live document is gone.
    assert_eq!(snapshot_open_mtime(Some(9_999), record.created_at_ms), 9_999);
    assert_eq!(snapshot_open_mtime(None, record.created_at_ms), 1_000);
}

#[test]
fn blank_snapshot_paths_are_refused() {
    let mut index = HistoryIndex::new();
    let error = create_snapshot(&mut index, "   ", "text", "manual", 1_000, HIST)
        .expect_err("blank path");
    assert_eq!(error.code, AppErrorCode::Io);
    assert_eq!(error.message, "Snapshot path is empty");
}

#[test]
fn empty_content_snapshots_and_dedups() {
    let mut index = HistoryIndex::new();
    let first = must_create(&mut index, "/w/e.md", "", "manual", 1_000);
    match first {
        SnapshotOutcome::Created { ref entry, .. } => assert_eq!(entry.size_bytes, 0),
        _ => panic!("first call must create"),
    }
    let second = must_create(&mut index, "/w/e.md", "", "manual", 2_000);
    assert!(matches!(second, SnapshotOutcome::Reused(_)));
}
