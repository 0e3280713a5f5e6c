use hangar::version::{
    diff_configs, parse_version_filename, SnapshotStore, VersionError,
};

#[test]
fn test_save_two_versions() {
    let mut store = SnapshotStore::new();
    let first_seq = store.get_next_version_number();
    let v1 = store.save_version("manual", "first run", 1000, "x: 1");
    let second_seq = store.get_next_version_number();
    let v2 = store.save_version("manual", "second run", 1001, "x: 2");

    assert_ne!(v1.id, v2.id);
    assert_eq!(second_seq, first_seq + 1);
    assert_eq!(store.get_version_content(&v1.id), Ok("x: 1".to_string()));
    assert_eq!(store.get_version_content(&v2.id), Ok("x: 2".to_string()));
    assert_eq!(v1.description, "[manual] first run");
}

#[test]
fn test_sequence_numbers_survive_deletion() {
    let mut store = SnapshotStore::new();
    let v1 = store.save_version("manual", "one", 1000, "a");
    store.delete_version(&v1.id).unwrap();
    // the deleted number is not reused
    assert_eq!(store.get_next_version_number(), 2);
    let v2 = store.save_version("manual", "two", 1001, "b");
    assert!(v2.id.starts_with("v2_"));
    assert_eq!(store.get_next_version_number(), 3);
}

#[test]
fn test_resolve_alias_not_found() {
    let mut store = SnapshotStore::new();
    store.save_version("manual", "one", 1000, "a");
    assert_eq!(store.resolve_version_id("v3"), Err(VersionError::AliasNotFound));
}

#[test]
fn test_resolve_alias_forms() {
    let mut store = SnapshotStore::new();
    let v1 = store.save_version("manual", "one", 1000, "a");
    assert_eq!(store.resolve_version_id("v1"), Ok(v1.id.clone()));
    assert_eq!(store.resolve_version_id("v0"), Ok("v0".to_string()));
    // anything not of the short form passes through as a concrete id
    assert_eq!(
        store.resolve_version_id("some_file.yaml"),
        Ok("some_file.yaml".to_string())
    );
}

#[test]
fn test_get_version_content_cases() {
    let store = SnapshotStore::new();
    assert_eq!(store.get_version_content("v0"), Ok(String::new()));
    assert_eq!(
        store.get_version_content("missing.yaml"),
        Err(VersionError::SnapshotNotFound)
    );
}

#[test]
fn test_delete_version_not_found() {
    let mut store = SnapshotStore::new();
    assert_eq!(
        store.delete_version("missing.yaml"),
        Err(VersionError::SnapshotNotFound)
    );
}

#[test]
fn test_rollback_creates_one_backup_first() {
    let mut store = SnapshotStore::new();
    store.save_version("manual", "snap", 1000, "old content");
    let records_before = store.records.len();

    let restored = store
        .rollback_to_version("v1", Some("live content"), 2000)
        .unwrap();
    assert_eq!(restored, "old content");

    // exactly one new snapshot, of category backup, holding the live content
    assert_eq!(store.records.len(), records_before + 1);
    let backup = store.records.last().unwrap();
    assert_eq!(backup.category, "backup");
    assert_eq!(backup.content, "live content");
    assert_eq!(backup.description, "auto_backup_before_rollback");
}

#[test]
fn test_rollback_without_live_file() {
    let mut store = SnapshotStore::new();
    store.save_version("manual", "snap", 1000, "old content");
    let records_before = store.records.len();
    let restored = store.rollback_to_version("v1", None, 2000).unwrap();
    assert_eq!(restored, "old content");
    assert_eq!(store.records.len(), records_before);
}

#[test]
fn test_rollback_to_empty_version_is_refused() {
    let mut store = SnapshotStore::new();
    assert_eq!(
        store.rollback_to_version("v0", Some("live"), 2000),
        Err(VersionError::EmptyVersionTarget)
    );
}

#[test]
fn test_save_sanitizes_description() {
    let mut store = SnapshotStore::new();
    let v = store.save_version("manual", "hello world! (v2)", 1000, "x");
    assert_eq!(v.id, "v1_manual_1000_helloworldv2.yaml");
    // the listing shows the sanitized description
    let listed = store.list_versions();
    assert_eq!(listed[0].description, "v1 [manual] helloworldv2");
}

#[test]
fn test_list_versions_sorted_newest_first() {
    let mut store = SnapshotStore::new();
    store.save_version("manual", "a", 1000, "1");
    store.save_version("manual", "b", 3000, "2");
    store.save_version("manual", "c", 2000, "3");
    let listed = store.list_versions();
    assert_eq!(listed.len(), 3);
    let stamps: Vec<i64> = listed.iter().map(|v| v.timestamp).collect();
    assert_eq!(stamps, vec![3000, 2000, 1000]);
}

#[test]
fn test_parse_version_filename_formats() {
    let meta = parse_version_filename("v3_basic_1700000000_clean_run.yaml").unwrap();
    assert_eq!(meta.seq, Some(3));
    assert_eq!(meta.category, "basic");
    assert_eq!(meta.timestamp, 1700000000);
    assert_eq!(meta.description, "clean_run");

    // legacy name without a sequence number
    let legacy = parse_version_filename("v_1700000000_old_snapshot.yml").unwrap();
    assert_eq!(legacy.seq, None);
    assert_eq!(legacy.category, "legacy");
    assert_eq!(legacy.timestamp, 1700000000);
    assert_eq!(legacy.description, "old_snapshot");

    // legacy name with a category but no number
    let legacy2 = parse_version_filename("v_basic_1700000000_desc.yaml").unwrap();
    assert_eq!(legacy2.seq, None);
    assert_eq!(legacy2.category, "basic");
    assert_eq!(legacy2.description, "desc");

    assert!(parse_version_filename("readme.txt").is_none());
    assert!(parse_version_filename("x3_basic_1700000000_d.yaml").is_none());
    assert!(parse_version_filename("v3_basic_notatime_d.yaml").is_none());
}

#[test]
fn test_from_entries_skips_malformed() {
    let entries = vec![
        ("v2_manual_1000_two.yaml".to_string(), "b".to_string()),
        ("junk.bin".to_string(), "zzz".to_string()),
        ("v5_manual_1001_five.yaml".to_string(), "c".to_string()),
    ];
    let store = SnapshotStore::from_entries(entries);
    assert_eq!(store.records.len(), 2);
    assert_eq!(store.get_next_version_number(), 6);
    assert_eq!(
        store.get_version_content("v5_manual_1001_five.yaml"),
        Ok("c".to_string())
    );
}

#[test]
fn test_diff_identical_is_all_unchanged() {
    let diff = diff_configs("a: 1\nb: 2", "a: 1\nb: 2");
    assert_eq!(diff.len(), 2);
    for line in &diff {
        assert_eq!(line.line_type, "unchanged");
    }
}

#[test]
fn test_diff_reports_changes() {
    let diff = diff_configs("a\nb", "a\nc\nd");
    let kinds: Vec<&str> = diff.iter().map(|l| l.line_type.as_str()).collect();
    assert_eq!(kinds, vec!["unchanged", "removed", "added", "added"]);
    // the removed and unchanged entries spell the old text's lines
    let old_lines: Vec<&str> = diff
        .iter()
        .filter(|l| l.line_type != "added")
        .map(|l| l.content.as_str())
        .collect();
    assert_eq!(old_lines, vec!["a", "b"]);
    // the added and unchanged entries spell the new text's lines
    let new_lines: Vec<&str> = diff
        .iter()
        .filter(|l| l.line_type != "removed")
        .map(|l| l.content.as_str())
        .collect();
    assert_eq!(new_lines, vec!["a", "c", "d"]);
}

#[test]
fn test_diff_empty_inputs() {
    assert!(diff_configs("", "").is_empty());
    let diff = diff_configs("", "x");
    assert_eq!(diff.len(), 1);
    assert_eq!(diff[0].line_type, "added");
    assert_eq!(diff[0].content, "x");
}
