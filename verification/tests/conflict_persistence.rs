use korppi::conflict_store::{
    get_unresolved_conflicts, parse_conflict_type, resolve_conflict, store_conflict, ConflictStore,
};
use korppi::{Conflict, ConflictStatus, ConflictType, ResolutionInput, TextSpan};

fn create_test_conflict(id: &str) -> Conflict {
    Conflict {
        id: id.to_string(),
        conflict_type: ConflictType::OverlappingEdit,
        base_version: TextSpan {
            start: 0,
            end: 5,
            content: "base".to_string(),
            author: "base".to_string(),
            timestamp: 1000,
        },
        local_version: TextSpan {
            start: 0,
            end: 6,
            content: "local".to_string(),
            author: "Alice".to_string(),
            timestamp: 2000,
        },
        remote_version: TextSpan {
            start: 0,
            end: 7,
            content: "remote".to_string(),
            author: "Bob".to_string(),
            timestamp: 3000,
        },
        status: ConflictStatus::Unresolved,
        detected_at: 4000,
    }
}

#[test]
fn test_store_conflict() {
    let mut store = ConflictStore::new();
    let conflict = create_test_conflict("test-1");

    let result = store_conflict(&mut store, &conflict);
    assert!(result.is_ok());

    // Verify stored
    assert_eq!(store.rows.len(), 1);
}

#[test]
fn test_get_unresolved_conflicts() {
    let mut store = ConflictStore::new();

    // Insert test conflict
    let conflict = create_test_conflict("test-2");
    store_conflict(&mut store, &conflict).unwrap();

    let unresolved = get_unresolved_conflicts(&store).unwrap();
    assert_eq!(unresolved.len(), 1);
    assert_eq!(unresolved[0].id, "test-2");
}

#[test]
fn test_resolve_conflict() {
    let mut store = ConflictStore::new();

    let conflict = create_test_conflict("test-3");
    store_conflict(&mut store, &conflict).unwrap();

    let resolution = ResolutionInput {
        conflict_id: "test-3".to_string(),
        resolution: ConflictStatus::ResolvedLocal,
        merged_content: Some("resolved content".to_string()),
    };

    resolve_conflict(&mut store, &resolution, 5000).unwrap();

    // Should no longer be unresolved
    let unresolved = get_unresolved_conflicts(&store).unwrap();
    assert_eq!(unresolved.len(), 0);
}

#[test]
fn test_parse_conflict_type() {
    assert!(matches!(
        parse_conflict_type("OverlappingEdit".to_string()),
        ConflictType::OverlappingEdit
    ));
    assert!(matches!(
        parse_conflict_type("DeleteModify".to_string()),
        ConflictType::DeleteModify
    ));
    assert!(matches!(
        parse_conflict_type("ConcurrentInsert".to_string()),
        ConflictType::ConcurrentInsert
    ));
    assert!(matches!(
        parse_conflict_type("StructuralConflict".to_string()),
        ConflictType::StructuralConflict
    ));
    assert!(matches!(
        parse_conflict_type("Unknown".to_string()),
        ConflictType::OverlappingEdit
    )); // default
}

#[test]
fn test_duplicate_conflict_ignored() {
    let mut store = ConflictStore::new();

    let conflict = create_test_conflict("dup-1");
    store_conflict(&mut store, &conflict).unwrap();

    // Insert again - should be ignored
    store_conflict(&mut store, &conflict).unwrap();

    assert_eq!(store.rows.len(), 1);
}

#[test]
fn test_store_twice_lists_once() {
    // Storing the same conflict twice leaves the unresolved listing
    // containing it exactly once.
    let mut store = ConflictStore::new();
    let conflict = create_test_conflict("once");
    store_conflict(&mut store, &conflict).unwrap();
    store_conflict(&mut store, &conflict).unwrap();

    let unresolved = get_unresolved_conflicts(&store).unwrap();
    let matching: Vec<_> = unresolved.iter().filter(|c| c.id == "once").collect();
    assert_eq!(matching.len(), 1);
    assert_eq!(matching[0].local_version.content, "local");
}

#[test]
fn test_unresolved_listed_newest_first() {
    let mut store = ConflictStore::new();
    let mut older = create_test_conflict("older");
    older.detected_at = 1000;
    let mut newer = create_test_conflict("newer");
    newer.detected_at = 9000;
    let mut middle = create_test_conflict("middle");
    middle.detected_at = 5000;
    store_conflict(&mut store, &older).unwrap();
    store_conflict(&mut store, &newer).unwrap();
    store_conflict(&mut store, &middle).unwrap();

    let unresolved = get_unresolved_conflicts(&store).unwrap();
    let ids: Vec<&str> = unresolved.iter().map(|c| c.id.as_str()).collect();
    assert_eq!(ids, vec!["newer", "middle", "older"]);
}

#[test]
fn test_unresolved_ties_keep_storage_order() {
    let mut store = ConflictStore::new();
    let mut first = create_test_conflict("first");
    first.detected_at = 4000;
    let mut second = create_test_conflict("second");
    second.detected_at = 4000;
    store_conflict(&mut store, &first).unwrap();
    store_conflict(&mut store, &second).unwrap();

    let unresolved = get_unresolved_conflicts(&store).unwrap();
    let ids: Vec<&str> = unresolved.iter().map(|c| c.id.as_str()).collect();
    assert_eq!(ids, vec!["first", "second"]);
}

#[test]
fn test_resolve_unknown_id_changes_nothing() {
    let mut store = ConflictStore::new();
    let conflict = create_test_conflict("kept");
    store_conflict(&mut store, &conflict).unwrap();

    let resolution = ResolutionInput {
        conflict_id: "no-such-id".to_string(),
        resolution: ConflictStatus::ResolvedMerged,
        merged_content: None,
    };
    // A resolution that matches no row is a soft failure: it still succeeds.
    assert!(resolve_conflict(&mut store, &resolution, 5000).is_ok());

    let unresolved = get_unresolved_conflicts(&store).unwrap();
    assert_eq!(unresolved.len(), 1);
}

#[test]
fn test_resolve_sets_resolution_columns() {
    let mut store = ConflictStore::new();
    let conflict = create_test_conflict("full");
    store_conflict(&mut store, &conflict).unwrap();

    let resolution = ResolutionInput {
        conflict_id: "full".to_string(),
        resolution: ConflictStatus::ResolvedMerged,
        merged_content: Some("merged text".to_string()),
    };
    resolve_conflict(&mut store, &resolution, 7777).unwrap();

    assert_eq!(store.rows.len(), 1);
    assert!(matches!(store.rows[0].conflict.status, ConflictStatus::ResolvedMerged));
    assert_eq!(store.rows[0].resolved_content.as_deref(), Some("merged text"));
    assert_eq!(store.rows[0].resolved_at, Some(7777));
}
