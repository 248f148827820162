use korppi::conflict_detector::ConflictDetector;
use korppi::{ConflictType, OpRecord, Patch, PatchData};

fn insert_op(at: usize, inserted: &str) -> OpRecord {
    OpRecord {
        kind: "insert_text".to_string(),
        at: Some(at),
        range_start: None,
        range_end: None,
        inserted_text: Some(inserted.to_string()),
        deleted_text: None,
    }
}

fn delete_op(start: usize, end: usize, deleted: &str) -> OpRecord {
    OpRecord {
        kind: "delete_text".to_string(),
        at: None,
        range_start: Some(start),
        range_end: Some(end),
        inserted_text: None,
        deleted_text: Some(deleted.to_string()),
    }
}

fn replace_op(start: usize, end: usize, deleted: &str, inserted: &str) -> OpRecord {
    OpRecord {
        kind: "replace_text".to_string(),
        at: None,
        range_start: Some(start),
        range_end: Some(end),
        inserted_text: Some(inserted.to_string()),
        deleted_text: Some(deleted.to_string()),
    }
}

fn patch(id: i64, timestamp: i64, author: &str, ops: Vec<OpRecord>, uuid: &str) -> Patch {
    Patch {
        id,
        timestamp,
        author: author.to_string(),
        kind: "semantic_group".to_string(),
        data: PatchData::Ops(ops),
        uuid: Some(uuid.to_string()),
        parent_uuid: None,
    }
}

#[test]
fn test_overlapping_edit_detection() {
    let detector = ConflictDetector::new(5000);

    let patches = vec![
        patch(
            1,
            1000,
            "alice",
            vec![replace_op(10, 20, "old text", "alice's edit")],
            "uuid-1",
        ),
        patch(
            2,
            1500, // Within 5s window
            "bob",
            vec![replace_op(15, 25, "xt here", "bob's edit")],
            "uuid-2",
        ),
    ];

    let conflicts = detector.detect_conflicts(&patches);

    assert_eq!(conflicts.len(), 1);
    assert_eq!(conflicts[0].local_version.author, "alice");
    assert_eq!(conflicts[0].remote_version.author, "bob");
}

#[test]
fn test_no_conflict_different_regions() {
    let detector = ConflictDetector::new(5000);

    let patches = vec![
        patch(1, 1000, "alice", vec![insert_op(10, "hello")], "uuid-1"),
        patch(2, 1500, "bob", vec![insert_op(100, "world")], "uuid-2"),
    ];

    let conflicts = detector.detect_conflicts(&patches);

    assert_eq!(conflicts.len(), 0);
}

#[test]
fn test_concurrent_insert_same_position() {
    let detector = ConflictDetector::new(5000);

    let patches = vec![
        patch(1, 1000, "alice", vec![insert_op(50, "alice first")], "uuid-1"),
        patch(2, 1200, "bob", vec![insert_op(50, "bob first")], "uuid-2"),
    ];

    let conflicts = detector.detect_conflicts(&patches);

    assert_eq!(conflicts.len(), 1);
    match conflicts[0].conflict_type {
        ConflictType::ConcurrentInsert => {}
        _ => panic!("Expected ConcurrentInsert conflict type"),
    }
}

#[test]
fn test_empty_patches_no_conflict() {
    let detector = ConflictDetector::new(5000);
    let patches: Vec<Patch> = vec![];
    let conflicts = detector.detect_conflicts(&patches);
    assert_eq!(conflicts.len(), 0, "Empty patch list should have no conflicts");
}

#[test]
fn test_single_patch_no_conflict() {
    let detector = ConflictDetector::new(5000);
    let patches = vec![patch(1, 1000, "alice", vec![insert_op(10, "hello")], "uuid-1")];
    let conflicts = detector.detect_conflicts(&patches);
    assert_eq!(conflicts.len(), 0, "Single patch should have no conflicts");
}

#[test]
fn test_same_author_no_conflict() {
    let detector = ConflictDetector::new(5000);

    // Same author making overlapping edits within time window - should NOT conflict
    let patches = vec![
        patch(
            1,
            1000,
            "alice",
            vec![replace_op(10, 20, "old text", "first edit")],
            "uuid-1",
        ),
        patch(
            2,
            1500,
            "alice", // Same author
            vec![replace_op(15, 25, "some text", "second edit")],
            "uuid-2",
        ),
    ];

    let conflicts = detector.detect_conflicts(&patches);
    assert_eq!(conflicts.len(), 0, "Same author edits should not conflict");
}

#[test]
fn test_outside_time_window_no_conflict() {
    let detector = ConflictDetector::new(5000); // 5 second window

    // Different authors editing same region but far apart in time
    let patches = vec![
        patch(
            1,
            1000,
            "alice",
            vec![replace_op(10, 20, "old text", "alice's edit")],
            "uuid-1",
        ),
        patch(
            2,
            10000, // 9 seconds later - outside 5s window
            "bob",
            vec![replace_op(15, 25, "xt here", "bob's edit")],
            "uuid-2",
        ),
    ];

    let conflicts = detector.detect_conflicts(&patches);
    assert_eq!(conflicts.len(), 0, "Patches outside time window should not conflict");
}

#[test]
fn test_delete_modify_conflict() {
    let detector = ConflictDetector::new(5000);

    let patches = vec![
        patch(1, 1000, "alice", vec![delete_op(10, 30, "text to be deleted")], "uuid-1"),
        patch(
            2,
            1500,
            "bob",
            vec![replace_op(15, 25, "old", "modified")],
            "uuid-2",
        ),
    ];

    let conflicts = detector.detect_conflicts(&patches);

    assert_eq!(conflicts.len(), 1, "Delete and modify in same region should conflict");
    match conflicts[0].conflict_type {
        ConflictType::DeleteModify => {}
        _ => panic!("Expected DeleteModify conflict type, got {:?}", conflicts[0].conflict_type),
    }
}

#[test]
fn test_window_chains_across_middle_patch() {
    // Patches at 0, 4000 and 8000 with a 5000 ms window form ONE group,
    // because each step stays within the window of the previous patch, even
    // though the first and last are 8000 ms apart.
    let detector = ConflictDetector::new(5000);

    let patches = vec![
        patch(1, 0, "alice", vec![replace_op(0, 10, "a", "alice's edit")], "uuid-1"),
        patch(2, 4000, "carol", vec![replace_op(50, 60, "c", "carol's edit")], "uuid-2"),
        patch(3, 8000, "bob", vec![replace_op(0, 10, "b", "bob's edit")], "uuid-3"),
    ];

    let conflicts = detector.detect_conflicts(&patches);

    // Alice's and Bob's edits overlap and end up in the same chained group.
    assert_eq!(conflicts.len(), 1);
    assert_eq!(conflicts[0].local_version.author, "alice");
    assert_eq!(conflicts[0].remote_version.author, "bob");
}

#[test]
fn test_window_break_splits_groups() {
    // With the same patches but a shorter window, the chain breaks and the
    // overlapping edits land in different groups: no conflict.
    let detector = ConflictDetector::new(3000);

    let patches = vec![
        patch(1, 0, "alice", vec![replace_op(0, 10, "a", "alice's edit")], "uuid-1"),
        patch(2, 4000, "carol", vec![replace_op(50, 60, "c", "carol's edit")], "uuid-2"),
        patch(3, 8000, "bob", vec![replace_op(0, 10, "b", "bob's edit")], "uuid-3"),
    ];

    let conflicts = detector.detect_conflicts(&patches);
    assert_eq!(conflicts.len(), 0);
}

#[test]
fn test_classification_concurrent_insert() {
    // Insert@10 by A and Insert@10 by B classify as ConcurrentInsert.
    let detector = ConflictDetector::new(5000);
    let patches = vec![
        patch(1, 1000, "a", vec![insert_op(10, "x")], "u1"),
        patch(2, 1100, "b", vec![insert_op(10, "y")], "u2"),
    ];
    let conflicts = detector.detect_conflicts(&patches);
    assert_eq!(conflicts.len(), 1);
    assert!(matches!(conflicts[0].conflict_type, ConflictType::ConcurrentInsert));
}

#[test]
fn test_classification_delete_modify() {
    // Delete[5,15] by A and Replace[8,12] by B classify as DeleteModify.
    let detector = ConflictDetector::new(5000);
    let patches = vec![
        patch(1, 1000, "a", vec![delete_op(5, 15, "gone")], "u1"),
        patch(2, 1100, "b", vec![replace_op(8, 12, "old", "new")], "u2"),
    ];
    let conflicts = detector.detect_conflicts(&patches);
    assert_eq!(conflicts.len(), 1);
    assert!(matches!(conflicts[0].conflict_type, ConflictType::DeleteModify));
}

#[test]
fn test_classification_overlapping_edit() {
    // Replace[0,5] by A and Replace[3,8] by B classify as OverlappingEdit.
    let detector = ConflictDetector::new(5000);
    let patches = vec![
        patch(1, 1000, "a", vec![replace_op(0, 5, "aa", "bb")], "u1"),
        patch(2, 1100, "b", vec![replace_op(3, 8, "cc", "dd")], "u2"),
    ];
    let conflicts = detector.detect_conflicts(&patches);
    assert_eq!(conflicts.len(), 1);
    assert!(matches!(conflicts[0].conflict_type, ConflictType::OverlappingEdit));
}

#[test]
fn test_touching_ranges_do_not_conflict() {
    // Ranges [0,5) and [5,10) touch but do not overlap: no conflict.
    let detector = ConflictDetector::new(5000);
    let patches = vec![
        patch(1, 1000, "a", vec![replace_op(0, 5, "aa", "bb")], "u1"),
        patch(2, 1100, "b", vec![replace_op(5, 10, "cc", "dd")], "u2"),
    ];
    let conflicts = detector.detect_conflicts(&patches);
    assert_eq!(conflicts.len(), 0);
}

#[test]
fn test_conflict_record_contents() {
    // The emitted conflict carries the exact id, spans, contents and base
    // region the two edits describe.
    let detector = ConflictDetector::new(5000);
    let patches = vec![
        patch(1, 1000, "alice", vec![replace_op(10, 20, "old", "mine")], "u1"),
        patch(2, 1500, "bob", vec![replace_op(15, 25, "xt", "yours")], "u2"),
    ];
    let conflicts = detector.detect_conflicts(&patches);
    assert_eq!(conflicts.len(), 1);
    let c = &conflicts[0];
    assert_eq!(c.id, "1000-1500-10");
    assert_eq!(c.local_version.start, 10);
    assert_eq!(c.local_version.end, 20);
    assert_eq!(c.local_version.content, "mine");
    assert_eq!(c.local_version.timestamp, 1000);
    assert_eq!(c.remote_version.start, 15);
    assert_eq!(c.remote_version.end, 25);
    assert_eq!(c.remote_version.content, "yours");
    assert_eq!(c.remote_version.timestamp, 1500);
    assert_eq!(c.base_version.start, 10);
    assert_eq!(c.base_version.end, 25);
    assert_eq!(c.base_version.content, "");
    assert_eq!(c.base_version.author, "base");
}

#[test]
fn test_malformed_operations_skipped() {
    // Records with missing fields or unknown tags contribute no edits.
    let detector = ConflictDetector::new(5000);
    let no_position = OpRecord {
        kind: "insert_text".to_string(),
        at: None,
        range_start: None,
        range_end: None,
        inserted_text: Some("x".to_string()),
        deleted_text: None,
    };
    let unknown = OpRecord {
        kind: "add_mark".to_string(),
        at: None,
        range_start: None,
        range_end: None,
        inserted_text: None,
        deleted_text: None,
    };
    let patches = vec![
        patch(1, 1000, "alice", vec![no_position, insert_op(10, "x")], "u1"),
        patch(2, 1100, "bob", vec![unknown, insert_op(10, "y")], "u2"),
    ];
    let conflicts = detector.detect_conflicts(&patches);
    // Only the two well-formed inserts clash.
    assert_eq!(conflicts.len(), 1);
}
