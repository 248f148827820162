use korppi::history::sort_patches_asc;
use korppi::{History, OpRecord, PatchData, PatchInput};
use sha2::Digest;

fn input(timestamp: i64, author: &str, kind: &str, data: PatchData, uuid: Option<&str>) -> PatchInput {
    PatchInput {
        timestamp,
        author: author.to_string(),
        kind: kind.to_string(),
        data,
        uuid: uuid.map(|u| u.to_string()),
        parent_uuid: None,
    }
}

fn group_data() -> PatchData {
    PatchData::Ops(vec![OpRecord {
        kind: "insert_text".to_string(),
        at: Some(0),
        range_start: None,
        range_end: None,
        inserted_text: Some("Hello".to_string()),
        deleted_text: None,
    }])
}

#[test]
fn test_patch_log_basic_operations() {
    let mut history = History::new();

    let timestamp = 1234567890;
    let author = "test_user";
    let kind = "semantic_group";

    history
        .record_patch(input(timestamp, author, kind, group_data(), Some("u-1")), None)
        .unwrap();

    // Verify insertion
    let patches = history.list_patches().unwrap();
    assert_eq!(patches.len(), 1);

    // Verify data
    assert_eq!(patches[0].timestamp, timestamp);
    assert_eq!(patches[0].author, author);
    assert_eq!(patches[0].kind, kind);
    match &patches[0].data {
        PatchData::Ops(ops) => {
            assert_eq!(ops.len(), 1);
            assert_eq!(ops[0].kind, "insert_text");
        }
        _ => panic!("Expected an operations payload"),
    }
}

#[test]
fn test_patch_log_ordering() {
    let mut history = History::new();

    // Insert patches in non-chronological order
    for ts in [3000, 1000, 2000] {
        history
            .record_patch(input(ts, "user", "group", PatchData::Opaque, None), None)
            .unwrap();
    }

    // Listing follows id (insertion) order
    let patches = history.list_patches().unwrap();
    let timestamps: Vec<i64> = patches.iter().map(|p| p.timestamp).collect();
    assert_eq!(timestamps, vec![3000, 1000, 2000]);
    let ids: Vec<i64> = patches.iter().map(|p| p.id).collect();
    assert_eq!(ids, vec![1, 2, 3]);

    // Sorting by timestamp recovers chronological order
    let sorted = sort_patches_asc(patches);
    let sorted_timestamps: Vec<i64> = sorted.iter().map(|p| p.timestamp).collect();
    assert_eq!(sorted_timestamps, vec![1000, 2000, 3000]);
}

#[test]
fn test_json_data_integrity() {
    let mut history = History::new();

    // A payload with several operations, including one of an unknown kind
    let complex = PatchData::Ops(vec![
        OpRecord {
            kind: "insert_text".to_string(),
            at: Some(0),
            range_start: None,
            range_end: None,
            inserted_text: Some("Hello".to_string()),
            deleted_text: None,
        },
        OpRecord {
            kind: "delete_text".to_string(),
            at: None,
            range_start: Some(5),
            range_end: Some(10),
            inserted_text: None,
            deleted_text: None,
        },
        OpRecord {
            kind: "add_mark".to_string(),
            at: None,
            range_start: None,
            range_end: None,
            inserted_text: None,
            deleted_text: None,
        },
    ]);

    history
        .record_patch(input(12345, "user", "group", complex, None), None)
        .unwrap();

    // Verify the payload is stored and retrieved intact
    let patches = history.list_patches().unwrap();
    match &patches[0].data {
        PatchData::Ops(ops) => {
            assert_eq!(ops.len(), 3);
            assert_eq!(ops[0].kind, "insert_text");
            assert_eq!(ops[1].kind, "delete_text");
            assert_eq!(ops[2].kind, "add_mark");
        }
        _ => panic!("Expected an operations payload"),
    }
}

#[test]
fn test_uuid_generation_on_new_patch() {
    let mut history = History::new();

    let uuid = "11111111-2222-3333-4444-555555555555";
    let data = PatchData::Snapshot("test content".to_string());
    history
        .record_patch(input(1234567890, "test_user", "Save", data, Some(uuid)), None)
        .unwrap();

    // Verify patch was inserted with the supplied uuid
    let patch = history.get_patch(1).unwrap();
    assert_eq!(patch.uuid.as_deref(), Some(uuid));
}

#[test]
fn test_fresh_uuid_assigned_when_missing() {
    let mut history = History::new();
    let data = PatchData::Snapshot("content".to_string());
    let assigned = history
        .record_patch(input(1000, "test_user", "Save", data, None), None)
        .unwrap();

    assert_eq!(assigned.len(), 36);
    let patch = history.get_patch(1).unwrap();
    assert_eq!(patch.uuid.as_deref(), Some(assigned.as_str()));
}

#[test]
fn test_parent_uuid_linkage() {
    let mut history = History::new();

    // Insert parent patch
    let parent_uuid = "aaaaaaaa-0000-0000-0000-000000000001";
    history
        .record_patch(
            input(
                1000,
                "test_user",
                "Save",
                PatchData::Snapshot("parent content".to_string()),
                Some(parent_uuid),
            ),
            None,
        )
        .unwrap();

    // Insert child patch with parent_uuid
    let child_uuid = "aaaaaaaa-0000-0000-0000-000000000002";
    let mut child = input(
        2000,
        "test_user",
        "Save",
        PatchData::Snapshot("child content".to_string()),
        Some(child_uuid),
    );
    child.parent_uuid = Some(parent_uuid.to_string());
    history.record_patch(child, None).unwrap();

    // Verify parent linkage
    let stored_child = history.get_patch(2).unwrap();
    assert_eq!(stored_child.parent_uuid.as_deref(), Some(parent_uuid));
}

#[test]
fn test_duplicate_uuid_rejected() {
    let mut history = History::new();
    let uuid = "cccccccc-0000-0000-0000-000000000001";
    history
        .record_patch(input(1000, "bob", "Save", PatchData::Opaque, Some(uuid)), None)
        .unwrap();

    // A second patch under the same uuid is refused and stores nothing.
    let result =
        history.record_patch(input(2000, "bob", "Save", PatchData::Opaque, Some(uuid)), None);
    assert!(result.is_err());
    assert_eq!(history.list_patches().unwrap().len(), 1);
}

#[test]
fn test_get_patch_not_found() {
    let history = History::new();
    assert!(history.get_patch(17).is_err());
}

#[test]
fn test_save_and_fetch_snapshot() {
    let mut history = History::new();
    history
        .record_patch(input(1000, "alice", "Save", PatchData::Opaque, Some("u-1")), None)
        .unwrap();
    history
        .record_patch(input(2000, "alice", "Save", PatchData::Opaque, Some("u-2")), None)
        .unwrap();

    history.save_snapshot(1, vec![1, 2, 3], 1000).unwrap();
    history.save_snapshot(2, vec![4, 5, 6], 2000).unwrap();

    // The nearest snapshot at or before patch 1 is the first one.
    let snap = history.get_snapshot_for_patch(1).unwrap().unwrap();
    assert_eq!(snap.patch_id, 1);
    assert_eq!(snap.state, vec![1, 2, 3]);

    // At or before patch 2, the second wins.
    let snap = history.get_snapshot_for_patch(2).unwrap().unwrap();
    assert_eq!(snap.patch_id, 2);
    assert_eq!(snap.state, vec![4, 5, 6]);
}

#[test]
fn test_snapshot_validation() {
    let mut history = History::new();
    history
        .record_patch(input(1000, "alice", "Save", PatchData::Opaque, Some("u-1")), None)
        .unwrap();

    // Empty payloads are refused.
    assert!(history.save_snapshot(1, vec![], 1000).is_err());
    // A snapshot for a patch that does not exist is refused.
    assert!(history.save_snapshot(99, vec![1], 1000).is_err());
    // Nothing was stored.
    assert!(history.get_snapshot_for_patch(99).unwrap().is_none());
}

#[test]
fn test_restore_to_patch() {
    let mut history = History::new();
    history
        .record_patch(
            input(
                1000,
                "alice",
                "Save",
                PatchData::Snapshot("the checkpoint text".to_string()),
                Some("u-1"),
            ),
            None,
        )
        .unwrap();
    history
        .record_patch(input(2000, "alice", "semantic_group", group_data(), Some("u-2")), None)
        .unwrap();

    // A Save patch surfaces its embedded checkpoint text.
    let restored = history.restore_to_patch(1).unwrap();
    assert_eq!(restored.patch_id, 1);
    assert_eq!(restored.snapshot_content.as_deref(), Some("the checkpoint text"));

    // A patch without one reports no content; so does a missing patch.
    let restored = history.restore_to_patch(2).unwrap();
    assert!(restored.snapshot_content.is_none());
    let restored = history.restore_to_patch(42).unwrap();
    assert!(restored.snapshot_content.is_none());
}

#[test]
fn test_generate_patch_uid_matches_digest() {
    // The identity is the first 16 hex digits of the SHA-256 digest of
    // "author|timestamp|<checkpoint text>".
    let data = PatchData::Snapshot("snapshot body".to_string());
    let uid = korppi::history::generate_patch_uid("alice", 1234, &data);

    let mut preimage: Vec<u8> = Vec::new();
    preimage.extend_from_slice(b"alice|1234|");
    preimage.extend_from_slice(b"snapshot body");
    let digest = sha2::Sha256::digest(&preimage);
    let expected: String = digest.iter().map(|b| format!("{:02x}", b)).collect::<String>()
        [..16]
        .to_string();

    assert_eq!(uid, expected);
    assert_eq!(uid.len(), 16);
}

#[test]
fn test_generate_patch_uid_deterministic() {
    let data = PatchData::Snapshot("same".to_string());
    let a = korppi::history::generate_patch_uid("alice", 1, &data);
    let b = korppi::history::generate_patch_uid("alice", 1, &PatchData::Snapshot("same".to_string()));
    let c = korppi::history::generate_patch_uid("alice", 2, &PatchData::Snapshot("same".to_string()));
    assert_eq!(a, b);
    assert_ne!(a, c);
}
