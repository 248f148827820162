use korppi::transplant::import_patches_from_document;
use korppi::{CommentInput, History, PatchData, PatchInput};

fn save_input(timestamp: i64, author: &str, uuid: Option<&str>, text: &str) -> PatchInput {
    PatchInput {
        timestamp,
        author: author.to_string(),
        kind: "Save".to_string(),
        data: PatchData::Snapshot(text.to_string()),
        uuid: uuid.map(|u| u.to_string()),
        parent_uuid: None,
    }
}

fn edit_input(timestamp: i64, author: &str, uuid: &str) -> PatchInput {
    PatchInput {
        timestamp,
        author: author.to_string(),
        kind: "semantic_group".to_string(),
        data: PatchData::Opaque,
        uuid: Some(uuid.to_string()),
        parent_uuid: None,
    }
}

#[test]
fn test_import_deduplication_by_uuid() {
    let mut source = History::new();
    source
        .record_patch(save_input(1000, "bob", Some("shared-uuid-1"), "content"), None)
        .unwrap();

    let mut target = History::new();
    target
        .record_patch(save_input(1000, "bob", Some("shared-uuid-1"), "content"), None)
        .unwrap();

    // Importing a patch whose uuid the target already holds stores nothing new.
    let imported = import_patches_from_document(&source, &mut target).unwrap();
    assert_eq!(imported.len(), 0);
    assert_eq!(target.list_patches().unwrap().len(), 1, "Should only have one patch with this UUID");
}

#[test]
fn test_import_twice_same_patch_count() {
    // Importing the same source history twice leaves the same total patch
    // count as importing it once.
    let mut source = History::new();
    source.record_patch(save_input(1000, "bob", Some("s-1"), "one"), None).unwrap();
    source.record_patch(save_input(2000, "bob", Some("s-2"), "two"), None).unwrap();
    source.record_patch(edit_input(1500, "bob", "s-edit"), None).unwrap();

    let mut target = History::new();
    target.record_patch(save_input(500, "alice", Some("t-1"), "mine"), None).unwrap();

    let first = import_patches_from_document(&source, &mut target).unwrap();
    assert_eq!(first.len(), 2, "only the Save patches come over");
    let count_after_once = target.list_patches().unwrap().len();
    assert_eq!(count_after_once, 3);

    let second = import_patches_from_document(&source, &mut target).unwrap();
    assert_eq!(second.len(), 0);
    let count_after_twice = target.list_patches().unwrap().len();
    assert_eq!(count_after_twice, count_after_once);
}

#[test]
fn test_import_orders_by_timestamp_and_relinks_snapshots() {
    let mut source = History::new();
    source.record_patch(save_input(5000, "bob", Some("late"), "late text"), None).unwrap();
    source.record_patch(save_input(1000, "bob", Some("early"), "early text"), None).unwrap();
    // A binary snapshot rides along with the early patch (source id 2).
    source.save_snapshot(2, vec![9, 9, 9], 1000).unwrap();

    let mut target = History::new();
    let imported = import_patches_from_document(&source, &mut target).unwrap();

    // Checkpoints arrive oldest first and get fresh local ids.
    assert_eq!(imported.len(), 2);
    assert_eq!(imported[0].uuid.as_deref(), Some("early"));
    assert_eq!(imported[0].id, 1);
    assert_eq!(imported[1].uuid.as_deref(), Some("late"));
    assert_eq!(imported[1].id, 2);

    // The snapshot was re-pointed at the new local id of its patch.
    let snap = target.get_snapshot_for_patch(1).unwrap().unwrap();
    assert_eq!(snap.patch_id, 1);
    assert_eq!(snap.state, vec![9, 9, 9]);
}

#[test]
fn test_import_merges_reviews() {
    let mut source = History::new();
    source.record_patch(save_input(1000, "bob", Some("p-1"), "x"), None).unwrap();
    source
        .record_patch_review(
            "p-1".to_string(),
            "alice".to_string(),
            "accepted".to_string(),
            Some("Alice".to_string()),
            2000,
        )
        .unwrap();

    let mut target = History::new();
    // The target holds an older decision by the same key; the import overwrites it.
    target
        .record_patch_review(
            "p-1".to_string(),
            "alice".to_string(),
            "rejected".to_string(),
            Some("Alice".to_string()),
            1000,
        )
        .unwrap();

    import_patches_from_document(&source, &mut target).unwrap();

    let reviews = target.get_patch_reviews("p-1".to_string()).unwrap();
    assert_eq!(reviews.len(), 1);
    assert_eq!(reviews[0].decision, "accepted");
    assert_eq!(reviews[0].reviewed_at, 2000);
}

#[test]
fn test_import_merges_comment_threads() {
    let mut source = History::new();
    let src_parent = source
        .add_comment(
            CommentInput {
                author: "bob".to_string(),
                author_color: None,
                start_anchor: "a".to_string(),
                end_anchor: "b".to_string(),
                selected_text: "s".to_string(),
                content: "Parent".to_string(),
                parent_id: None,
            },
            1000,
        )
        .unwrap();
    source
        .add_reply(src_parent, "Reply".to_string(), "carol".to_string(), None, 2000)
        .unwrap();

    let mut target = History::new();
    // The target already holds an equivalent parent (same timestamp, author,
    // content), under a different local id.
    target
        .add_comment(
            CommentInput {
                author: "dora".to_string(),
                author_color: None,
                start_anchor: "x".to_string(),
                end_anchor: "y".to_string(),
                selected_text: "t".to_string(),
                content: "Unrelated".to_string(),
                parent_id: None,
            },
            500,
        )
        .unwrap();
    let tgt_parent = target
        .add_comment(
            CommentInput {
                author: "bob".to_string(),
                author_color: None,
                start_anchor: "a".to_string(),
                end_anchor: "b".to_string(),
                selected_text: "s".to_string(),
                content: "Parent".to_string(),
                parent_id: None,
            },
            1000,
        )
        .unwrap();

    import_patches_from_document(&source, &mut target).unwrap();

    // The parent was deduplicated; the reply came over, re-parented onto the
    // target's copy of the parent.
    let comments = target.list_comments(None).unwrap();
    assert_eq!(comments.len(), 3);
    let reply = comments.iter().find(|c| c.content == "Reply").unwrap();
    assert_eq!(reply.parent_id, Some(tgt_parent));

    // Importing again adds nothing: the reply now matches its own copy.
    import_patches_from_document(&source, &mut target).unwrap();
    assert_eq!(target.list_comments(None).unwrap().len(), 3);
}
