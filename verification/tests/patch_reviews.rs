use korppi::{History, PatchData, PatchInput};

fn save_input(timestamp: i64, author: &str, uuid: &str) -> PatchInput {
    PatchInput {
        timestamp,
        author: author.to_string(),
        kind: "Save".to_string(),
        data: PatchData::Snapshot("content".to_string()),
        uuid: Some(uuid.to_string()),
        parent_uuid: None,
    }
}

#[test]
fn test_patch_review_recording() {
    let mut history = History::new();

    let patch_uuid = "dddddddd-0000-0000-0000-000000000001";
    let reviewer_id = "reviewer1";
    let decision = "accepted";
    let reviewer_name = "Rae Jones";
    let reviewed_at = 1234567890;

    history
        .record_patch_review(
            patch_uuid.to_string(),
            reviewer_id.to_string(),
            decision.to_string(),
            Some(reviewer_name.to_string()),
            reviewed_at,
        )
        .unwrap();

    // Verify the row was stored
    let reviews = history.get_patch_reviews(patch_uuid.to_string()).unwrap();
    assert_eq!(reviews.len(), 1);

    // Verify its details
    assert_eq!(reviews[0].decision, decision);
    assert_eq!(reviews[0].reviewer_name.as_deref(), Some(reviewer_name));
}

#[test]
fn test_multiple_reviews_per_reviewer_ordered() {
    let mut history = History::new();

    let patch_uuid = "dddddddd-0000-0000-0000-000000000002";
    let reviewer_id = "reviewer1";

    // First decision, rejecting
    history
        .record_patch_review(
            patch_uuid.to_string(),
            reviewer_id.to_string(),
            "rejected".to_string(),
            Some("Rae Jones".to_string()),
            1000,
        )
        .unwrap();

    // A second decision under the same key replaces the first
    history
        .record_patch_review(
            patch_uuid.to_string(),
            reviewer_id.to_string(),
            "accepted".to_string(),
            Some("Rae Jones".to_string()),
            2000,
        )
        .unwrap();

    // Verify only one row exists (the latest)
    let reviews = history.get_patch_reviews(patch_uuid.to_string()).unwrap();
    assert_eq!(reviews.len(), 1);

    // Verify it is the latest decision
    assert_eq!(reviews[0].decision, "accepted");
    assert_eq!(reviews[0].reviewed_at, 2000);
}

#[test]
fn test_needs_my_review_query() {
    let mut history = History::new();

    let current_user = "alice";

    let bob_patch_uuid = "eeeeeeee-0000-0000-0000-00000000000b";
    let charlie_patch_uuid = "eeeeeeee-0000-0000-0000-00000000000c";
    let alice_patch_uuid = "eeeeeeee-0000-0000-0000-00000000000a";

    // Bob's patch (needs Alice's decision)
    history.record_patch(save_input(1000, "bob", bob_patch_uuid), None).unwrap();
    // Charlie's patch (Alice already decided)
    history.record_patch(save_input(2000, "charlie", charlie_patch_uuid), None).unwrap();
    // Alice's own patch (never in her own listing)
    history.record_patch(save_input(3000, current_user, alice_patch_uuid), None).unwrap();

    // Alice already decided on Charlie's patch
    history
        .record_patch_review(
            charlie_patch_uuid.to_string(),
            current_user.to_string(),
            "accepted".to_string(),
            Some("Alice".to_string()),
            2500,
        )
        .unwrap();

    // Query patches pending Alice's decision
    let pending = history.get_patches_needing_review(current_user.to_string()).unwrap();

    // Should only return Bob's patch
    assert_eq!(pending.len(), 1);
    assert_eq!(pending[0].uuid.as_deref(), Some(bob_patch_uuid));
}

#[test]
fn test_needs_review_oldest_first() {
    let mut history = History::new();
    history.record_patch(save_input(3000, "bob", "u-late"), None).unwrap();
    history.record_patch(save_input(1000, "carol", "u-early"), None).unwrap();
    history.record_patch(save_input(2000, "dan", "u-middle"), None).unwrap();

    let pending = history.get_patches_needing_review("alice".to_string()).unwrap();
    let uuids: Vec<&str> = pending.iter().map(|p| p.uuid.as_deref().unwrap()).collect();
    assert_eq!(uuids, vec!["u-early", "u-middle", "u-late"]);
}

#[test]
fn test_invalid_decision_rejected() {
    let mut history = History::new();
    history.record_patch(save_input(1000, "bob", "u-1"), None).unwrap();

    // A decision other than "accepted" or "rejected" fails...
    let result = history.record_patch_review(
        "u-1".to_string(),
        "alice".to_string(),
        "maybe".to_string(),
        None,
        2000,
    );
    assert!(result.is_err());

    // ...and persists no row.
    let reviews = history.get_patch_reviews("u-1".to_string()).unwrap();
    assert_eq!(reviews.len(), 0);
}

#[test]
fn test_reviews_listed_newest_first() {
    let mut history = History::new();
    let uuid = "ffffffff-0000-0000-0000-000000000001";
    for (who, when) in [("r1", 1000), ("r2", 3000), ("r3", 2000)] {
        history
            .record_patch_review(
                uuid.to_string(),
                who.to_string(),
                "accepted".to_string(),
                None,
                when,
            )
            .unwrap();
    }
    let reviews = history.get_patch_reviews(uuid.to_string()).unwrap();
    let order: Vec<(&str, i64)> =
        reviews.iter().map(|r| (r.reviewer_id.as_str(), r.reviewed_at)).collect();
    assert_eq!(order, vec![("r2", 3000), ("r3", 2000), ("r1", 1000)]);
}

#[test]
fn test_parent_status_no_parent() {
    let mut history = History::new();
    history.record_patch(save_input(1000, "bob", "root-patch"), None).unwrap();

    let status = history
        .check_parent_patch_status("root-patch".to_string(), "alice".to_string())
        .unwrap();
    assert!(!status.has_parent);
    assert!(status.parent_uuid.is_none());
    assert!(!status.parent_rejected);
    assert!(status.rejected_by_name.is_none());
}

#[test]
fn test_parent_status_rejected_parent() {
    let mut history = History::new();
    history.record_patch(save_input(1000, "bob", "parent-1"), None).unwrap();
    let mut child = save_input(2000, "bob", "child-1");
    child.parent_uuid = Some("parent-1".to_string());
    history.record_patch(child, None).unwrap();

    // Alice rejected the parent.
    history
        .record_patch_review(
            "parent-1".to_string(),
            "alice".to_string(),
            "rejected".to_string(),
            Some("Alice A.".to_string()),
            3000,
        )
        .unwrap();

    let status = history
        .check_parent_patch_status("child-1".to_string(), "alice".to_string())
        .unwrap();
    assert!(status.has_parent);
    assert_eq!(status.parent_uuid.as_deref(), Some("parent-1"));
    assert!(status.parent_rejected);
    assert_eq!(status.rejected_by_name.as_deref(), Some("Alice A."));

    // A different onlooker did not reject it.
    let status = history
        .check_parent_patch_status("child-1".to_string(), "dave".to_string())
        .unwrap();
    assert!(status.has_parent);
    assert!(!status.parent_rejected);
    assert!(status.rejected_by_name.is_none());
}

#[test]
fn test_parent_status_accepted_parent() {
    let mut history = History::new();
    history.record_patch(save_input(1000, "bob", "parent-2"), None).unwrap();
    let mut child = save_input(2000, "bob", "child-2");
    child.parent_uuid = Some("parent-2".to_string());
    history.record_patch(child, None).unwrap();

    history
        .record_patch_review(
            "parent-2".to_string(),
            "alice".to_string(),
            "accepted".to_string(),
            Some("Alice A.".to_string()),
            3000,
        )
        .unwrap();

    let status = history
        .check_parent_patch_status("child-2".to_string(), "alice".to_string())
        .unwrap();
    assert!(status.has_parent);
    assert!(!status.parent_rejected);
    assert!(status.rejected_by_name.is_none());
}
