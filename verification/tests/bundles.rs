use std::hash::{Hash, Hasher};

use korppi::patch_bundle::{
    calculate_state_hash, count_potential_conflicts, get_patches_count_since, get_patches_since,
    import_patches_to_history, last_sent_patch_id_for, note_received, note_sent,
    preview_patch_bundle,
};
use korppi::{
    AuthorInfo, DocumentSyncState, History, PatchBundle, PatchData, PatchEntry, PatchInput,
    UserProfile,
};

fn entry(id: i64, timestamp: i64, author: &str, kind: &str) -> PatchEntry {
    PatchEntry {
        id,
        timestamp,
        author: author.to_string(),
        kind: kind.to_string(),
        data: PatchData::Opaque,
    }
}

fn record(history: &mut History, timestamp: i64, author: &str, uuid: &str) {
    history
        .record_patch(
            PatchInput {
                timestamp,
                author: author.to_string(),
                kind: "semantic_group".to_string(),
                data: PatchData::Opaque,
                uuid: Some(uuid.to_string()),
                parent_uuid: None,
            },
            None,
        )
        .unwrap();
}

#[test]
fn test_calculate_state_hash() {
    let state1 = vec![1, 2, 3, 4, 5];
    let state2 = vec![1, 2, 3, 4, 5];
    let state3 = vec![5, 4, 3, 2, 1];

    let hash1 = calculate_state_hash(&state1);
    let hash2 = calculate_state_hash(&state2);
    let hash3 = calculate_state_hash(&state3);

    assert_eq!(hash1, hash2);
    assert_ne!(hash1, hash3);
    assert_eq!(hash1.len(), 16); // 64 bits = 16 hex chars
}

#[test]
fn test_calculate_state_hash_matches_default_hasher() {
    // The fingerprint is the default hasher's 64-bit digest, zero-padded hex.
    let state: Vec<u8> = vec![10, 20, 30];
    let mut hasher = std::collections::hash_map::DefaultHasher::new();
    state.hash(&mut hasher);
    let expected = format!("{:016x}", hasher.finish());
    assert_eq!(calculate_state_hash(&state), expected);
}

#[test]
fn test_count_potential_conflicts() {
    let local = vec![
        entry(1, 1000000, "alice", "insert_text"),
        entry(2, 1000100, "alice", "insert_text"),
    ];

    let incoming = vec![
        entry(1, 1000050, "bob", "insert_text"), // Within window of local patch 1
        entry(2, 2000000, "bob", "insert_text"), // Outside window
    ];

    let conflicts = count_potential_conflicts(&local, &incoming);
    assert_eq!(conflicts, 1); // Only the first incoming patch conflicts
}

#[test]
fn test_count_potential_conflicts_same_author() {
    let local = vec![entry(1, 1000000, "alice", "insert_text")];

    let incoming = vec![
        entry(1, 1000010, "alice", "insert_text"), // Within window but same author
    ];

    let conflicts = count_potential_conflicts(&local, &incoming);
    assert_eq!(conflicts, 0); // Same author, no conflict
}

#[test]
fn test_get_patches_since() {
    let mut history = History::new();
    record(&mut history, 1000, "alice", "u-1");
    record(&mut history, 2000, "alice", "u-2");
    record(&mut history, 3000, "alice", "u-3");

    let all = get_patches_since(&history, None);
    assert_eq!(all.len(), 3);

    let after_first = get_patches_since(&history, Some(1));
    assert_eq!(after_first.len(), 2);
    assert_eq!(after_first[0].id, 2);
    assert_eq!(after_first[1].id, 3);

    assert_eq!(get_patches_count_since(&history, None), 3);
    assert_eq!(get_patches_count_since(&history, Some(2)), 1);
    assert_eq!(get_patches_count_since(&history, Some(99)), 0);
}

#[test]
fn test_import_patches_to_history_deduplicates() {
    let mut history = History::new();
    record(&mut history, 1000, "alice", "u-1");

    let incoming = vec![
        entry(7, 1000, "alice", "semantic_group"), // same timestamp/author/kind: skipped
        entry(8, 2000, "bob", "semantic_group"),
        entry(9, 2000, "bob", "semantic_group"),   // duplicate of the previous: skipped
    ];

    let imported = import_patches_to_history(&mut history, &incoming).unwrap();
    assert_eq!(imported, 1);

    let patches = history.list_patches().unwrap();
    assert_eq!(patches.len(), 2);
    assert_eq!(patches[1].author, "bob");
    assert_eq!(patches[1].id, 2);
    assert!(patches[1].uuid.is_none());
}

#[test]
fn test_preview_patch_bundle() {
    let bundle = PatchBundle {
        id: "bundle-uuid".to_string(),
        document_id: "doc-uuid".to_string(),
        document_title: "Test Document".to_string(),
        author: AuthorInfo {
            id: "author-uuid".to_string(),
            name: "Alice".to_string(),
            email: Some("alice@example.com".to_string()),
        },
        created_at: 1700000000000,
        base_state_hash: "abc123".to_string(),
        patches: vec![
            entry(1, 1699999999000, "alice", "semantic_group"),
            entry(2, 1700000000000, "alice", "semantic_group"),
        ],
    };
    let local = vec![entry(1, 1699999999500, "bob", "semantic_group")];

    let preview = preview_patch_bundle(&bundle, &Some("doc-uuid".to_string()), &local);
    assert_eq!(preview.patch_count, 2);
    assert!(preview.is_same_document);
    assert_eq!(preview.date_range, Some((1699999999000, 1700000000000)));
    // Both bundled patches fall within the window of Bob's local patch.
    assert_eq!(preview.potential_conflicts, 2);
    assert_eq!(preview.author.name, "Alice");
    assert_eq!(preview.document_title, "Test Document");

    let preview = preview_patch_bundle(&bundle, &Some("other-doc".to_string()), &local);
    assert!(!preview.is_same_document);
    let preview = preview_patch_bundle(&bundle, &None, &local);
    assert!(!preview.is_same_document);
}

#[test]
fn test_preview_empty_bundle_has_no_date_range() {
    let bundle = PatchBundle {
        id: "b".to_string(),
        document_id: "d".to_string(),
        document_title: "t".to_string(),
        author: AuthorInfo { id: "a".to_string(), name: "A".to_string(), email: None },
        created_at: 0,
        base_state_hash: "h".to_string(),
        patches: vec![],
    };
    let preview = preview_patch_bundle(&bundle, &None, &vec![]);
    assert_eq!(preview.patch_count, 0);
    assert!(preview.date_range.is_none());
    assert_eq!(preview.potential_conflicts, 0);
}

#[test]
fn test_sync_state_notes() {
    let mut state = DocumentSyncState {
        document_id: "doc-1".to_string(),
        collaborators: vec![],
    };

    // A first send creates a record named after the collaborator id.
    note_sent(&mut state, "collab-1".to_string(), 1000, Some(42));
    assert_eq!(state.collaborators.len(), 1);
    assert_eq!(state.collaborators[0].collaborator_name, "collab-1");
    assert_eq!(state.collaborators[0].last_sent, Some(1000));
    assert_eq!(state.collaborators[0].last_sent_patch_id, Some(42));
    assert!(state.collaborators[0].last_received.is_none());

    // A receive from the same collaborator updates the same record.
    note_received(&mut state, "collab-1".to_string(), "Collab One".to_string(), 2000, Some(38));
    assert_eq!(state.collaborators.len(), 1);
    assert_eq!(state.collaborators[0].last_received, Some(2000));
    assert_eq!(state.collaborators[0].last_received_patch_id, Some(38));
    assert_eq!(state.collaborators[0].last_sent, Some(1000));

    // A receive from an unknown collaborator appends a record under their name.
    note_received(&mut state, "collab-2".to_string(), "Collab Two".to_string(), 3000, Some(7));
    assert_eq!(state.collaborators.len(), 2);
    assert_eq!(state.collaborators[1].collaborator_name, "Collab Two");

    // Lookups find the first record for the named collaborator.
    assert_eq!(last_sent_patch_id_for(&state, &Some("collab-1".to_string())), Some(42));
    assert_eq!(last_sent_patch_id_for(&state, &Some("collab-2".to_string())), None);
    assert_eq!(last_sent_patch_id_for(&state, &None), None);
}

#[test]
fn test_user_profile_default() {
    let profile = UserProfile::default();
    assert_eq!(profile.id.len(), 36);
    assert_eq!(profile.name, "");
    assert!(profile.email.is_none());
    assert!(profile.avatar_path.is_none());
    assert_eq!(profile.color, "#3498db");
}

#[test]
fn test_author_info_from_profile() {
    let mut profile = UserProfile::default();
    profile.name = "Alice".to_string();
    profile.email = Some("alice@example.com".to_string());
    let id = profile.id.clone();
    let author = AuthorInfo::from(profile);
    assert_eq!(author.id, id);
    assert_eq!(author.name, "Alice");
    assert_eq!(author.email.as_deref(), Some("alice@example.com"));
}
