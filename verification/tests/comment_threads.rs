use korppi::{CommentInput, History};

fn comment_input(author: &str, content: &str) -> CommentInput {
    CommentInput {
        author: author.to_string(),
        author_color: Some("#ff0000".to_string()),
        start_anchor: "anchor_start".to_string(),
        end_anchor: "anchor_end".to_string(),
        selected_text: "selected".to_string(),
        content: content.to_string(),
        parent_id: None,
    }
}

#[test]
fn test_init_comments_table() {
    // A fresh history holds no comments and accepts listing them.
    let history = History::new();
    let comments = history.list_comments(None).unwrap();
    assert_eq!(comments.len(), 0);
}

#[test]
fn test_insert_comment() {
    let mut history = History::new();
    let id = history.add_comment(comment_input("TestUser", "Test comment"), 1000).unwrap();
    assert!(id > 0);
}

#[test]
fn test_comment_default_status() {
    let mut history = History::new();
    history.add_comment(comment_input("TestUser", "Test comment"), 1000).unwrap();

    let comments = history.list_comments(None).unwrap();
    assert_eq!(comments[0].status, "unresolved");
}

#[test]
fn test_resolve_comment() {
    let mut history = History::new();
    let id = history.add_comment(comment_input("TestUser", "Test comment"), 1000).unwrap();

    history.resolve_comment(id).unwrap();

    let comments = history.list_comments(None).unwrap();
    assert_eq!(comments[0].status, "resolved");
}

#[test]
fn test_mark_deleted() {
    let mut history = History::new();
    let id = history.add_comment(comment_input("TestUser", "Test comment"), 1000).unwrap();

    history.mark_comment_deleted(id).unwrap();

    let comments = history.list_comments(None).unwrap();
    assert_eq!(comments[0].status, "deleted");
}

#[test]
fn test_restore_comment() {
    let mut history = History::new();
    let id = history.add_comment(comment_input("TestUser", "Test comment"), 1000).unwrap();

    // Delete then restore
    history.mark_comment_deleted(id).unwrap();
    history.restore_comment(id).unwrap();

    let comments = history.list_comments(None).unwrap();
    assert_eq!(comments[0].status, "unresolved");
}

#[test]
fn test_comment_with_reply() {
    let mut history = History::new();
    let parent_id = history.add_comment(comment_input("Author1", "Parent comment"), 1000).unwrap();

    // Insert reply
    let reply_id = history
        .add_reply(
            parent_id,
            "Reply".to_string(),
            "Author2".to_string(),
            Some("#00ff00".to_string()),
            2000,
        )
        .unwrap();

    // Verify parent_id is set, and the anchors were inherited
    let comments = history.list_comments(None).unwrap();
    let reply = comments.iter().find(|c| c.id == reply_id).unwrap();
    assert_eq!(reply.parent_id, Some(parent_id));
    assert_eq!(reply.start_anchor, "anchor_start");
    assert_eq!(reply.end_anchor, "anchor_end");
    assert_eq!(reply.selected_text, "selected");
}

#[test]
fn test_delete_cascades_to_replies() {
    let mut history = History::new();
    let parent_id = history.add_comment(comment_input("Author1", "Parent"), 1000).unwrap();

    // Add reply
    history
        .add_reply(parent_id, "Reply".to_string(), "Author2".to_string(), None, 2000)
        .unwrap();

    // Mark parent as deleted (should cascade)
    history.mark_comment_deleted(parent_id).unwrap();

    // Both should be deleted
    let deleted = history.list_comments(Some("deleted".to_string())).unwrap();
    assert_eq!(deleted.len(), 2);
}

#[test]
fn test_reply_to_missing_parent_fails() {
    let mut history = History::new();
    let result = history.add_reply(99, "Reply".to_string(), "Author".to_string(), None, 1000);
    assert!(result.is_err());
    assert_eq!(history.list_comments(None).unwrap().len(), 0);
}

#[test]
fn test_invalid_status_filter_rejected() {
    let mut history = History::new();
    history.add_comment(comment_input("TestUser", "Test comment"), 1000).unwrap();
    assert!(history.list_comments(Some("archived".to_string())).is_err());
}

#[test]
fn test_hard_delete_removes_thread() {
    let mut history = History::new();
    let parent_id = history.add_comment(comment_input("Author1", "Parent"), 1000).unwrap();
    history
        .add_reply(parent_id, "Reply".to_string(), "Author2".to_string(), None, 2000)
        .unwrap();
    let other_id = history.add_comment(comment_input("Author3", "Unrelated"), 3000).unwrap();

    history.delete_comment(parent_id).unwrap();

    let comments = history.list_comments(None).unwrap();
    assert_eq!(comments.len(), 1);
    assert_eq!(comments[0].id, other_id);
}

#[test]
fn test_comments_listed_oldest_first() {
    let mut history = History::new();
    history.add_comment(comment_input("a", "late"), 3000).unwrap();
    history.add_comment(comment_input("b", "early"), 1000).unwrap();
    history.add_comment(comment_input("c", "middle"), 2000).unwrap();

    let comments = history.list_comments(None).unwrap();
    let contents: Vec<&str> = comments.iter().map(|c| c.content.as_str()).collect();
    assert_eq!(contents, vec!["early", "middle", "late"]);
}
