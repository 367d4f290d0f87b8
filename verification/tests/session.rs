use rpi::error::{IoErrorKind, PiError};
use rpi::json_stream::parse_json_with_repair;
use rpi::session::{ContextMessage, Session, SessionEntry, Timestamp};
use rpi::session_store::{
    is_session_id, list_sessions, load_session, read_legacy_line, session_lines, session_text,
    summarize_session, text_preview, LineContent, SessionManager,
};
use rpi::types::{Message, MessageContent, Role};

fn user_msg(text: &str) -> Message {
    Message {
        role: Role::User,
        content: Some(MessageContent::Text(text.to_string())),
        tool_calls: None,
        tool_call_id: None,
        name: None,
    }
}

fn assistant_msg(text: &str) -> Message {
    Message {
        role: Role::Assistant,
        content: Some(MessageContent::Text(text.to_string())),
        tool_calls: None,
        tool_call_id: None,
        name: None,
    }
}

fn text_of(msg: &Message) -> &str {
    match &msg.content {
        Some(MessageContent::Text(t)) => t.as_str(),
        _ => panic!("Expected text content"),
    }
}

fn reload(session: Session) -> Result<Session, PiError> {
    let lines = session.entries.into_iter().map(LineContent::Entry).collect();
    load_session(&session.session_id, lines, "unused".to_string())
}

fn legacy(text: &str, id: &str, message: Option<Message>) -> LineContent {
    let value = parse_json_with_repair(text).ok();
    let created_at = match value.as_ref().and_then(|v| v.get("created_at")) {
        Some(_) => Ok(Timestamp { seconds: 1_704_067_200, nanos: 0 }),
        None => Err("missing field".to_string()),
    };
    let message = message.ok_or("missing field".to_string());
    read_legacy_line(text, created_at, message, id.to_string())
}

#[test]
fn test_session_new() {
    let session = Session::new("openai/gpt-4o");
    assert!(!session.session_id.is_empty());
    assert_eq!(session.model, "openai/gpt-4o");
    assert_eq!(session.entries.len(), 2);
    assert!(!session.leaf_id.is_empty());

    assert!(matches!(session.entries[0], SessionEntry::Meta { .. }));
    assert!(matches!(session.entries[1], SessionEntry::Leaf { .. }));
}

#[test]
fn test_session_entry_helpers() {
    let session = Session::new("test-model");
    let meta = &session.entries[0];
    assert_eq!(meta.id(), session.session_id);
    assert!(meta.parent_id().is_none());

    let leaf = &session.entries[1];
    assert_eq!(leaf.id(), session.leaf_id);
    assert!(leaf.parent_id().is_none());
    assert_eq!(leaf.parent_id(), None);
}

#[test]
fn test_append_message() {
    let mut session = Session::new("openai/gpt-4o");
    let initial_len = session.entries.len();

    session.append_message(user_msg("test"));
    assert_eq!(session.entries.len(), initial_len + 2);

    let msg_entry = &session.entries[2];
    assert!(matches!(msg_entry, SessionEntry::Message { .. }));
    assert_eq!(msg_entry.parent_id().unwrap(), session.session_id.as_str());

    let new_leaf = &session.entries[3];
    assert!(matches!(new_leaf, SessionEntry::Leaf { .. }));
    if let SessionEntry::Leaf { target_id, .. } = new_leaf {
        assert_eq!(target_id, msg_entry.id());
    }
}

#[test]
fn test_append_compaction() {
    let mut session = Session::new("openai/gpt-4o");
    session.append_message(user_msg("msg1"));
    let first_kept = session.append_message(assistant_msg("msg2"));
    session.append_compaction(
        "Summary of old messages".to_string(),
        first_kept.clone(),
        500,
    );

    let has_compaction = session
        .entries
        .iter()
        .any(|e| matches!(e, SessionEntry::Compaction { .. }));
    assert!(has_compaction);
}

#[test]
fn test_build_context_simple() {
    let mut session = Session::new("openai/gpt-4o");
    session.append_message(user_msg("hello"));
    session.append_message(assistant_msg("hi"));

    let context = session.build_context();
    assert_eq!(context.len(), 2);
    assert_eq!(context[0].role, Role::User);
    assert_eq!(context[1].role, Role::Assistant);
}

#[test]
fn test_build_context_with_compaction() {
    let mut session = Session::new("openai/gpt-4o");
    session.append_message(user_msg("old message 1"));
    session.append_message(assistant_msg("old reply 1"));
    let first_kept = session.append_message(user_msg("new message"));
    session.append_compaction("Summary of old conversation".to_string(), first_kept, 200);
    session.append_message(assistant_msg("new reply"));

    let context = session.build_context();
    assert_eq!(context.len(), 3);
    assert_eq!(context[0].role, Role::User);
    let summary_text = match &context[0].content {
        Some(MessageContent::Text(t)) => t.clone(),
        _ => panic!("Expected text content"),
    };
    assert!(summary_text.contains("<summary>"));
    assert!(summary_text.contains("Summary of old conversation"));
    assert_eq!(context[1].role, Role::User);
    assert_eq!(context[2].role, Role::Assistant);
}

#[test]
fn test_session_entry_parent_chain() {
    let mut session = Session::new("openai/gpt-4o");
    let msg1_id = session.append_message(user_msg("first"));
    let msg2_id = session.append_message(assistant_msg("second"));

    let msg2 = session.entries.iter().find(|e| e.id() == msg2_id).unwrap();
    assert_eq!(msg2.parent_id().unwrap(), msg1_id.as_str());

    let msg1 = session.entries.iter().find(|e| e.id() == msg1_id).unwrap();
    assert_eq!(msg1.parent_id().unwrap(), session.session_id.as_str());
}

#[test]
fn test_compaction_summary_format_consistency() {
    let mut session = Session::new("test-model");
    session.append_message(user_msg("old message"));
    let first_kept = session.append_message(user_msg("new message"));
    session.append_compaction("Test summary content".to_string(), first_kept, 100);

    let context = session.build_context();
    assert_eq!(context.len(), 2);

    let summary_msg = &context[0];
    assert_eq!(summary_msg.role, Role::User);
    let text = match &summary_msg.content {
        Some(MessageContent::Text(t)) => t.clone(),
        _ => panic!("Expected text content"),
    };
    assert!(text.contains("<summary>"), "Should contain <summary> tag");
    assert!(text.contains("</summary>"), "Should contain </summary> tag");
    assert!(
        text.contains("Test summary content"),
        "Should contain summary text"
    );
}

#[test]
fn test_build_context_with_entry_ids_abandoned_branch_compaction() {
    let mut session = Session::new("openai/gpt-4o");

    let _e0 = session.append_message(user_msg("msg 0"));
    let e1 = session.append_message(assistant_msg("msg 1"));

    session.append_compaction("Old summary".to_string(), e1.clone(), 100);
    session.append_message(user_msg("msg 2 after compaction"));

    let context = session.build_context_with_entry_ids();
    let summary_count = context.iter().filter(|cm| cm.entry_id.is_none()).count();
    assert_eq!(summary_count, 1, "Expected exactly one summary message");
}

#[test]
fn test_build_context_with_entry_ids_plain_session() {
    let mut session = Session::new("openai/gpt-4o");
    let id0 = session.append_message(user_msg("hello"));
    let id1 = session.append_message(assistant_msg("hi there"));
    let id2 = session.append_message(user_msg("how are you"));

    let context = session.build_context_with_entry_ids();
    assert_eq!(context.len(), 3);

    for (i, cm) in context.iter().enumerate() {
        assert!(
            cm.entry_id.is_some(),
            "Message {i} should have Some(entry_id)"
        );
    }

    assert_eq!(context[0].entry_id, Some(id0));
    assert_eq!(context[1].entry_id, Some(id1));
    assert_eq!(context[2].entry_id, Some(id2));

    assert_eq!(text_of(&context[0].message), "hello");
    assert_eq!(text_of(&context[1].message), "hi there");
    assert_eq!(text_of(&context[2].message), "how are you");
}

#[test]
fn test_build_context_with_entry_ids_compacted_session() {
    let mut session = Session::new("openai/gpt-4o");
    session.append_message(user_msg("old message"));
    let first_kept_id = session.append_message(assistant_msg("old reply"));
    session.append_compaction(
        "Summary of old conversation".to_string(),
        first_kept_id.clone(),
        1000,
    );
    let id_new1 = session.append_message(user_msg("new message"));
    let id_new2 = session.append_message(assistant_msg("new reply"));

    let context = session.build_context_with_entry_ids();
    assert_eq!(context.len(), 4, "Expected summary + 3 kept messages");

    assert!(
        context[0].entry_id.is_none(),
        "Summary message should have None entry_id"
    );
    let summary_text = match &context[0].message.content {
        Some(MessageContent::Text(t)) => t.clone(),
        _ => panic!("Expected text content"),
    };
    assert!(summary_text.contains("Summary of old conversation"));

    assert_eq!(context[1].entry_id, Some(first_kept_id));
    assert_eq!(context[2].entry_id, Some(id_new1));
    assert_eq!(context[3].entry_id, Some(id_new2));
}

#[test]
fn test_build_context_with_entry_ids_duplicate_content() {
    let mut session = Session::new("openai/gpt-4o");
    let id0 = session.append_message(user_msg("same text"));
    let id1 = session.append_message(assistant_msg("same text"));

    let context = session.build_context_with_entry_ids();
    assert_eq!(context.len(), 2);

    let id_a = context[0].entry_id.as_ref().unwrap();
    let id_b = context[1].entry_id.as_ref().unwrap();
    assert_ne!(
        id_a, id_b,
        "Duplicate-content messages must have different entry IDs"
    );
    assert_eq!(context[0].entry_id, Some(id0));
    assert_eq!(context[1].entry_id, Some(id1));
}

#[test]
fn test_build_context_matches_build_context_with_entry_ids() {
    let mut session = Session::new("openai/gpt-4o");
    session.append_message(user_msg("What is Rust?"));
    session.append_message(assistant_msg("Rust is a systems language."));
    session.append_message(user_msg("Is it fast?"));
    session.append_message(assistant_msg("Yes, very."));

    let messages_only = session.build_context();
    let context = session.build_context_with_entry_ids();

    assert_eq!(
        messages_only.len(),
        context.len(),
        "Both methods must return the same number of messages"
    );

    for (i, (a, b)) in messages_only
        .iter()
        .zip(context.iter().map(|cm| &cm.message))
        .enumerate()
    {
        assert_eq!(a.role, b.role, "Message {i} role mismatch");
        assert!(b.content.is_some(), "Message {i} should have content");
    }
}

#[test]
fn test_context_message_struct_fields() {
    let mut session = Session::new("test-model");
    let _ = session.append_message(user_msg("hello"));
    let _ = session.append_message(assistant_msg("world"));

    let context: Vec<ContextMessage> = session.build_context_with_entry_ids();
    assert_eq!(context.len(), 2);
    assert!(context[0].entry_id.is_some());
    assert!(context[1].entry_id.is_some());
    match &context[0].message.content {
        Some(MessageContent::Text(t)) => assert_eq!(t, "hello"),
        _ => panic!("expected text content"),
    }
    match &context[1].message.content {
        Some(MessageContent::Text(t)) => assert_eq!(t, "world"),
        _ => panic!("expected text content"),
    }
}

#[test]
fn test_context_message_plain_session() {
    let mut session = Session::new("test-model");
    for i in 0..5 {
        let _ = session.append_message(user_msg(&format!("msg {i}")));
    }

    let context = session.build_context_with_entry_ids();
    assert_eq!(context.len(), 5);
    for (i, cm) in context.iter().enumerate() {
        assert!(cm.entry_id.is_some(), "entry_id missing at index {i}");
    }
}

#[test]
fn test_context_message_duplicate_content() {
    let mut session = Session::new("test-model");
    let id1 = session.append_message(user_msg("same text"));
    let id2 = session.append_message(user_msg("same text"));

    assert_ne!(
        id1, id2,
        "different appends must produce different entry IDs"
    );

    let context = session.build_context_with_entry_ids();
    assert_eq!(context.len(), 2);
    let eid1 = context[0].entry_id.as_ref().unwrap();
    let eid2 = context[1].entry_id.as_ref().unwrap();
    assert_ne!(
        eid1, eid2,
        "duplicate content should still have different entry_ids"
    );
}

#[test]
fn test_context_message_compacted_session() {
    let mut session = Session::new("test-model");

    let ids: Vec<String> = (0..6)
        .map(|i| session.append_message(user_msg(&format!("msg {i}"))))
        .collect();

    session.append_compaction("summary text".to_string(), ids[4].clone(), 100);

    let context = session.build_context_with_entry_ids();
    assert_eq!(context.len(), 3, "expected summary + 2 kept messages");
    assert!(
        context[0].entry_id.is_none(),
        "summary should have None entry_id"
    );
    assert!(text_of(&context[0].message).contains("summary text"));
    assert!(
        context[1].entry_id.is_some(),
        "kept message should have entry_id"
    );
    assert!(
        context[2].entry_id.is_some(),
        "kept message should have entry_id"
    );
}

#[test]
fn test_session_save_load() {
    let mut session = Session::new("openai/gpt-4o");
    session.append_message(user_msg("Hello!"));
    session.append_message(assistant_msg("Hi there!"));

    let session_id = session.session_id.clone();
    let leaf_id = session.leaf_id.clone();
    let created_at = session.created_at;
    let entries = session.entries.len();

    let loaded = reload(session).unwrap();
    assert_eq!(loaded.session_id, session_id);
    assert_eq!(loaded.entries.len(), entries);
    assert_eq!(loaded.model, "openai/gpt-4o");
    assert_eq!(loaded.leaf_id, leaf_id);
    assert_eq!(loaded.created_at, created_at);
}

#[test]
fn test_session_list() {
    let sessions: Vec<Result<Session, PiError>> = (0..3)
        .map(|i| {
            let mut session = Session::new("openai/gpt-4o");
            session.append_message(user_msg(&format!("Message {i}")));
            Ok(session)
        })
        .collect();

    let list = list_sessions(&sessions);
    assert_eq!(list.len(), 3);
    let time = |t: Timestamp| (t.seconds, t.nanos);
    assert!(time(list[0].created_at) >= time(list[1].created_at));
}

#[test]
fn test_session_list_empty_dir() {
    let list = list_sessions(&vec![]);
    assert!(list.is_empty());
}

#[test]
fn test_session_migration_empty_file() {
    let lines = session_lines("");
    assert!(lines.is_empty());

    let result = load_session("empty-session", vec![], "leaf".to_string());
    match result {
        Err(PiError::Io(e)) => {
            assert!(matches!(e.kind, IoErrorKind::InvalidData));
            assert_eq!(e.message, "Session file missing metadata");
        }
        other => panic!("unexpected outcome: {other:?}"),
    }
}

#[test]
fn test_session_migration_only_meta() {
    let meta = r#"{"type":"meta","session_id":"meta-only","created_at":"2024-01-01T00:00:00Z","model":"openai/gpt-4o"}"#;

    let result = load_session(
        "meta-only",
        vec![legacy(meta, "e0", None)],
        "leaf".to_string(),
    );
    assert!(result.is_ok());
    let session = result.unwrap();
    assert_eq!(session.entries.len(), 2);
    assert!(matches!(session.entries[0], SessionEntry::Meta { .. }));
    assert!(matches!(session.entries[1], SessionEntry::Leaf { .. }));
}

#[test]
fn test_session_migration_unknown_entry_type() {
    let entry = r#"{"type":"unknown_type","data":"test"}"#;
    let result = load_session(
        "unknown-type",
        vec![legacy(entry, "e0", None)],
        "leaf".to_string(),
    );
    assert!(result.is_err());
}

#[test]
fn test_session_migration_malformed_json() {
    let result = load_session(
        "malformed",
        vec![legacy("not json", "e0", None)],
        "leaf".to_string(),
    );
    assert!(result.is_err());
}

#[test]
fn test_session_migration_missing_fields() {
    let result = load_session(
        "missing-fields",
        vec![legacy(r#"{"type":"meta"}"#, "e0", None)],
        "leaf".to_string(),
    );
    assert!(result.is_err());
}

fn manager() -> SessionManager {
    SessionManager::with_dir("/sessions".to_string())
}

#[test]
fn test_session_path_rejects_dot_dot() {
    assert!(manager().session_path("..").is_err());
}

#[test]
fn test_session_path_rejects_dot() {
    assert!(manager().session_path(".").is_err());
}

#[test]
fn test_session_path_rejects_empty() {
    assert!(manager().session_path("").is_err());
}

#[test]
fn test_session_path_rejects_hidden() {
    assert!(manager().session_path(".hidden").is_err());
}

#[test]
fn session_id_rejects_path_traversal() {
    let manager = manager();

    assert!(manager.session_path("../../../etc/passwd").is_err());
    assert!(manager.session_path("foo/../bar").is_err());
    assert!(manager.session_path("session-../../secret").is_err());

    assert!(manager.session_path("v1.0").is_ok());
    assert!(manager.session_path("release-1.2.3").is_ok());
}

#[test]
fn test_legacy_migration_creates_leaf_entry() {
    let lines = vec![
        legacy(
            r#"{"type":"meta","session_id":"legacy-123","created_at":"2024-01-01T00:00:00Z","model":"gpt-4"}"#,
            "e0",
            None,
        ),
        legacy(
            r#"{"type":"message","message":{"role":"user","content":"hello","tool_calls":null,"tool_call_id":null,"name":null}}"#,
            "e1",
            Some(user_msg("hello")),
        ),
        legacy(
            r#"{"type":"message","message":{"role":"assistant","content":"hi","tool_calls":null,"tool_call_id":null,"name":null}}"#,
            "e2",
            Some(assistant_msg("hi")),
        ),
    ];
    let session = load_session("legacy-123", lines, "leaf".to_string()).unwrap();

    let has_leaf = session
        .entries
        .iter()
        .any(|e| matches!(e, SessionEntry::Leaf { .. }));
    assert!(
        has_leaf,
        "Legacy migration should create a Leaf entry. Found entries: {:?}",
        session.entries.iter().map(|e| e.id()).collect::<Vec<_>>()
    );

    let leaf_valid = session
        .entries
        .iter()
        .any(|e| matches!(e, SessionEntry::Leaf { id, .. } if *id == session.leaf_id));
    assert!(leaf_valid, "leaf_id should point to an existing Leaf entry");
}

#[test]
fn migrated_session_has_the_id_of_its_root() {
    let meta = r#"{"type":"meta","session_id":"legacy-123","created_at":"2024-01-01T00:00:00Z","model":"gpt-4"}"#;
    let message = r#"{"type":"message","message":{"role":"user","content":"hello"}}"#;
    let session = load_session(
        "legacy-123",
        vec![
            legacy(meta, "e0", None),
            legacy(message, "e1", Some(user_msg("hello"))),
        ],
        "leaf".to_string(),
    )
    .unwrap();
    assert_eq!(session.session_id, "legacy-123");
    assert!(matches!(session.entries[0], SessionEntry::Meta { .. }));
    assert_eq!(session.entries[0].id(), "legacy-123");
    assert_eq!(session.entries[1].id(), "e1");
    assert_eq!(session.entries[1].parent_id(), Some("legacy-123"));
    assert_eq!(session.build_context(), vec![user_msg("hello")]);
}

#[test]
fn test_legacy_migration_preserves_message_content() {
    let lines = vec![
        legacy(
            r#"{"type":"meta","session_id":"content-test","created_at":"2024-01-01T00:00:00Z","model":"gpt-4"}"#,
            "e0",
            None,
        ),
        legacy(
            r#"{"type":"message","message":{"role":"user","content":"first message","tool_calls":null,"tool_call_id":null,"name":null}}"#,
            "e1",
            Some(user_msg("first message")),
        ),
        legacy(
            r#"{"type":"message","message":{"role":"assistant","content":"second message","tool_calls":null,"tool_call_id":null,"name":null}}"#,
            "e2",
            Some(assistant_msg("second message")),
        ),
    ];
    let session = load_session("content-test", lines, "leaf".to_string()).unwrap();
    let context = session.build_context();

    assert_eq!(context.len(), 2);
    assert_eq!(text_of(&context[0]), "first message");
    assert_eq!(text_of(&context[1]), "second message");
}

#[test]
fn test_legacy_migration_session_id_with_underscores() {
    assert!(manager().session_path("test_session").is_err());
}

#[test]
fn test_legacy_migration_session_id_with_special_chars() {
    assert!(manager().session_path("../etc/passwd").is_err());
    assert!(manager().session_path("test@session").is_err());
    assert!(manager().session_path("test session").is_err());
}

#[test]
fn test_save_uses_sync_all_before_rename() {
    let mut session = Session::new("openai/gpt-4o");
    for i in 0..100 {
        session.append_message(user_msg(&format!("message {i}")));
    }
    let entries = session.entries.len();

    let loaded = reload(session).unwrap();
    assert_eq!(loaded.entries.len(), entries);
}

#[test]
fn paths_are_exact() {
    assert_eq!(manager().session_path("a-1").unwrap(), "/sessions/a-1.jsonl");
    assert_eq!(
        SessionManager::with_dir("/s/".to_string()).session_path("a").unwrap(),
        "/s/a.jsonl"
    );
    match manager().session_path("a/b") {
        Err(PiError::Io(e)) => assert!(matches!(e.kind, IoErrorKind::InvalidInput)),
        other => panic!("unexpected outcome: {other:?}"),
    }
    assert!(is_session_id("\u{e9}t\u{e9}"));
    assert!(is_session_id(&Session::new("m").session_id));
}

#[test]
fn lines_come_back_from_their_text() {
    let lines = vec!["{\"a\":1}".to_string(), "{\"b\":2}".to_string()];
    let text = session_text(&lines);
    assert_eq!(text, "{\"a\":1}\n{\"b\":2}\n");
    assert_eq!(session_lines(&text), lines);
    assert_eq!(session_lines("\n a \n\n\tb"), vec!["a", "b"]);
}

#[test]
fn previews_are_cut_after_a_hundred_characters() {
    assert_eq!(text_preview(String::new()), None);
    assert_eq!(text_preview("x".repeat(100)), Some("x".repeat(100)));
    assert_eq!(
        text_preview("x".repeat(101)),
        Some(format!("{}...", "x".repeat(100)))
    );
    assert_eq!(
        text_preview("\u{20ac}".repeat(40)),
        Some(format!("{}...", "\u{20ac}".repeat(40)))
    );
}

#[test]
fn unreadable_sessions_are_not_listed() {
    let at = |seconds: i64, name: &str| {
        Session::with_ids(
            "m",
            name.to_string(),
            format!("{name}-leaf"),
            Timestamp { seconds, nanos: 0 },
        )
    };
    let mut last = at(3, "c");
    last.append_message(assistant_msg("bye"));
    let sessions = vec![
        Ok(at(1, "a")),
        Err(PiError::provider("unreadable")),
        Ok(last),
        Ok(at(2, "b")),
    ];
    let list = list_sessions(&sessions);
    let ids: Vec<&str> = list.iter().map(|s| s.session_id.as_str()).collect();
    assert_eq!(ids, vec!["c", "b", "a"]);
    assert_eq!(list[0].message_count, 1);
    assert_eq!(list[0].last_message_preview.as_deref(), Some("bye"));
    assert_eq!(list[1].last_message_preview, None);
    assert_eq!(summarize_session(&at(7, "d")).message_count, 0);
}

#[test]
fn given_ids_are_used() {
    let time = Timestamp { seconds: 5, nanos: 6 };
    let mut session = Session::with_ids("m", "root".to_string(), "l0".to_string(), time);
    session.append_message_as(user_msg("a"), "e1".to_string(), "l1".to_string());
    session.append_compaction_as(
        "s".to_string(),
        "e1".to_string(),
        9,
        "e2".to_string(),
        "l2".to_string(),
    );
    let ids: Vec<&str> = session.entries.iter().map(|e| e.id()).collect();
    assert_eq!(ids, vec!["root", "l0", "e1", "l1", "e2", "l2"]);
    let parents: Vec<Option<&str>> = session.entries.iter().map(|e| e.parent_id()).collect();
    assert_eq!(
        parents,
        vec![None, None, Some("root"), Some("l0"), Some("e1"), Some("l1")]
    );
    assert_eq!(session.leaf_id, "l2");
}

#[test]
fn cyclic_parents_end() {
    let mut session = Session::with_ids(
        "m",
        "root".to_string(),
        "l0".to_string(),
        Timestamp { seconds: 0, nanos: 0 },
    );
    session.entries.push(SessionEntry::Message {
        id: "e1".to_string(),
        parent_id: Some("e1".to_string()),
        message: user_msg("a"),
    });
    session.entries.push(SessionEntry::Leaf {
        id: "l1".to_string(),
        parent_id: None,
        target_id: "e1".to_string(),
    });
    session.leaf_id = "l1".to_string();
    assert_eq!(session.build_context().len(), 1);
}
