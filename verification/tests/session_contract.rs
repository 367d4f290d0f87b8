use rpi::agent_loop::{apply_compaction, create_compaction_summary_message};
use rpi::compaction::CompactionResult;
use rpi::session::Session;
use rpi::session_store::{list_sessions, load_session, LineContent};
use rpi::types::{FunctionCall, Message, MessageContent, Role, ToolCall};

fn user_msg(text: &str) -> Message {
    Message {
        role: Role::User,
        content: Some(MessageContent::Text(text.to_string())),
        tool_calls: None,
        tool_call_id: None,
        name: None,
    }
}

fn assistant_msg(text: &str) -> Message {
    Message {
        role: Role::Assistant,
        content: Some(MessageContent::Text(text.to_string())),
        tool_calls: None,
        tool_call_id: None,
        name: None,
    }
}

fn content_text(msg: &Message) -> Option<&str> {
    match &msg.content {
        Some(MessageContent::Text(t)) => Some(t.as_str()),
        _ => None,
    }
}

fn reload(session: Session) -> Session {
    let lines = session.entries.into_iter().map(LineContent::Entry).collect();
    load_session(&session.session_id, lines, "unused".to_string()).unwrap()
}

#[test]
fn compaction_persistence_matches_apply_compaction() {
    let messages = vec![
        user_msg("old question 1"),
        assistant_msg("old answer 1"),
        user_msg("old question 2"),
        assistant_msg("old answer 2"),
        user_msg("new question"),
        assistant_msg("new answer"),
    ];

    let mut prod_messages = messages.clone();
    let result = CompactionResult {
        summary: "User asked two old questions, got answers.".to_string(),
        first_kept_message_index: 4,
        tokens_before: 100,
        tokens_after: 50,
    };
    apply_compaction(&mut prod_messages, &result);

    assert_eq!(
        prod_messages.len(),
        3,
        "apply_compaction should keep summary + 2 kept messages"
    );
    assert_eq!(prod_messages[0].role, Role::User);
    assert!(
        content_text(&prod_messages[0])
            .is_some_and(|t| t.contains("<summary>")),
        "first message should be the summary"
    );
    assert_eq!(content_text(&prod_messages[1]), Some("new question"));
    assert_eq!(content_text(&prod_messages[2]), Some("new answer"));

    let mut session = Session::new("test-model");
    let entry_ids: Vec<String> = messages
        .iter()
        .map(|m| session.append_message(m.clone()).to_string())
        .collect();

    let first_kept_entry_id = entry_ids[result.first_kept_message_index].clone();
    session.append_compaction(
        result.summary.clone(),
        first_kept_entry_id,
        result.tokens_before,
    );

    let session_context = session.build_context();
    assert_eq!(
        session_context.len(),
        prod_messages.len(),
        "Session build_context length should match apply_compaction result"
    );

    for (i, (expected, actual)) in
        prod_messages.iter().zip(session_context.iter()).enumerate()
    {
        assert_eq!(
            expected.role, actual.role,
            "Role mismatch at index {i}: expected {:?}, got {:?}",
            expected.role, actual.role
        );
        assert_eq!(
            content_text(expected),
            content_text(actual),
            "Content mismatch at index {i}"
        );
    }
}

#[test]
fn compaction_summary_format_is_shared() {
    let summary_text = "Summary with <special> & \"chars\"";

    let from_helper = create_compaction_summary_message(summary_text);

    let mut session = Session::new("test-model");
    let entry_id = session.append_message(user_msg("msg"));
    session.append_compaction(summary_text.to_string(), entry_id.to_string(), 50);
    let context = session.build_context();

    assert_eq!(context.len(), 2);
    assert_eq!(context[0].role, from_helper.role);
    assert_eq!(content_text(&context[0]), content_text(&from_helper));
    assert_eq!(context[1].role, Role::User);
    assert_eq!(content_text(&context[1]), Some("msg"));
}

#[test]
fn compaction_with_split_turn_preserves_tool_results() {
    let messages = vec![
        user_msg("do something"),
        Message {
            role: Role::Assistant,
            content: None,
            tool_calls: Some(vec![ToolCall {
                id: "call_1".to_string(),
                function: FunctionCall {
                    name: "bash".to_string(),
                    arguments: "{}".to_string(),
                },
            }]),
            tool_call_id: None,
            name: None,
        },
        Message {
            role: Role::Tool,
            content: Some(MessageContent::Text("tool output".to_string())),
            tool_calls: None,
            tool_call_id: Some("call_1".to_string()),
            name: None,
        },
        assistant_msg("final answer"),
    ];

    let mut prod_messages = messages.clone();
    let result = CompactionResult {
        summary: "User asked to do something, tool ran.".to_string(),
        first_kept_message_index: 2,
        tokens_before: 80,
        tokens_after: 40,
    };
    apply_compaction(&mut prod_messages, &result);

    assert_eq!(prod_messages.len(), 3);
    assert_eq!(prod_messages[1].role, Role::Tool);
    assert_eq!(prod_messages[2].role, Role::Assistant);

    let mut session = Session::new("test-model");
    let entry_ids: Vec<String> = messages
        .iter()
        .map(|m| session.append_message(m.clone()).to_string())
        .collect();

    let first_kept_entry_id = entry_ids[result.first_kept_message_index].clone();
    session.append_compaction(
        result.summary.clone(),
        first_kept_entry_id,
        result.tokens_before,
    );

    let session_context = session.build_context();
    assert_eq!(session_context.len(), prod_messages.len());
    for (i, (expected, actual)) in
        prod_messages.iter().zip(session_context.iter()).enumerate()
    {
        assert_eq!(expected.role, actual.role, "Role mismatch at index {i}");
        assert_eq!(
            content_text(expected),
            content_text(actual),
            "Content mismatch at index {i}"
        );
    }
}

#[test]
fn new_session_persists_user_messages() {
    let mut session = Session::new("test-model");
    session.append_message(user_msg("hello"));

    let context = session.build_context();
    assert_eq!(context.len(), 1);
    assert_eq!(context[0].role, Role::User);
}

#[test]
fn session_persists_multiple_turns() {
    let mut session = Session::new("test-model");

    session.append_message(user_msg("hello"));
    session.append_message(assistant_msg("hi there"));
    session.append_message(user_msg("how are you"));

    let context = session.build_context();
    assert_eq!(context.len(), 3);
    assert_eq!(context[0].role, Role::User);
    assert_eq!(context[1].role, Role::Assistant);
    assert_eq!(context[2].role, Role::User);
}

#[test]
fn session_save_load_roundtrip() {
    let mut session = Session::new("test-model");
    session.append_message(user_msg("test"));

    let loaded = reload(session);
    let context = loaded.build_context();
    assert_eq!(context.len(), 1);
    assert_eq!(context[0].role, Role::User);
}

#[test]
fn context_with_entry_ids_maps_correctly() {
    let mut session = Session::new("test-model");

    session.append_message(user_msg("hello"));
    session.append_message(assistant_msg("world"));

    let context = session.build_context_with_entry_ids();
    assert_eq!(context.len(), 2);
    assert!(context[0].entry_id.is_some());
    assert!(context[1].entry_id.is_some());
    assert_ne!(context[0].entry_id, context[1].entry_id);
}

#[test]
fn session_list_shows_sessions() {
    let mut session = Session::new("test-model");
    session.append_message(user_msg("hello"));

    let sessions = list_sessions(&vec![Ok(session)]);
    assert_eq!(sessions.len(), 1);
    assert_eq!(sessions[0].model, "test-model");
    assert_eq!(sessions[0].message_count, 1);
}

#[test]
fn resume_after_compaction_reconstructs_context() {
    let mut session = Session::new("test-model");

    for i in 0..5 {
        session.append_message(Message {
            role: if i % 2 == 0 {
                Role::User
            } else {
                Role::Assistant
            },
            content: Some(MessageContent::Text(format!("message {i}"))),
            tool_calls: None,
            tool_call_id: None,
            name: None,
        });
    }

    let context = session.build_context_with_entry_ids();
    let first_kept_entry_id = context[3].entry_id.clone().unwrap();

    session.append_compaction(
        "Summary of messages 0-2".to_string(),
        first_kept_entry_id,
        1000,
    );

    session.append_message(Message {
        role: Role::User,
        content: Some(MessageContent::Text("post-compaction message".to_string())),
        tool_calls: None,
        tool_call_id: None,
        name: None,
    });

    let context = session.build_context();

    let summary_count = context
        .iter()
        .filter(|m| {
            m.content.as_ref().map_or(
                false,
                |c| matches!(c, MessageContent::Text(t) if t.contains("Summary of messages 0-2")),
            )
        })
        .count();
    assert_eq!(summary_count, 1, "Should have exactly one summary message");

    for i in 0..3 {
        let found = context.iter().any(|m| {
            m.content.as_ref().map_or(
                false,
                |c| matches!(c, MessageContent::Text(t) if t == &format!("message {i}")),
            )
        });
        assert!(!found, "Compacted message {i} should not be in context");
    }

    assert!(context.iter().any(|m| {
        m.content.as_ref().map_or(
            false,
            |c| matches!(c, MessageContent::Text(t) if t == "message 3"),
        )
    }));
    assert!(context.iter().any(|m| {
        m.content.as_ref().map_or(
            false,
            |c| matches!(c, MessageContent::Text(t) if t == "message 4"),
        )
    }));
    assert!(context.iter().any(|m| {
        m.content.as_ref().map_or(
            false,
            |c| matches!(c, MessageContent::Text(t) if t == "post-compaction message"),
        )
    }));
}

#[test]
fn save_load_session_with_compaction() {
    let mut session = Session::new("test-model");

    for i in 0..4 {
        session.append_message(Message {
            role: if i % 2 == 0 {
                Role::User
            } else {
                Role::Assistant
            },
            content: Some(MessageContent::Text(format!("msg {i}"))),
            tool_calls: None,
            tool_call_id: None,
            name: None,
        });
    }

    let context = session.build_context_with_entry_ids();
    let first_kept = context[2].entry_id.clone().unwrap();
    session.append_compaction("Summary".to_string(), first_kept, 500);

    let original_context = session.build_context();
    let loaded = reload(session);

    let loaded_context = loaded.build_context();

    assert_eq!(original_context.len(), loaded_context.len());
    for (orig, load) in original_context.iter().zip(loaded_context.iter()) {
        assert_eq!(orig.role, load.role);
    }
}

#[test]
fn entry_ids_after_compaction_map_correctly() {
    let mut session = Session::new("test-model");

    for i in 0..4 {
        session.append_message(Message {
            role: if i % 2 == 0 {
                Role::User
            } else {
                Role::Assistant
            },
            content: Some(MessageContent::Text(format!("msg {i}"))),
            tool_calls: None,
            tool_call_id: None,
            name: None,
        });
    }

    let context_pre = session.build_context_with_entry_ids();
    let first_kept = context_pre[2].entry_id.clone().unwrap();
    session.append_compaction("Summary".to_string(), first_kept, 500);

    let context_post = session.build_context_with_entry_ids();

    assert!(
        context_post[0].entry_id.is_none(),
        "Summary should map to None"
    );

    for cm in &context_post[1..] {
        assert!(cm.entry_id.is_some(), "Kept messages should have entry IDs");
    }
}

#[test]
fn resume_preserves_original_model() {
    let mut session = Session::new("original-model");
    session.append_message(user_msg("hello"));

    let loaded = reload(session);

    assert_eq!(
        loaded.model, "original-model",
        "Session should preserve its original model on resume load"
    );
}
