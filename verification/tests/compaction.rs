use rpi::compaction::{
    find_cut_point, finish_compaction, generate_turn_prefix_summary, plan_compaction,
    prepare_compaction, serialize_conversation, should_compact, CompactionPreparation,
    CompactionResult, CompactionSettings,
};
use rpi::error::{CompactionError, PiError};
use rpi::token_estimation::estimate_tokens;
use rpi::types::{FunctionCall, Message, MessageContent, Role, ToolCall};

fn compact(
    answer: &str,
    preparation: &CompactionPreparation,
) -> Result<CompactionResult, PiError> {
    finish_compaction(preparation, Ok(answer.to_string()), Ok(answer.to_string()))
}


fn user_msg(text: &str) -> Message {
    Message {
        role: Role::User,
        content: Some(MessageContent::Text(text.to_string())),
        tool_calls: None,
        tool_call_id: None,
        name: None,
    }
}

fn assistant_msg(text: &str) -> Message {
    Message {
        role: Role::Assistant,
        content: Some(MessageContent::Text(text.to_string())),
        tool_calls: None,
        tool_call_id: None,
        name: None,
    }
}

fn assistant_tool_call(name: &str, args: &str) -> Message {
    Message {
        role: Role::Assistant,
        content: None,
        tool_calls: Some(vec![ToolCall {
            id: "call_1".to_string(),
            function: FunctionCall {
                name: name.to_string(),
                arguments: args.to_string(),
            },
        }]),
        tool_call_id: None,
        name: None,
    }
}

fn tool_result(content: &str) -> Message {
    Message {
        role: Role::Tool,
        content: Some(MessageContent::Text(content.to_string())),
        tool_calls: None,
        tool_call_id: Some("call_1".to_string()),
        name: None,
    }
}

#[test]
fn test_should_compact_below_threshold() {
    let settings = CompactionSettings::default();
    assert!(!should_compact(50_000, 200_000, &settings));
}

#[test]
fn test_should_compact_above_threshold() {
    let settings = CompactionSettings::default();
    assert!(should_compact(190_000, 200_000, &settings));
}

#[test]
fn test_should_compact_disabled() {
    let settings = CompactionSettings {
        enabled: false,
        ..Default::default()
    };
    assert!(!should_compact(200_000, 200_000, &settings));
}

#[test]
fn test_find_cut_point_simple() {
    let messages: Vec<Message> = (0..10).map(|i| user_msg(&format!("msg {i}"))).collect();

    let (cut, is_split) = find_cut_point(&messages, 10, None).unwrap();
    assert_eq!(messages[cut].role, Role::User);
    assert!(!is_split);
    assert!(cut < messages.len());
}

#[test]
fn system_message_is_no_cut() {
    let system = Message {
        role: Role::System,
        ..user_msg("a system message at the end")
    };
    let messages = vec![user_msg("one"), assistant_msg("two"), system.clone()];
    assert_eq!(find_cut_point(&messages, 1, None), None);
    let messages = vec![user_msg("one"), system, assistant_msg("two")];
    let all: u32 = 1_000;
    assert_eq!(find_cut_point(&messages, all, None), None);
    assert_eq!(find_cut_point(&messages, 1, None), Some((2, false)));
}

#[test]
fn test_find_cut_point_with_tool_calls() {
    let messages = vec![
        user_msg("first"),
        assistant_tool_call("read_file", "{\"path\":\"/tmp/a.rs\"}"),
        tool_result("file contents here"),
        user_msg("second"),
        assistant_msg("done"),
    ];

    let result = find_cut_point(&messages, 1, None);
    let (cut, _) = result.unwrap();
    if cut < messages.len() {
        assert_ne!(messages[cut].role, Role::Tool);
    }
    if cut + 1 < messages.len()
        && messages[cut].role == Role::Assistant
        && messages[cut].tool_calls.is_some()
    {
        assert_ne!(messages[cut + 1].role, Role::Tool);
    }
}

#[test]
fn test_find_cut_point_split_turn() {
    let messages = vec![
        user_msg("do something"),
        assistant_tool_call("run_cmd", "{}"),
        tool_result("output of command"),
        assistant_msg("here is the result"),
    ];

    let result = find_cut_point(&messages, 2, None);
    assert!(result.is_some());
}

#[test]
fn test_find_cut_point_not_enough_messages() {
    let messages = vec![user_msg("only one")];
    assert!(find_cut_point(&messages, 999_999, None).is_none());
}

#[test]
fn test_serialize_conversation_basic() {
    let messages = vec![user_msg("hello"), assistant_msg("hi there")];
    let text = serialize_conversation(&messages);
    assert!(text.contains("[User]: hello"));
    assert!(text.contains("[Assistant]: hi there"));
}

#[test]
fn test_serialize_conversation_tool_calls() {
    let messages = vec![assistant_tool_call("read_file", "{\"path\":\"/a\"}")];
    let text = serialize_conversation(&messages);
    assert!(text.contains("[Assistant tool calls]"));
    assert!(text.contains("read_file({\"path\":\"/a\"})"));
}

#[test]
fn test_serialize_conversation_skips_empty() {
    let messages = vec![
        Message {
            role: Role::System,
            content: None,
            tool_calls: None,
            tool_call_id: None,
            name: None,
        },
        user_msg("visible"),
    ];
    let text = serialize_conversation(&messages);
    assert!(!text.contains("[System]"));
    assert!(text.contains("[User]: visible"));
}

#[test]
fn test_prepare_compaction_basic() {
    let messages: Vec<Message> = (0..20).map(|i| user_msg(&format!("msg {i}"))).collect();

    let settings = CompactionSettings {
        keep_recent_tokens: 10,
        ..Default::default()
    };

    let prep = prepare_compaction(&messages, &settings, None);
    assert!(prep.is_some());
    let prep = prep.unwrap();
    assert!(prep.first_kept_message_index < messages.len());
    assert!(!prep.messages_to_summarize.is_empty());
    assert_eq!(
        prep.tokens_before,
        messages.iter().map(|m| estimate_tokens(m)).sum::<u32>()
    );
}

#[test]
fn test_prepare_compaction_not_enough_messages() {
    let messages = vec![user_msg("only one")];
    let settings = CompactionSettings {
        keep_recent_tokens: 999_999,
        ..Default::default()
    };
    assert!(prepare_compaction(&messages, &settings, None).is_none());
}

#[test]
fn test_compaction_settings_defaults() {
    let s = CompactionSettings::default();
    assert_eq!(s.reserve_tokens, 16_384);
    assert_eq!(s.keep_recent_tokens, 20_000);
    assert!(s.enabled);
}

#[test]
fn test_find_cut_point_all_tool_messages() {
    let messages = vec![
        tool_result("result 1"),
        tool_result("result 2"),
        tool_result("result 3"),
    ];
    let result = find_cut_point(&messages, 1, None);
    assert!(result.is_none(), "All-tool session is malformed — should return None");
}

#[test]
fn test_find_cut_point_single_message() {
    let messages = vec![user_msg("hello")];
    let result = find_cut_point(&messages, 100, None);
    assert!(
        result.is_none(),
        "Single message should not produce a cut point"
    );
}

fn default_settings() -> CompactionSettings {
    CompactionSettings {
        reserve_tokens: 16_384,
        keep_recent_tokens: 20_000,
        enabled: true,
        context_window: None,
    }
}

#[test]
fn test_compaction_tokens_after_accounting() {
    let provider = "test summary";
    let messages_to_summarize = vec![user_msg("message 0"), user_msg("message 1")];
    let tokens_before = 100u32;
    let preparation = CompactionPreparation {
        messages_to_summarize: messages_to_summarize.clone(),
        turn_prefix_messages: vec![],
        is_split_turn: false,
        first_kept_message_index: 0,
        tokens_before,
    };

    let result = compact(provider, &preparation)
    .unwrap();
    let summarized_tokens: u32 = messages_to_summarize.iter().map(estimate_tokens).sum();
    let summary_tokens = estimate_tokens(&Message {
        role: Role::User,
        content: Some(MessageContent::Text("test summary".to_string())),
        tool_calls: None,
        tool_call_id: None,
        name: None,
    });
    assert_eq!(
        result.tokens_after,
        tokens_before - summarized_tokens + summary_tokens,
        "tokens_after should be tokens_before - summarized_tokens + summary_tokens"
    );
}

#[test]
fn test_compaction_rejects_underflow() {
    let provider = "summary";
    let messages_to_summarize = vec![user_msg("message 0"), user_msg("message 1")];
    let preparation = CompactionPreparation {
        messages_to_summarize,
        turn_prefix_messages: vec![],
        is_split_turn: false,
        first_kept_message_index: 0,
        tokens_before: 2,
    };

    let result = compact(provider, &preparation);
    assert!(
        result.is_err(),
        "compact should return error when tokens_before < summarized_tokens"
    );
    match result.unwrap_err() {
        PiError::Compaction(CompactionError { message: msg }) => {
            assert!(
                msg.contains("tokens_before"),
                "Error should mention tokens_before, got: {}",
                msg
            );
        }
        other => panic!("Expected Compaction error, got: {:?}", other),
    }
}

#[test]
fn test_find_cut_point_split_turn_avoids_bare_tool() {
    let messages = vec![
        user_msg("first"),
        assistant_tool_call("read_file", "{\"path\":\"/tmp/a.rs\"}"),
        tool_result("file contents here"),
        user_msg("second"),
        assistant_tool_call("run_cmd", "{\"command\":\"ls\"}"),
        tool_result("command output here"),
    ];

    let result = find_cut_point(&messages, 2, None);
    assert!(result.is_some(), "Should find cut point");
    let (cut, is_split) = result.unwrap();

    assert!(is_split, "Should be flagged as split turn");
    assert_eq!(
        messages[cut].role,
        Role::Assistant,
        "Cut backs up to the Assistant with tool_calls, not the bare Tool"
    );
    assert!(
        messages[cut]
            .tool_calls
            .as_ref()
            .is_some_and(|tc| !tc.is_empty()),
        "The Assistant at cut should have tool_calls"
    );

    let settings = CompactionSettings {
        keep_recent_tokens: 2,
        ..default_settings()
    };
    let prep = prepare_compaction(&messages, &settings, None);
    assert!(prep.is_some(), "prepare_compaction should succeed");
    let prep = prep.unwrap();
    assert_eq!(
        prep.first_kept_message_index, cut,
        "first_kept_message_index should equal cut (the owning Assistant)"
    );
    assert_eq!(
        messages[prep.first_kept_message_index].role,
        Role::Assistant,
        "first_kept_message_index points at Assistant with tool_calls"
    );
}

#[test]
fn test_compaction_split_turn_tokens_after_includes_prefix() {
    let provider = "test summary";

    let messages = vec![
        user_msg("start of conversation with enough content to measure"),
        assistant_tool_call("run_cmd", "{\"command\":\"ls -la\"}"),
        tool_result("total 0 -rw-r--r-- 1 user user 100 Jan 1 file.rs"),
        user_msg("continue working on the task please"),
        assistant_tool_call("run_cmd", "{\"command\":\"cat file.rs\"}"),
        tool_result("fn main() { println!(hello); }"),
    ];

    let settings = CompactionSettings {
        keep_recent_tokens: 2,
        ..default_settings()
    };

    let prep = prepare_compaction(&messages, &settings, None).expect("should prepare");
    assert!(prep.is_split_turn, "Should trigger split compaction");
    assert!(
        !prep.turn_prefix_messages.is_empty(),
        "Should have prefix messages"
    );

    let first_kept = prep.first_kept_message_index;

    let result = compact(provider, &prep)
        .unwrap();

    let summary_msg = Message {
        role: Role::User,
        content: Some(MessageContent::Text(result.summary.clone())),
        tool_calls: None,
        tool_call_id: None,
        name: None,
    };
    let actual_kept_tokens = estimate_tokens(&summary_msg)
        + messages[first_kept..]
            .iter()
            .map(estimate_tokens)
            .sum::<u32>();

    assert_eq!(
        result.tokens_after,
        actual_kept_tokens,
        "tokens_after should match actual kept tokens. \
         Got {} but actual is {} (diff = {} = unaccounted prefix tokens)",
        result.tokens_after,
        actual_kept_tokens,
        result.tokens_after.abs_diff(actual_kept_tokens),
    );
}

#[test]
fn test_find_cut_point_orphan_tool_results() {
    let messages = vec![
        tool_result("orphan result 1"),
        tool_result("orphan result 2"),
        user_msg("hello"),
        assistant_msg("hi"),
    ];
    let result = find_cut_point(&messages, 1, None);
    if let Some((cut, _)) = result {
        assert_ne!(
            messages[cut].role,
            Role::Tool,
            "Must not return a cut point on a bare Tool message"
        );
    }
}

#[test]
fn test_find_cut_point_bare_tool_no_assistant() {
    let messages = vec![
        tool_result("orphan result 1"),
        tool_result("orphan result 2"),
        tool_result("orphan result 3"),
        tool_result("orphan result 4"),
    ];
    let result = find_cut_point(&messages, 1, None);
    assert!(
        result.is_none(),
        "Should return None for bare Tool messages without preceding Assistant"
    );
}

#[test]
fn test_find_cut_point_tool_with_valid_assistant() {
    let messages = vec![
        user_msg("run something"),
        assistant_tool_call("run_cmd", "{}"),
        tool_result("output"),
        user_msg("next"),
        assistant_tool_call("run_cmd2", "{}"),
        tool_result("output2"),
    ];
    let result = find_cut_point(&messages, 1, None);
    assert!(result.is_some(), "Should find cut point for valid tool-use turns");
    let (cut, is_split) = result.unwrap();
    if messages[cut].role == Role::Tool {
        let mut found_assistant = false;
        for j in (0..cut).rev() {
            if messages[j].role == Role::User {
                break;
            }
            if messages[j].role == Role::Assistant && messages[j].tool_calls.is_some() {
                found_assistant = true;
                break;
            }
        }
        assert!(found_assistant, "Tool at cut must have a preceding Assistant with tool_calls");
        assert!(is_split, "Cut on a valid Tool should set is_split");
    }
}

#[test]
fn compaction_starts_when_the_reserve_is_reached() {
    let settings = default_settings();
    assert!(!should_compact(183_616, 200_000, &settings));
    assert!(should_compact(183_617, 200_000, &settings));
    assert!(should_compact(1, 100, &settings));
}

#[test]
fn conversation_text_is_exact() {
    let messages = vec![
        user_msg("hello"),
        assistant_tool_call("read_file", "{}"),
        tool_result("done"),
    ];
    assert_eq!(
        serialize_conversation(&messages),
        "[User]: hello\n\n[Assistant tool calls]: read_file({})\n\n[Tool result]: done\n\n"
    );
}

#[test]
fn plans_ask_for_what_is_needed() {
    let whole = CompactionPreparation {
        messages_to_summarize: vec![user_msg("message 0")],
        turn_prefix_messages: vec![],
        is_split_turn: false,
        first_kept_message_index: 1,
        tokens_before: 10,
    };
    let plan = plan_compaction("openai/gpt-4o", &whole, None, &default_settings());
    assert_eq!(plan.history.config.max_tokens, Some(13_107));
    assert_eq!(plan.history.config.max_iterations, 1);
    assert_eq!(plan.history.config.model.provider, "openai");
    assert!(plan.turn_prefix.is_none());
    match &plan.history.messages[1].content {
        Some(MessageContent::Text(text)) => assert!(text.ends_with("\n\n[User]: message 0\n\n")),
        other => panic!("unexpected content: {other:?}"),
    }
    let split = CompactionPreparation {
        messages_to_summarize: vec![],
        turn_prefix_messages: vec![user_msg("message 0")],
        is_split_turn: true,
        first_kept_message_index: 1,
        tokens_before: 10,
    };
    let plan = plan_compaction("plain", &split, Some("earlier"), &default_settings());
    assert_eq!(plan.turn_prefix.unwrap().config.max_tokens, Some(6_553));
    assert_eq!(plan.history.config.model.provider, "unknown");
    assert_eq!(plan.history.config.model.model, "plain");
    match &plan.history.messages[1].content {
        Some(MessageContent::Text(text)) => {
            assert!(text.contains("earlier"));
            assert!(!text.contains("{previous_summary}"));
        }
        other => panic!("unexpected content: {other:?}"),
    }
}

#[test]
fn split_turn_is_summarized_on_its_own() {
    let split = CompactionPreparation {
        messages_to_summarize: vec![],
        turn_prefix_messages: vec![user_msg("message 0")],
        is_split_turn: true,
        first_kept_message_index: 1,
        tokens_before: 10,
    };
    let result = finish_compaction(&split, Ok("H".to_string()), Ok("T".to_string())).unwrap();
    assert_eq!(result.summary, "H\n\n---\n\n**Turn Context (split turn):**\n\nT");
    let failed = finish_compaction(
        &split,
        Ok("H".to_string()),
        Err(PiError::provider("no answer")),
    );
    assert_eq!(failed.unwrap_err().to_text(), PiError::provider("no answer").to_text());
    let request = generate_turn_prefix_summary("m", &vec![user_msg("x")], 5);
    assert_eq!(request.messages.len(), 2);
}
