use rpi::agent_loop::{
    apply_compaction, context_window, create_compaction_summary_message, find_tool,
    finish_reason_error, is_context_overflow, mentions_overflow, read_or_null, AgentEvent,
    AgentLoopConfig, LoopState, LoopStep, ProviderAnswer, StreamState,
};
use rpi::compaction::{
    prepare_compaction, should_compact, CompactionPlan, CompactionResult, CompactionSettings,
    SummaryRequest,
};
use rpi::error::PiError;
use rpi::json::Json;
use rpi::token_estimation::{estimate_context_tokens, estimate_tokens};
use rpi::traits::{StreamChunk, ToolCallDelta};
use rpi::types::{
    extract_text, ChatResponse, FinishReason, FunctionCall, Message, MessageContent, Role,
    ToolCall, Usage,
};

enum Answer {
    Whole(ChatResponse),
    Chunks(Vec<StreamChunk>),
}

fn summaries(
    plan: &CompactionPlan,
    provider: &mut dyn FnMut() -> Result<Answer, PiError>,
) -> (Result<String, PiError>, Result<String, PiError>) {
    let mut ask = |_: &SummaryRequest| match provider() {
        Ok(Answer::Whole(response)) => Ok(extract_text(&response.message.content)),
        Ok(Answer::Chunks(_)) => panic!("summaries are not streamed"),
        Err(e) => Err(e),
    };
    let history = ask(&plan.history);
    let turn_prefix = match &plan.turn_prefix {
        Some(request) => ask(request),
        None => Ok(String::new()),
    };
    (history, turn_prefix)
}

fn try_compact(
    state: &mut LoopState,
    settings: &CompactionSettings,
    tokens: u32,
    provider: &mut dyn FnMut() -> Result<Answer, PiError>,
    events: &mut Vec<AgentEvent>,
) -> bool {
    let (started, work) = state.start_compaction("mock-model", settings, tokens);
    events.extend(started);
    match work {
        Some((preparation, plan)) => {
            let (history, turn_prefix) = summaries(&plan, provider);
            let (event, compacted) = state.finish_compaction(&preparation, history, turn_prefix);
            events.push(event);
            compacted
        }
        None => false,
    }
}

fn run_agent_loop(
    mut provider: impl FnMut() -> Result<Answer, PiError>,
    messages: &mut Vec<Message>,
    tools: &[(&str, &str)],
    config: &AgentLoopConfig,
    max_tokens: Option<u32>,
    events: &mut Vec<AgentEvent>,
) -> Result<(), PiError> {
    let window = context_window(config, max_tokens);
    let names: Vec<String> = tools.iter().map(|(name, _)| name.to_string()).collect();
    let mut state = LoopState::new(messages.clone());
    let outcome = loop {
        events.push(state.turn_start());
        let answer = match provider() {
            Ok(Answer::Whole(response)) => {
                let (reported, answer) = state.finish_response(response);
                events.extend(reported);
                answer
            }
            Ok(Answer::Chunks(chunks)) => {
                let mut stream = StreamState::new();
                for chunk in &chunks {
                    events.extend(stream.push_chunk(chunk));
                }
                let (reported, answer) = state.finish_stream(&stream);
                events.extend(reported);
                answer
            }
            Err(e) => ProviderAnswer::Refused(e),
        };
        let (reported, step) = state.after_provider(config, answer);
        events.extend(reported);
        let calls = match step {
            LoopStep::Finished => break Ok(()),
            LoopStep::Failed(e) => break Err(e),
            LoopStep::Compact(tokens) => {
                let settings = config.compaction.unwrap();
                let compacted = try_compact(&mut state, &settings, tokens, &mut provider, events);
                let (reported, again) = state.after_overflow_compaction(compacted);
                events.extend(reported);
                if again {
                    continue;
                }
                break Ok(());
            }
            LoopStep::RunTools(calls) => calls,
        };
        for call in &calls {
            events.push(state.start_tool(call));
            let outcome = find_tool(&names, &call.function.name).map(|i| Ok(tools[i].1.to_string()));
            events.push(state.finish_tool(call, outcome));
        }
        if let Some(tokens) = state.compaction_due(config, window).unwrap() {
            let settings = config.compaction.unwrap();
            try_compact(&mut state, &settings, tokens, &mut provider, events);
        }
    };
    *messages = state.messages;
    outcome
}

fn text_message(role: Role, text: &str) -> Message {
    Message {
        role,
        content: Some(MessageContent::Text(text.to_string())),
        tool_calls: None,
        tool_call_id: None,
        name: None,
    }
}

fn text_response(text: &str, finish_reason: FinishReason, usage: Usage) -> Answer {
    Answer::Whole(ChatResponse {
        message: text_message(Role::Assistant, text),
        finish_reason,
        usage,
    })
}

fn tool_response(id: &str, name: &str, usage: Usage) -> Answer {
    Answer::Whole(ChatResponse {
        message: Message {
            role: Role::Assistant,
            content: None,
            tool_calls: Some(vec![ToolCall {
                id: id.to_string(),
                function: FunctionCall {
                    name: name.to_string(),
                    arguments: "{}".to_string(),
                },
            }]),
            tool_call_id: None,
            name: None,
        },
        finish_reason: FinishReason::ToolCalls,
        usage,
    })
}

fn usage(prompt_tokens: u32, completion_tokens: u32, total_tokens: u32) -> Usage {
    Usage {
        prompt_tokens,
        completion_tokens,
        total_tokens,
    }
}

fn chunk(delta: Option<&str>, finish_reason: Option<FinishReason>, usage: Option<Usage>) -> StreamChunk {
    StreamChunk {
        delta: delta.map(str::to_string),
        tool_calls: vec![],
        finish_reason,
        usage,
    }
}

#[test]
fn test_is_context_overflow_openai_format() {
    let error = PiError::provider("context_length_exceeded: ...");
    assert!(is_context_overflow(&error));
}

#[test]
fn test_is_context_overflow_anthropic_format() {
    let error = PiError::provider("context window exceeded");
    assert!(is_context_overflow(&error));
}

#[test]
fn test_is_context_overflow_missing_patterns() {
    let error = PiError::provider("prompt is too long");
    assert!(
        is_context_overflow(&error),
        "'prompt is too long' should be detected as context overflow"
    );

    let error = PiError::provider("context window: request too large");
    assert!(
        is_context_overflow(&error),
        "'request too large' with 'context' should match"
    );

    let error = PiError::provider("context_length_exceeded: max tokens exceeded");
    assert!(
        is_context_overflow(&error),
        "'max tokens exceeded' with 'context' should match"
    );
}

#[test]
fn test_is_context_overflow_false_positives() {
    let error = PiError::provider("Invalid API key");
    assert!(!is_context_overflow(&error));

    let error = PiError::provider("Rate limit exceeded");
    assert!(!is_context_overflow(&error));

    let error = PiError::provider("Model not found");
    assert!(!is_context_overflow(&error));
}

#[test]
fn test_streaming_usage_tracking() {
    let mut messages = vec![text_message(Role::User, "Hi")];
    let config = AgentLoopConfig {
        max_tool_rounds: 1,
        stream: true,
        compaction: None,
    };

    let mut events = Vec::new();
    let result = run_agent_loop(
        || {
            Ok(Answer::Chunks(vec![chunk(
                Some("Hello"),
                Some(FinishReason::Stop),
                Some(usage(10, 2, 12)),
            )]))
        },
        &mut messages,
        &[],
        &config,
        Some(1000),
        &mut events,
    );
    assert!(result.is_ok());

    let done_event = events.iter().find(|e| matches!(e, AgentEvent::Done { .. }));
    assert!(done_event.is_some(), "Should have a Done event");

    if let Some(AgentEvent::Done { total_usage, .. }) = done_event {
        assert!(
            total_usage.total_tokens > 0,
            "Streaming path should track usage, but total_tokens is 0"
        );
        assert_eq!(*total_usage, usage(10, 2, 12));
    }
}

#[test]
fn test_context_window_derivation_small_max_tokens() {
    let agent_max_tokens = 4096u32;
    let context_window = std::cmp::max(agent_max_tokens, 128_000u32);
    assert_eq!(context_window, 128_000);
    assert!(
        context_window >= 32_000,
        "Context window for max_tokens=4096 should be >= 32k, got {}",
        context_window
    );
}

#[test]
fn test_is_context_overflow_google_format() {
    let error = PiError::provider("exceeds maximum input tokens");
    assert!(
        is_context_overflow(&error),
        "Google's 'exceeds maximum input tokens' should be detected"
    );
}

#[test]
fn test_is_context_overflow_google_format_2() {
    let error = PiError::provider("input token count exceeds the maximum");
    assert!(
        is_context_overflow(&error),
        "Google's 'input token count exceeds the maximum' should be detected"
    );
}

#[test]
fn test_try_compact_signature_requires_context_tokens() {
    let messages = vec![Message {
        role: Role::User,
        content: Some(MessageContent::Text("hello world".to_string())),
        tool_calls: None,
        tool_call_id: None,
        name: None,
    }];
    let expected_tokens = estimate_context_tokens(&messages, None);
    assert!(
        expected_tokens > 0,
        "Token estimation must return positive value"
    );
}

#[test]
fn test_compaction_trigger_consistent_with_try_compact() {
    let settings = CompactionSettings {
        reserve_tokens: 16_384,
        keep_recent_tokens: 20_000,
        enabled: true,
        ..Default::default()
    };
    let big_text = "x".repeat(100_000);
    let messages: Vec<Message> = (0..8)
        .map(|_| Message {
            role: Role::User,
            content: Some(MessageContent::Text(big_text.clone())),
            tool_calls: None,
            tool_call_id: None,
            name: None,
        })
        .collect();
    let context_tokens = estimate_context_tokens(&messages, None);
    let context_window = 200_000u32;
    if should_compact(context_tokens, context_window, &settings) {
        assert!(
            context_tokens > context_window - settings.reserve_tokens,
            "should_compact and try_compact must see same token count"
        );
    }
}

#[test]
fn test_is_context_overflow_false_positive_rate_limit() {
    let error = PiError::provider("Rate limit exceeded. Too many requests, please retry after 60 seconds.");
    assert!(
        !is_context_overflow(&error),
        "Rate limit error should NOT be detected as context overflow"
    );
}

#[test]
fn test_is_context_overflow_false_positive_generic_token_mention() {
    let error = PiError::provider("The token limit for this API key has been reached. Please upgrade.");
    assert!(
        !is_context_overflow(&error),
        "API key token limit error should NOT be detected as context overflow"
    );
}

#[test]
fn test_is_context_overflow_false_positive_request_body_too_large() {
    let error =
        PiError::provider("Request body too large. Maximum allowed size is 10MB.");
    assert!(
        !is_context_overflow(&error),
        "Request body size limit should NOT be context overflow"
    );
}

#[test]
fn test_is_context_overflow_true_positive_openai_verbose() {
    let error = PiError::provider("This model's maximum context length is 128000 tokens. \
         However, your messages resulted in 150000 tokens.");
    assert!(is_context_overflow(&error), "OpenAI overflow must match");
}

#[test]
fn test_is_context_overflow_true_positive_anthropic_verbose() {
    let error =
        PiError::provider("prompt is too long: 200000 tokens > 180000 maximum");
    assert!(is_context_overflow(&error), "Anthropic overflow must match");
}

#[test]
fn test_is_context_overflow_case_insensitive() {
    let error = PiError::provider("CONTEXT_LENGTH_EXCEEDED");
    assert!(
        is_context_overflow(&error),
        "Uppercase context overflow must match"
    );
}

#[test]
fn test_is_context_overflow_empty_message() {
    let error = PiError::provider("");
    assert!(
        !is_context_overflow(&error),
        "Empty error message must not match"
    );
}

#[test]
fn test_is_context_overflow_too_long_without_context() {
    let error = PiError::provider("Your request is too long for processing.");
    assert!(
        !is_context_overflow(&error),
        "'too long' without 'context' must not match"
    );
}

#[test]
fn test_is_context_overflow_context_config_invalid() {
    let error = PiError::provider("context configuration invalid");
    assert!(
        !is_context_overflow(&error),
        "Non-overflow context error must not match"
    );
}

#[test]
fn test_compaction_retries_resets_after_success() {
    let mut messages: Vec<Message> = (0..10u32)
        .map(|i| {
            text_message(
                if i % 2 == 0 { Role::User } else { Role::Assistant },
                &format!("msg {i}: {}", "y".repeat(1000)),
            )
        })
        .collect();

    let config = AgentLoopConfig {
        max_tool_rounds: 20,
        stream: false,
        compaction: Some(CompactionSettings {
            reserve_tokens: 100,
            keep_recent_tokens: 1250,
            enabled: true,
            ..Default::default()
        }),
    };

    let big = "x".repeat(6000);
    let mut call = 0;
    let mut events = Vec::new();
    let result = run_agent_loop(
        || {
            call += 1;
            match call - 1 {
                0 | 3 | 6 => Err(PiError::provider("context_length_exceeded")),
                1 | 4 | 7 => Ok(text_response(
                    "Summary of conversation",
                    FinishReason::Stop,
                    usage(10, 5, 15),
                )),
                2 | 5 | 8 => Ok(tool_response("call_1", "big_tool", usage(10, 5, 15))),
                9 => Ok(text_response(
                    "after 3rd compaction",
                    FinishReason::Stop,
                    usage(10, 5, 15),
                )),
                other => panic!("Unexpected call #{other}"),
            }
        },
        &mut messages,
        &[("big_tool", &big)],
        &config,
        Some(1000),
        &mut events,
    );

    let compaction_count = events
        .iter()
        .filter(|e| matches!(e, AgentEvent::CompactionTriggered { .. }))
        .count();

    assert_eq!(
        compaction_count, 3,
        "Expected 3 compaction attempts (retries should reset after success), \
         but got {compaction_count}. compaction_retries never resets."
    );

    assert!(
        result.is_ok(),
        "Agent loop should succeed after compaction retries, but got: {:?}",
        result.err()
    );
}

#[test]
fn test_streaming_finish_reason_error_propagated() {
    let mut messages = vec![text_message(Role::User, "Hi")];
    let config = AgentLoopConfig {
        max_tool_rounds: 1,
        stream: true,
        compaction: None,
    };

    let mut events = Vec::new();
    let result = run_agent_loop(
        || {
            Ok(Answer::Chunks(vec![
                chunk(Some("Hello"), None, None),
                chunk(None, Some(FinishReason::ContentFilter), None),
            ]))
        },
        &mut messages,
        &[],
        &config,
        Some(1000),
        &mut events,
    );

    assert!(
        result.is_err(),
        "Agent loop should return error when finish_reason is ContentFilter, \
         but it completed Ok. finish_reason is silently discarded."
    );
}

#[test]
fn test_streaming_length_finish_reason_returns_error() {
    let mut messages = vec![text_message(Role::User, "Hi")];
    let config = AgentLoopConfig {
        max_tool_rounds: 1,
        stream: true,
        compaction: None,
    };

    let mut events = Vec::new();
    let result = run_agent_loop(
        || {
            Ok(Answer::Chunks(vec![chunk(
                Some("Partial"),
                Some(FinishReason::Length),
                None,
            )]))
        },
        &mut messages,
        &[],
        &config,
        Some(1000),
        &mut events,
    );

    let expected = PiError::provider("Response hit max tokens before completion");
    assert!(
        matches!(&result, Err(e) if e.to_text() == expected.to_text()),
        "Agent loop should reject truncated streaming responses, got: {result:?}"
    );
    assert_eq!(
        messages.len(),
        1,
        "Partial assistant message must not be saved"
    );
}

#[test]
fn test_non_streaming_length_finish_reason_returns_error() {
    let mut messages = vec![text_message(Role::User, "Hi")];
    let config = AgentLoopConfig {
        max_tool_rounds: 1,
        stream: false,
        compaction: None,
    };

    let mut events = Vec::new();
    let result = run_agent_loop(
        || {
            Ok(text_response(
                "Partial",
                FinishReason::Length,
                usage(1, 1, 2),
            ))
        },
        &mut messages,
        &[],
        &config,
        Some(1000),
        &mut events,
    );

    let expected = PiError::provider("Response hit max tokens before completion");
    assert!(
        matches!(&result, Err(e) if e.to_text() == expected.to_text()),
        "Agent loop should reject truncated non-streaming responses, got: {result:?}"
    );
    assert_eq!(
        messages.len(),
        1,
        "Partial assistant message must not be saved"
    );
}

#[test]
fn test_compaction_uses_usage_based_estimation() {
    let mut messages = vec![text_message(Role::User, "hello")];
    let config = AgentLoopConfig {
        max_tool_rounds: 10,
        stream: false,
        compaction: Some(CompactionSettings::default()),
    };

    let mut call = 0;
    let mut events = Vec::new();
    let _ = run_agent_loop(
        || {
            call += 1;
            match call - 1 {
                0 => Ok(tool_response("call_1", "echo", usage(100_000, 50_000, 150_000))),
                1 => Ok(text_response("Done", FinishReason::Stop, usage(10, 5, 15))),
                other => panic!("Unexpected call #{other}"),
            }
        },
        &mut messages,
        &[("echo", "ok")],
        &config,
        Some(1000),
        &mut events,
    );

    let compaction_triggered = events
        .iter()
        .any(|e| matches!(e, AgentEvent::CompactionTriggered { .. }));

    assert!(
        compaction_triggered,
        "Compaction should trigger when provider usage (150000 tokens) \
         exceeds threshold (111616 tokens)."
    );
}

#[test]
fn test_multi_turn_cumulative_usage_triggers_premature_compaction() {
    let mut messages: Vec<Message> = (0..3u32)
        .map(|i| text_message(Role::User, &format!("msg {i}")))
        .collect();

    let config = AgentLoopConfig {
        max_tool_rounds: 10,
        stream: false,
        compaction: Some(CompactionSettings {
            reserve_tokens: 1000,
            keep_recent_tokens: 20,
            enabled: true,
            context_window: Some(29_000),
        }),
    };

    let mut call = 0;
    let mut events = Vec::new();
    let _ = run_agent_loop(
        || {
            call += 1;
            if call <= 8 {
                Ok(tool_response(
                    &format!("call_{}", call - 1),
                    "noop",
                    usage(4000, 1000, 5000),
                ))
            } else {
                Ok(text_response("done", FinishReason::Stop, usage(4000, 1000, 5000)))
            }
        },
        &mut messages,
        &[("noop", "ok")],
        &config,
        Some(30_000),
        &mut events,
    );

    let compaction_triggered = events
        .iter()
        .any(|e| matches!(e, AgentEvent::CompactionTriggered { .. }));

    assert!(
        !compaction_triggered,
        "Per-turn usage (5000) should not trigger compaction with context_window=29000"
    );
}

#[test]
fn test_context_window_should_be_configurable() {

    let settings = CompactionSettings {
        reserve_tokens: 16_384,
        keep_recent_tokens: 20_000,
        enabled: true,
        context_window: Some(200_000),
    };
    assert_eq!(settings.context_window, Some(200_000));
}

#[test]
fn test_context_window_defaults_to_none() {
    let settings = CompactionSettings::default();
    assert_eq!(settings.context_window, None);
}

#[test]
fn test_compaction_respects_configured_context_window() {

    let settings_128k = CompactionSettings {
        reserve_tokens: 16_384,
        keep_recent_tokens: 20_000,
        enabled: true,
        context_window: None,
    };
    let settings_200k = CompactionSettings {
        reserve_tokens: 16_384,
        keep_recent_tokens: 20_000,
        enabled: true,
        context_window: Some(200_000),
    };

    let context_tokens = 160_000u32;

    assert!(
        should_compact(context_tokens, 128_000, &settings_128k),
        "160k tokens should trigger compaction with 128k window"
    );

    assert!(
        !should_compact(context_tokens, 200_000, &settings_200k),
        "160k tokens should NOT trigger compaction with 200k window"
    );
}

#[test]
fn test_is_context_overflow_mistral_format() {
    let error =
        PiError::provider("The model's maximum context length is 32768 tokens");
    assert!(
        is_context_overflow(&error),
        "Mistral format should be detected"
    );
}

#[test]
fn test_is_context_overflow_cohere_format() {
    let error = PiError::provider("context: too many tokens for the model");
    assert!(
        is_context_overflow(&error),
        "Cohere format should be detected"
    );
}

#[test]
fn test_is_context_overflow_ambiguous_rate_limit() {
    let error =
        PiError::provider("Request rate limit exceeded. Context: API quota.");
    let matched = is_context_overflow(&error);
    assert!(
        matched,
        "Known false positive: 'context' + 'exceeded' matches rate limit errors."
    );
}

#[test]
fn test_is_context_overflow_boundary_exact_match() {
    let error = PiError::provider("context window");
    assert!(
        is_context_overflow(&error),
        "'context window' alone should match"
    );
}

#[test]
fn test_apply_compaction_escapes_summary_tags() {
    let mut messages = vec![Message {
        role: Role::User,
        content: Some(MessageContent::Text("hello".to_string())),
        tool_calls: None,
        tool_call_id: None,
        name: None,
    }];
    let result = CompactionResult {
        summary: "Before </summary> after <script>".to_string(),
        first_kept_message_index: 1,
        tokens_before: 100,
        tokens_after: 50,
    };
    apply_compaction(&mut messages, &result);
    let text = match &messages[0].content {
        Some(MessageContent::Text(t)) => t.clone(),
        _ => panic!("Expected text"),
    };
    assert!(
        text.contains("&lt;/summary&gt;"),
        "Should escape tags in summary content"
    );
}

fn run_compaction_test() -> (Vec<Message>, Vec<AgentEvent>) {
    let big_text = "x".repeat(1000);
    let mut messages: Vec<Message> = (0..10u32)
        .map(|i| {
            text_message(
                if i % 2 == 0 { Role::User } else { Role::Assistant },
                &format!("msg {i}: {big_text}"),
            )
        })
        .collect();

    let config = AgentLoopConfig {
        max_tool_rounds: 1,
        stream: false,
        compaction: Some(CompactionSettings {
            reserve_tokens: 100,
            keep_recent_tokens: 1250,
            enabled: true,
            ..Default::default()
        }),
    };
    let mut call = 0;
    let mut events = Vec::new();
    let _ = run_agent_loop(
        || {
            call += 1;
            match call - 1 {
                0 => Err(PiError::provider("context_length_exceeded")),
                1 => Ok(text_response(
                    "Compacted summary of conversation",
                    FinishReason::Stop,
                    usage(10, 5, 15),
                )),
                2 => Ok(text_response("done", FinishReason::Stop, usage(10, 5, 15))),
                other => panic!("Unexpected call #{other}"),
            }
        },
        &mut messages,
        &[],
        &config,
        Some(1000),
        &mut events,
    );
    (messages, events)
}

#[test]
fn test_compaction_reduces_tokens() {
    let (_, events) = run_compaction_test();

    let tokens_before = events
        .iter()
        .find_map(|e| match e {
            AgentEvent::CompactionTriggered { tokens_before } => Some(*tokens_before),
            _ => None,
        })
        .expect("Should have CompactionTriggered event");

    let tokens_after = events
        .iter()
        .find_map(|e| match e {
            AgentEvent::CompactionComplete { result } => Some(result.tokens_after),
            _ => None,
        })
        .expect("Should have CompactionComplete event");

    assert!(
        tokens_before > tokens_after,
        "Compaction should reduce tokens: before={}, after={}",
        tokens_before,
        tokens_after,
    );
}

#[test]
fn test_compaction_summary_content() {
    let (messages, _) = run_compaction_test();

    assert!(
        messages.len() >= 2,
        "After compaction, should have summary + kept messages, got {} messages",
        messages.len(),
    );

    let summary_text = match &messages[0].content {
        Some(MessageContent::Text(t)) => t.clone(),
        _ => panic!("Expected summary as text"),
    };
    assert!(!summary_text.is_empty(), "Summary should be non-empty");
    assert!(
        summary_text.contains("Compacted summary of conversation"),
        "Summary should contain the provider's summary text"
    );
}

#[test]
fn test_apply_compaction_keeps_bare_tool_after_split() {

    let mut msgs = vec![
        Message {
            role: Role::User,
            content: Some(MessageContent::Text("first".to_string())),
            tool_calls: None,
            tool_call_id: None,
            name: None,
        },
        Message {
            role: Role::Assistant,
            content: None,
            tool_calls: Some(vec![ToolCall {
                id: "c1".to_string(),
                function: FunctionCall {
                    name: "read_file".to_string(),
                    arguments: "{}".to_string(),
                },
            }]),
            tool_call_id: None,
            name: None,
        },
        Message {
            role: Role::Tool,
            content: Some(MessageContent::Text("contents".to_string())),
            tool_calls: None,
            tool_call_id: Some("c1".to_string()),
            name: None,
        },
        Message {
            role: Role::User,
            content: Some(MessageContent::Text("second".to_string())),
            tool_calls: None,
            tool_call_id: None,
            name: None,
        },
        Message {
            role: Role::Assistant,
            content: None,
            tool_calls: Some(vec![ToolCall {
                id: "c2".to_string(),
                function: FunctionCall {
                    name: "run_cmd".to_string(),
                    arguments: "{}".to_string(),
                },
            }]),
            tool_call_id: None,
            name: None,
        },
        Message {
            role: Role::Tool,
            content: Some(MessageContent::Text("output".to_string())),
            tool_calls: None,
            tool_call_id: Some("c2".to_string()),
            name: None,
        },
    ];

    let result = CompactionResult {
        summary: "Previous conversation summary".to_string(),
        first_kept_message_index: 4,
        tokens_before: 100,
        tokens_after: 50,
    };

    apply_compaction(&mut msgs, &result);

    assert_eq!(
        msgs[0].role,
        Role::User,
        "First message should be the summary"
    );
    let summary_text = match &msgs[0].content {
        Some(MessageContent::Text(t)) => t,
        _ => panic!("Expected summary text"),
    };
    assert!(
        summary_text.contains("Previous conversation summary"),
        "Summary text should be present"
    );

    assert_eq!(
        msgs[1].role,
        Role::Assistant,
        "First kept message is Assistant with tool_calls (not bare Tool)"
    );
    assert!(
        msgs[1].tool_calls.as_ref().is_some_and(|tc| !tc.is_empty()),
        "First kept Assistant should have tool_calls"
    );

    assert_eq!(
        msgs[2].role,
        Role::Tool,
        "Second kept message is Tool result"
    );

    assert_eq!(
        msgs.len(),
        3,
        "Kept context: summary + assistant(tool_calls) + tool result"
    );

    let has_assistant_with_tool_calls = msgs.iter().any(|m| {
        m.role == Role::Assistant && m.tool_calls.as_ref().is_some_and(|tc| !tc.is_empty())
    });
    assert!(
        has_assistant_with_tool_calls,
        "Assistant with tool_calls must be present — tool result is not orphaned"
    );
}

#[test]
fn test_double_compaction_stale_vs_fixed_compaction_state() {

    let big_text = "x".repeat(2000);
    let messages: Vec<Message> = (0..10u32)
        .map(|i| Message {
            role: Role::User,
            content: Some(MessageContent::Text(format!("msg {i}: {big_text}"))),
            tool_calls: None,
            tool_call_id: None,
            name: None,
        })
        .collect();

    let settings = CompactionSettings {
        keep_recent_tokens: 1500,
        ..Default::default()
    };

    let prep1 = prepare_compaction(&messages, &settings, None).unwrap();
    let stale_first_kept = prep1.first_kept_message_index;
    assert!(stale_first_kept > 0, "Should compact some messages");
    assert!(stale_first_kept < messages.len(), "Should keep some messages");

    let mut compacted: Vec<Message> = Vec::new();
    compacted.push(Message {
        role: Role::User,
        content: Some(MessageContent::Text("<summary>old conversation</summary>".to_string())),
        tool_calls: None,
        tool_call_id: None,
        name: None,
    });
    compacted.extend(messages[stale_first_kept..].iter().cloned());

    compacted.push(Message {
        role: Role::User,
        content: Some(MessageContent::Text(format!("new msg: {big_text}"))),
        tool_calls: None,
        tool_call_id: None,
        name: None,
    });

    let prep_buggy = prepare_compaction(&compacted, &settings, Some(stale_first_kept));
    assert!(
        prep_buggy.is_none(),
        "Stale index {stale_first_kept} on {len}-element array should fail \
         because find_cut_point returns None when messages.len() <= start",
        len = compacted.len()
    );

    let fixed_first_kept = 1usize;
    let prep_fixed = prepare_compaction(&compacted, &settings, Some(fixed_first_kept));
    assert!(
        prep_fixed.is_some(),
        "With fixed previous_first_kept_index=1, second compaction \
         should find a cut point on {len}-element array.",
        len = compacted.len()
    );

    let prep_fixed = prep_fixed.unwrap();
    assert!(
        !prep_fixed.messages_to_summarize.is_empty(),
        "Fixed compaction should have messages to summarize.",
    );
    let first_msg = &prep_fixed.messages_to_summarize[0];
    let first_text = match &first_msg.content {
        Some(MessageContent::Text(t)) => t.clone(),
        _ => String::new(),
    };
    assert!(
        first_text.contains("<summary>"),
        "Fixed compaction should include the summary message in to-summarize. \
         Got: {first_text}",
    );
}

#[test]
fn streamed_calls_are_put_together() {
    let delta = |index: u32, id: Option<&str>, name: Option<&str>, args: Option<&str>| {
        ToolCallDelta {
            index,
            id: id.map(str::to_string),
            name: name.map(str::to_string),
            arguments_delta: args.map(str::to_string),
        }
    };
    let mut stream = StreamState::new();
    let mut first = chunk(Some("Let me"), None, None);
    first.tool_calls = vec![delta(0, Some("c0"), Some("ls"), None)];
    let events = stream.push_chunk(&first);
    assert!(matches!(&events[0], AgentEvent::TextDelta { text } if text == "Let me"));
    assert!(matches!(&events[1], AgentEvent::ToolCallStart { id, name } if id == "c0" && name == "ls"));
    let mut second = chunk(None, None, None);
    second.tool_calls = vec![
        delta(0, None, None, Some("{\"a\"")),
        delta(1, None, None, Some("lost")),
        delta(0, None, None, Some(":1}")),
    ];
    let events = stream.push_chunk(&second);
    assert_eq!(events.len(), 2);
    stream.push_chunk(&chunk(None, Some(FinishReason::ToolCalls), None));
    let message = stream.message();
    assert_eq!(extract_text(&message.content), "Let me");
    let calls = message.tool_calls.unwrap();
    assert_eq!(calls.len(), 1);
    assert_eq!(calls[0].id, "c0");
    assert_eq!(calls[0].function.arguments, "{\"a\":1}");
}

#[test]
fn rounds_are_bounded() {
    let config = AgentLoopConfig {
        max_tool_rounds: 2,
        stream: false,
        compaction: None,
    };
    let mut messages = vec![text_message(Role::User, "go")];
    let mut events = Vec::new();
    let result = run_agent_loop(
        || Ok(tool_response("c", "missing", usage(1, 1, 2))),
        &mut messages,
        &[],
        &config,
        None,
        &mut events,
    );
    assert_eq!(
        result.unwrap_err().to_text(),
        PiError::Tool {
            tool: "agent_loop".to_string(),
            message: "Exceeded maximum tool call rounds (2)".to_string(),
        }
        .to_text()
    );
    let ended: Vec<&AgentEvent> = events
        .iter()
        .filter(|e| matches!(e, AgentEvent::ToolExecutionEnd { .. }))
        .collect();
    assert_eq!(ended.len(), 2);
    assert!(matches!(
        ended[0],
        AgentEvent::ToolExecutionEnd { result, is_error: true, .. }
            if result == "Error: Unknown tool 'missing'"
    ));
    assert_eq!(messages.len(), 6);
    assert_eq!(messages[2].tool_call_id.as_deref(), Some("c"));
    assert_eq!(messages[2].name.as_deref(), Some("missing"));
}

#[test]
fn failed_tools_and_bad_arguments_are_told() {
    let mut state = LoopState::new(vec![]);
    let call = ToolCall {
        id: "c".to_string(),
        function: FunctionCall {
            name: "t".to_string(),
            arguments: "{\"a\": [1]}".to_string(),
        },
    };
    match state.start_tool(&call) {
        AgentEvent::ToolExecutionStart { arguments, .. } => {
            assert_eq!(
                arguments.get("a").unwrap().as_array().unwrap()[0].as_u64(),
                Some(1)
            );
        }
        other => panic!("unexpected event: {other:?}"),
    }
    let error = PiError::provider("broken");
    let expected = format!("Error: {}", error.to_text());
    match state.finish_tool(&call, Some(Err(error))) {
        AgentEvent::ToolExecutionEnd { result, is_error, .. } => {
            assert!(is_error);
            assert_eq!(result, expected);
        }
        other => panic!("unexpected event: {other:?}"),
    }
    assert_eq!(read_or_null(Err("bad".to_string())), Json::Null);
    assert_eq!(read_or_null(Ok(Json::Bool(true))), Json::Bool(true));
}

#[test]
fn conversation_too_large_to_count_has_no_size() {
    let mut state = LoopState::new(vec![
        text_message(Role::Assistant, "x"),
        text_message(Role::User, "x"),
    ]);
    state.last_turn_usage = Some(usage(0, 0, u32::MAX));
    let config = AgentLoopConfig {
        max_tool_rounds: 1,
        stream: false,
        compaction: Some(CompactionSettings::default()),
    };
    assert!(estimate_tokens(&state.messages[1]) > 0);
    assert_eq!(state.compaction_due(&config, 128_000), None);
    state.messages.pop();
    assert_eq!(state.compaction_due(&config, 128_000), Some(Some(u32::MAX)));
}

#[test]
fn window_is_configured_or_at_least_the_default() {
    let mut config = AgentLoopConfig::default();
    config.compaction = Some(CompactionSettings::default());
    assert_eq!(context_window(&config, Some(4096)), 128_000);
    assert_eq!(context_window(&config, None), 128_000);
    assert_eq!(context_window(&config, Some(500_000)), 500_000);
    config.compaction = Some(CompactionSettings {
        context_window: Some(9),
        ..CompactionSettings::default()
    });
    assert_eq!(context_window(&config, Some(500_000)), 9);
}

#[test]
fn reasons_that_are_errors() {
    assert!(finish_reason_error(None).is_none());
    assert!(finish_reason_error(Some(FinishReason::Stop)).is_none());
    assert!(finish_reason_error(Some(FinishReason::ToolCalls)).is_none());
    assert_eq!(
        finish_reason_error(Some(FinishReason::ContentFilter)).unwrap().to_text(),
        PiError::provider("Content filtered by model").to_text()
    );
}

#[test]
fn overflow_is_read_in_lower_case() {
    assert!(mentions_overflow("maximum number of tokens allowed"));
    assert!(!mentions_overflow("CONTEXT WINDOW"));
    assert!(is_context_overflow(&PiError::provider("CONTEXT WINDOW")));
}

#[test]
fn summary_message_is_exact() {
    let message = create_compaction_summary_message("a <b>");
    assert_eq!(message.role, Role::User);
    assert_eq!(
        extract_text(&message.content),
        "The conversation history before this point was compacted into the following \
         summary:\n\n<summary>\na &lt;b&gt;\n</summary>"
    );
}

#[test]
fn disabled_compaction_is_not_attempted() {
    for compaction in [
        None,
        Some(CompactionSettings {
            enabled: false,
            ..CompactionSettings::default()
        }),
    ] {
        let config = AgentLoopConfig {
            max_tool_rounds: 5,
            stream: false,
            compaction,
        };
        let before = vec![text_message(Role::User, "Hi")];
        let mut messages = before.clone();
        let mut events = Vec::new();
        let mut asked = 0;
        let result = run_agent_loop(
            || {
                asked += 1;
                Err(PiError::provider("context_length_exceeded"))
            },
            &mut messages,
            &[],
            &config,
            None,
            &mut events,
        );
        assert!(is_context_overflow(&result.unwrap_err()));
        assert_eq!(asked, 1);
        assert_eq!(messages, before);
        assert_eq!(events.len(), 1);
        assert!(matches!(events[0], AgentEvent::TurnStart { turn: 0 }));
    }
}

#[test]
fn broken_response_ends_the_loop() {
    let config = AgentLoopConfig {
        max_tool_rounds: 5,
        stream: true,
        compaction: Some(CompactionSettings::default()),
    };
    let overflow = || PiError::provider("context_length_exceeded");
    let mut state = LoopState::new(vec![text_message(Role::User, "Hi")]);
    let (events, step) = state.after_provider(&config, ProviderAnswer::Broken(overflow()));
    assert!(events.is_empty());
    assert!(matches!(step, LoopStep::Failed(_)));
    let (events, step) = state.after_provider(&config, ProviderAnswer::Refused(overflow()));
    assert_eq!(events.len(), 1);
    assert!(matches!(step, LoopStep::Compact(_)));
}

#[test]
fn streamed_calls_come_in_the_order_of_their_indices() {
    let fragment = |index: u32, id: &str| ToolCallDelta {
        index,
        id: Some(id.to_string()),
        name: Some("ls".to_string()),
        arguments_delta: None,
    };
    let mut stream = StreamState::new();
    for (index, id) in [(4, "e"), (1, "b"), (0, "a"), (2, "c")] {
        let mut next = chunk(None, None, None);
        next.tool_calls = vec![fragment(index, id)];
        stream.push_chunk(&next);
    }
    let mut more = chunk(None, Some(FinishReason::ToolCalls), None);
    more.tool_calls = vec![ToolCallDelta {
        index: 1,
        id: None,
        name: None,
        arguments_delta: Some("{}".to_string()),
    }];
    stream.push_chunk(&more);
    let calls = stream.message().tool_calls.unwrap();
    let ids: Vec<&str> = calls.iter().map(|call| call.id.as_str()).collect();
    assert_eq!(ids, vec!["a", "b", "c", "e"]);
    assert_eq!(calls[1].function.arguments, "{}");
}

#[test]
fn whole_run_keeps_messages_and_answers_calls() {
    let config = AgentLoopConfig {
        max_tool_rounds: 2,
        stream: false,
        compaction: None,
    };
    let run = |replies: usize| {
        let mut messages = vec![text_message(Role::User, "Hi")];
        let mut events = Vec::new();
        let mut asked = 0;
        let result = run_agent_loop(
            || {
                asked += 1;
                Ok(if asked <= replies {
                    tool_response(&format!("call-{asked}"), "ls", usage(1, 1, 2))
                } else {
                    text_response("done", FinishReason::Stop, usage(1, 1, 2))
                })
            },
            &mut messages,
            &[("ls", "a.rs")],
            &config,
            None,
            &mut events,
        );
        (result, messages)
    };
    let (result, messages) = run(2);
    assert!(result.is_ok());
    assert_eq!(messages.len(), 6);
    assert_eq!(messages[0], text_message(Role::User, "Hi"));
    assert_eq!(messages[2].tool_call_id.as_deref(), Some("call-1"));
    assert_eq!(messages[4].tool_call_id.as_deref(), Some("call-2"));
    assert!(messages[5].tool_calls.is_none());
    let (result, messages) = run(3);
    assert!(result.is_err());
    assert_eq!(messages.len(), 6);
    assert!(messages[5].tool_calls.is_some());
}

#[test]
fn compacted_run_keeps_results_and_reports_its_end_once() {
    let mut messages: Vec<Message> = (0..6u32)
        .map(|i| {
            text_message(
                if i % 2 == 0 { Role::User } else { Role::Assistant },
                &format!("msg {i}: {}", "y".repeat(1000)),
            )
        })
        .collect();
    let before = messages.clone();
    let config = AgentLoopConfig {
        max_tool_rounds: 5,
        stream: false,
        compaction: Some(CompactionSettings {
            reserve_tokens: 100,
            keep_recent_tokens: 300,
            enabled: true,
            ..Default::default()
        }),
    };
    let mut call = 0;
    let mut events = Vec::new();
    let result = run_agent_loop(
        || {
            call += 1;
            match call {
                1 => Ok(tool_response("call-1", "ls", usage(1, 1, 2))),
                2 => Err(PiError::provider("context_length_exceeded")),
                3 => Ok(text_response("a summary", FinishReason::Stop, usage(1, 1, 2))),
                4 => Ok(text_response("done", FinishReason::Stop, usage(1, 1, 2))),
                other => panic!("unexpected request {other}"),
            }
        },
        &mut messages,
        &[("ls", "a.rs")],
        &config,
        None,
        &mut events,
    );
    assert!(result.is_ok());

    // The summary, a tail of what was said before, the call with its result, the reply.
    assert_eq!(messages[0], create_compaction_summary_message("a summary"));
    let n = messages.len();
    assert_eq!(messages[n - 3].tool_calls.as_ref().unwrap()[0].id, "call-1");
    assert_eq!(messages[n - 2].tool_call_id.as_deref(), Some("call-1"));
    assert!(messages[n - 1].tool_calls.is_none());
    let kept = &messages[1..n - 3];
    assert!(kept.len() < before.len());
    assert_eq!(kept, &before[before.len() - kept.len()..]);

    let done: Vec<usize> = events
        .iter()
        .enumerate()
        .filter(|(_, e)| matches!(e, AgentEvent::Done { .. }))
        .map(|(i, _)| i)
        .collect();
    assert_eq!(done, vec![events.len() - 1]);
    match events.last() {
        Some(AgentEvent::Done { turns, total_usage }) => {
            assert_eq!(*turns, 2);
            assert_eq!(*total_usage, usage(2, 2, 4));
        }
        _ => panic!("the last event is not Done"),
    }
}
