use rpi::anthropic::{
    anthropic_sse_to_chunks, build_request, content_to_anthropic_blocks, detect_anthropic_compat, extract_text_content,
    finish_anthropic_stream, normalize_anthropic_tool_call_id, parse_full_response,
    parse_stop_reason, process_anthropic_event, to_anthropic_messages, tool_input,
    AnthropicContentBlockStart, AnthropicContentValue, AnthropicDelta, AnthropicInput, AnthropicPayload,
    AnthropicProvider, AnthropicResponse, AnthropicResponseContent, AnthropicStreamState,
    AnthropicUsage, ContentBlockDeltaEvent, ContentBlockStartEvent, MessageDeltaEvent,
};
use rpi::error::{PiError, ProviderError};
use rpi::json::Json;
use rpi::json_stream::parse_json_with_repair;
use rpi::streaming::SseEvent;
use rpi::types::{
    AgentConfig, ContentBlock, FinishReason, FunctionCall, Message, MessageContent, ModelId, Role,
    ToolCall, ToolDefinition,
};

fn test_config() -> AgentConfig {
    AgentConfig {
        model: ModelId::new("anthropic", "sonnet"),
        max_tokens: None,
        temperature: None,
        system_prompt: None,
        max_iterations: 10,
    }
}

fn assistant_tool_call(id: &str, name: &str) -> Message {
    Message {
        role: Role::Assistant,
        content: None,
        tool_calls: Some(vec![ToolCall {
            id: id.to_string(),
            function: FunctionCall {
                name: name.to_string(),
                arguments: r#"{"path":"README.md"}"#.to_string(),
            },
        }]),
        tool_call_id: None,
        name: None,
    }
}

fn user_message(content: &str) -> Message {
    Message {
        role: Role::User,
        content: Some(MessageContent::Text(content.to_string())),
        tool_calls: None,
        tool_call_id: None,
        name: None,
    }
}

#[test]
fn chat_sends_messages_request_and_parses_mock_response() {
    let provider = AnthropicProvider::with_base_url("http://127.0.0.1:9", "test-key");

    assert_eq!(provider.messages_url(), "http://127.0.0.1:9/v1/messages");
    let headers = provider.build_headers().unwrap();
    assert!(headers.contains(&("x-api-key".to_string(), "test-key".to_string())));
    assert!(headers.contains(&("anthropic-version".to_string(), "2023-06-01".to_string())));
    let request = build_request(
        "sonnet",
        &vec![user_message("Say hello")],
        &vec![],
        &test_config(),
        false,
    );
    assert_eq!(request.model, "sonnet");
    assert!(!request.stream);

    let response = parse_full_response(&AnthropicResponse {
        id: "msg_mock".to_string(),
        content: vec![AnthropicResponseContent::Text {
            text: "hello from anthropic mock".to_string(),
        }],
        stop_reason: Some("end_turn".to_string()),
        usage: AnthropicUsage {
            input_tokens: 5,
            output_tokens: 4,
        },
    });
    assert!(matches!(response.finish_reason, FinishReason::Stop));
    assert_eq!(response.usage.total_tokens, 9);
    let Some(MessageContent::Text(text)) = response.message.content else {
        panic!("expected assistant text content");
    };
    assert_eq!(text, "hello from anthropic mock");
}

#[test]
fn anthropic_chat_maps_rate_limit_status_to_structured_provider_error() {
    let body = r#"{"type":"error","error":{"message":"slow down"}}"#;
    let error = ProviderError::http_status(429, body);
    let ProviderError::RateLimited { status, body } = error else {
        panic!("expected structured rate-limit provider error, got {error:?}");
    };
    assert_eq!(status, 429);
    assert!(body.contains("slow down"));
}

#[test]
fn anthropic_sse_to_chunks_errors_when_stream_ends_before_message_stop() {
    let chunks = anthropic_sse_to_chunks(&vec![AnthropicInput::Event {
        event: event("message_start", "{}"),
        payload: no_payload(),
    }]);

    let error = chunks[0]
        .as_ref()
        .expect_err("missing message_stop should be an error");
    assert!(error.to_text().contains("ended before message_stop"));
    assert_eq!(chunks.len(), 1);
}

#[test]
fn unreadable_events_do_not_end_the_stream() {
    let part = |kind: &str| AnthropicInput::Event {
        event: event(kind, "x"),
        payload: no_payload(),
    };
    let chunks = anthropic_sse_to_chunks(&vec![
        part("content_block_delta"),
        part("message_delta"),
        part("message_stop"),
    ]);
    assert_eq!(chunks.len(), 2);
    assert!(chunks.iter().all(|c| c.is_err()));
    let failed = AnthropicInput::Failed {
        message: "reset".to_string(),
    };
    let chunks = anthropic_sse_to_chunks(&vec![part("message_stop"), failed, part("message_delta")]);
    assert_eq!(chunks.len(), 1);
    assert!(chunks[0].as_ref().unwrap_err().to_text().contains("SSE error: reset"));
}

fn event(kind: &str, data: &str) -> SseEvent {
    SseEvent {
        event: Some(kind.to_string()),
        data: data.to_string(),
        id: None,
    }
}

fn no_payload() -> AnthropicPayload {
    AnthropicPayload {
        block_start: Err("bad start".to_string()),
        block_delta: Err("bad delta".to_string()),
        message_delta: Err("bad message".to_string()),
    }
}

#[test]
fn build_request_normalizes_tool_call_ids_before_synthesizing_results() {
    let messages = vec![assistant_tool_call("call_123|fc.456/789?", "read_file")];

    let request = build_request("sonnet", &messages, &vec![], &test_config(), false);

    let AnthropicContentValue::ToolUse { id, .. } = &request.messages[0].content[0] else {
        panic!("expected assistant tool_use block");
    };
    let AnthropicContentValue::ToolResult { tool_use_id, .. } = &request.messages[1].content[0]
    else {
        panic!("expected synthetic tool_result block");
    };

    assert_eq!(id, "call_123_fc_456_789_");
    assert_eq!(tool_use_id, "call_123_fc_456_789_");
}

#[test]
fn metadata_describes_anthropic_features_and_compat() {
    let provider = AnthropicProvider::new("test-key");

    let metadata = provider.metadata();

    assert_eq!(metadata.id, "anthropic");
    assert_eq!(metadata.name, "Anthropic");
    assert_eq!(metadata.supported_apis, vec!["anthropic-messages"]);
    assert!(metadata.capabilities.vision);
    assert!(metadata.capabilities.function_calling);
    assert!(!metadata.capabilities.json_mode);
    assert!(metadata.capabilities.streaming);
    assert!(metadata.capabilities.thinking);

    let compat = metadata
        .compat
        .anthropic
        .expect("anthropic compat should be set");
    assert_eq!(compat.supports_eager_tool_input_streaming, Some(true));
    assert_eq!(compat.supports_long_cache_retention, Some(true));
    assert_eq!(compat.send_session_affinity_headers, Some(false));
    assert_eq!(compat.supports_cache_control_on_tools, Some(true));
}

#[test]
fn metadata_detects_fireworks_anthropic_compat() {
    let provider =
        AnthropicProvider::with_base_url("https://api.fireworks.ai/inference/v1", "test-key");

    let metadata = provider.metadata();

    let compat = metadata
        .compat
        .anthropic
        .expect("anthropic compat should be set");
    assert_eq!(compat.supports_eager_tool_input_streaming, Some(false));
    assert_eq!(compat.supports_long_cache_retention, Some(false));
    assert_eq!(compat.send_session_affinity_headers, Some(true));
    assert_eq!(compat.supports_cache_control_on_tools, Some(false));
}

#[test]
fn extract_text_content_excludes_thinking_blocks() {
    let blocks = vec![
        ContentBlock::Thinking {
            thinking: "let me think...".to_string(),
            thinking_signature: None,
            redacted: false,
        },
        ContentBlock::Text {
            text: "Hello!".to_string(),
        },
    ];
    let content = Some(MessageContent::Blocks(blocks));

    let result = extract_text_content(&content);

    let text = result.expect("should extract text");
    assert_eq!(text, "Hello!");
    assert!(!text.contains("let me think"));
}

#[test]
fn content_to_anthropic_blocks_serializes_thinking_as_native_block() {
    let content = Some(MessageContent::Blocks(vec![ContentBlock::Thinking {
        thinking: "I should check the weather first.".to_string(),
        thinking_signature: Some("sig123".to_string()),
        redacted: false,
    }]));

    let result = content_to_anthropic_blocks(&content);

    assert_eq!(result.len(), 1);
    match &result[0] {
        AnthropicContentValue::Thinking {
            thinking,
            signature,
        } => {
            assert_eq!(thinking, "I should check the weather first.");
            assert_eq!(signature.as_deref(), Some("sig123"));
        }
        other => panic!("Expected Thinking variant, got: {:?}", other),
    }
}

#[test]
fn content_to_anthropic_blocks_thinking_without_signature() {
    let content = Some(MessageContent::Blocks(vec![ContentBlock::Thinking {
        thinking: "Reasoning without signature.".to_string(),
        thinking_signature: None,
        redacted: false,
    }]));

    let result = content_to_anthropic_blocks(&content);

    assert_eq!(result.len(), 1);
    match &result[0] {
        AnthropicContentValue::Thinking {
            thinking,
            signature,
        } => {
            assert_eq!(thinking, "Reasoning without signature.");
            assert!(signature.is_none());
        }
        other => panic!("Expected Thinking variant, got: {:?}", other),
    }
}

#[test]
fn parse_full_response_handles_thinking_content() {
    let response = AnthropicResponse {
        id: "msg_test".to_string(),
        content: vec![
            AnthropicResponseContent::Thinking {
                thinking: "Let me reason about this.".to_string(),
                signature: Some("sig456".to_string()),
            },
            AnthropicResponseContent::Text {
                text: "Here is my answer.".to_string(),
            },
        ],
        stop_reason: Some("end_turn".to_string()),
        usage: AnthropicUsage {
            input_tokens: 10,
            output_tokens: 20,
        },
    };

    let result = parse_full_response(&response);

    match &result.message.content {
        Some(MessageContent::Text(text)) => assert_eq!(text, "Here is my answer."),
        other => panic!("Expected Text content, got: {:?}", other),
    }
    assert_eq!(result.finish_reason, FinishReason::Stop);
}

#[test]
fn build_request_round_trips_thinking_signature() {
    let messages = vec![
        Message {
            role: Role::User,
            content: Some(MessageContent::Text("What should I do?".to_string())),
            tool_calls: None,
            tool_call_id: None,
            name: None,
        },
        Message {
            role: Role::Assistant,
            content: Some(MessageContent::Blocks(vec![
                ContentBlock::Thinking {
                    thinking: "The user wants advice.".to_string(),
                    thinking_signature: Some("roundtrip_sig".to_string()),
                    redacted: false,
                },
                ContentBlock::Text {
                    text: "You should try X.".to_string(),
                },
            ])),
            tool_calls: None,
            tool_call_id: None,
            name: None,
        },
    ];
    let tools = vec![];
    let config = test_config();

    let request = build_request("sonnet-4", &messages, &tools, &config, false);

    let anthropic_messages = request.messages;
    assert_eq!(anthropic_messages.len(), 2);
    let assistant_msg = &anthropic_messages[1];
    assert_eq!(assistant_msg.role, "assistant");
    let has_thinking = assistant_msg.content.iter().any(|block| {
        matches!(block, AnthropicContentValue::Thinking { signature, .. }
            if signature.as_deref() == Some("roundtrip_sig"))
    });
    assert!(has_thinking, "Assistant message should contain thinking block with signature");

    let has_text = assistant_msg.content.iter().any(|block| {
        matches!(block, AnthropicContentValue::Text { text } if text == "You should try X.")
    });
    assert!(has_text, "Assistant message should contain text block");
}

#[test]
fn streamed_blocks_become_chunks() {
    let mut state = AnthropicStreamState::new();
    let start = AnthropicPayload {
        block_start: Ok(ContentBlockStartEvent {
            index: 1,
            content_block: AnthropicContentBlockStart::ToolUse {
                id: "t1".to_string(),
                name: "ls".to_string(),
            },
        }),
        ..no_payload()
    };
    let first = process_anthropic_event(&event("content_block_start", ""), &start, &mut state);
    let part = AnthropicPayload {
        block_delta: Ok(ContentBlockDeltaEvent {
            index: 1,
            delta: AnthropicDelta::InputJsonDelta {
                partial_json: "{\"a\"".to_string(),
            },
        }),
        ..no_payload()
    };
    let second = process_anthropic_event(&event("content_block_delta", ""), &part, &mut state);
    let text = AnthropicPayload {
        block_delta: Ok(ContentBlockDeltaEvent {
            index: 0,
            delta: AnthropicDelta::TextDelta {
                text: "hi".to_string(),
            },
        }),
        ..no_payload()
    };
    let third = process_anthropic_event(&event("content_block_delta", ""), &text, &mut state)
        .unwrap()
        .unwrap();
    assert_eq!(third.delta.as_deref(), Some("hi"));
    let calls: Vec<(Option<String>, Option<String>, Option<String>)> = [first, second]
        .into_iter()
        .flat_map(|r| r.unwrap())
        .flat_map(|c| c.tool_calls)
        .map(|c| (c.id, c.name, c.arguments_delta))
        .collect();
    assert!(calls.iter().any(|c| c.0.as_deref() == Some("t1") && c.1.as_deref() == Some("ls")));
    assert!(calls.iter().any(|c| c.2.as_deref() == Some("{\"a\"")));
    let end = AnthropicPayload {
        message_delta: Ok(MessageDeltaEvent {
            stop_reason: Some("tool_use".to_string()),
            usage: Some(AnthropicUsage {
                input_tokens: 3,
                output_tokens: 4,
            }),
        }),
        ..no_payload()
    };
    let chunk = process_anthropic_event(&event("message_delta", ""), &end, &mut state)
        .unwrap()
        .unwrap();
    assert_eq!(chunk.finish_reason, Some(FinishReason::ToolCalls));
    assert_eq!(chunk.usage.unwrap().total_tokens, 7);
    process_anthropic_event(&event("message_stop", ""), &no_payload(), &mut state).unwrap();
    assert!(finish_anthropic_stream(&state).is_none());
}

#[test]
fn unreadable_events_are_errors() {
    let mut state = AnthropicStreamState::new();
    for (kind, message) in [
        ("content_block_start", "bad start"),
        ("content_block_delta", "bad delta"),
        ("message_delta", "bad message"),
    ] {
        let error =
            process_anthropic_event(&event(kind, "x"), &no_payload(), &mut state).unwrap_err();
        assert!(error.to_text().contains(message), "unexpected error: {error:?}");
    }
    assert!(process_anthropic_event(&event("ping", "x"), &no_payload(), &mut state)
        .unwrap()
        .is_none());
}

#[test]
fn ids_are_made_valid() {
    assert_eq!(normalize_anthropic_tool_call_id("a|b.c"), "a_b_c");
    assert_eq!(normalize_anthropic_tool_call_id("ok-1_Z"), "ok-1_Z");
    assert_eq!(normalize_anthropic_tool_call_id(&"x".repeat(70)), "x".repeat(64));
}

#[test]
fn stop_reasons_are_read() {
    assert_eq!(parse_stop_reason("end_turn"), Some(FinishReason::Stop));
    assert_eq!(parse_stop_reason("max_tokens"), Some(FinishReason::Length));
    assert_eq!(parse_stop_reason("tool_use"), Some(FinishReason::ToolCalls));
}

#[test]
fn system_messages_become_the_system_prompt() {
    let system = Message {
        role: Role::System,
        ..user_message("be brief")
    };
    let (prompt, messages) = to_anthropic_messages(&vec![system, user_message("hi")]);
    assert_eq!(prompt.as_deref(), Some("be brief"));
    assert_eq!(messages.len(), 1);
    assert_eq!(messages[0].role, "user");
}

#[test]
fn unreadable_tool_arguments_are_kept_as_text() {
    let read = tool_input(Err("bad".to_string()), "not json");
    assert_ne!(read, Json::Null);
    assert_eq!(
        tool_input(parse_json_with_repair("{\"a\":1}"), "{\"a\":1}"),
        parse_json_with_repair("{\"a\":1}").unwrap()
    );
}

#[test]
fn requests_carry_tools_and_limits() {
    let tools = vec![ToolDefinition {
        name: "ls".to_string(),
        description: "List".to_string(),
        parameters: parse_json_with_repair("{\"type\":\"object\"}").unwrap(),
    }];
    let config = AgentConfig {
        max_tokens: Some(77),
        system_prompt: Some("S".to_string()),
        ..test_config()
    };
    let request = build_request("sonnet", &vec![user_message("hi")], &tools, &config, true);
    assert_eq!(request.max_tokens, 77);
    assert!(request.stream);
    assert_eq!(request.system.as_deref(), Some("S"));
    assert_eq!(request.tools.unwrap()[0].name, "ls");
    let plain = build_request("sonnet", &vec![user_message("hi")], &vec![], &test_config(), true);
    assert_eq!(plain.max_tokens, 4096);
    assert!(plain.tools.is_none());
}

#[test]
fn keys_that_are_no_header_values_are_refused() {
    let provider = AnthropicProvider::new("bad\nkey");
    assert!(matches!(provider.build_headers(), Err(PiError::Provider(_)) | Err(PiError::Config(_))));
    assert_eq!(provider.id(), "anthropic");
    assert!(AnthropicProvider::new("\u{7f}").build_headers().is_err());
    let headers = AnthropicProvider::new("é").build_headers().unwrap();
    assert!(headers.contains(&("x-api-key".to_string(), "é".to_string())));
    assert_eq!(
        detect_anthropic_compat("https://GATEWAY.ai.cloudflare.com/x/anthropic")
            .send_session_affinity_headers,
        Some(true)
    );
}
