use rpi::error::{PiError, ProviderError};
use rpi::json::Json;
use rpi::json_stream::parse_json_with_repair;
use rpi::openai::{
    build_request, content_to_openai_json, detect_openai_compat, finish_openai_stream,
    openai_sse_to_chunks, parse_finish_reason, parse_full_response, process_openai_event,
    to_openai_messages, to_stream_chunk, OpenAiChoice, OpenAiDelta, OpenAiFunctionCall,
    OpenAiFunctionDelta, OpenAiInput, OpenAiMessageResponse, OpenAiProvider, OpenAiResponse,
    OpenAiStreamChoice, OpenAiStreamChunk, OpenAiToolCall, OpenAiToolCallDelta, OpenAiUsage,
};
use rpi::streaming::SseEvent;
use rpi::types::{
    AgentConfig, ContentBlock, FinishReason, FunctionCall, Message, MessageContent, ModelId,
    OpenAiCompat, Role, ThinkingFormat, ToolCall, ToolDefinition,
};

fn json(text: &str) -> Json {
    parse_json_with_repair(text).unwrap()
}

fn test_config() -> AgentConfig {
    AgentConfig {
        model: ModelId::new("openai", "gpt-4o"),
        max_tokens: None,
        temperature: None,
        system_prompt: None,
        max_iterations: 10,
    }
}

fn assistant_tool_call(id: &str, name: &str) -> Message {
    Message {
        role: Role::Assistant,
        content: None,
        tool_calls: Some(vec![ToolCall {
            id: id.to_string(),
            function: FunctionCall {
                name: name.to_string(),
                arguments: r#"{"path":"README.md"}"#.to_string(),
            },
        }]),
        tool_call_id: None,
        name: None,
    }
}

fn user_message(content: &str) -> Message {
    Message {
        role: Role::User,
        content: Some(MessageContent::Text(content.to_string())),
        tool_calls: None,
        tool_call_id: None,
        name: None,
    }
}

fn delta(content: Option<&str>) -> OpenAiDelta {
    OpenAiDelta {
        role: None,
        content: content.map(str::to_string),
        tool_calls: None,
        reasoning_content: None,
        reasoning: None,
        reasoning_text: None,
    }
}

fn stream_chunk(delta: OpenAiDelta, finish_reason: Option<&str>) -> OpenAiStreamChunk {
    OpenAiStreamChunk {
        id: "chatcmpl-1".to_string(),
        choices: vec![OpenAiStreamChoice {
            delta: Some(delta),
            finish_reason: finish_reason.map(str::to_string),
        }],
        usage: None,
    }
}

fn input(text: &str, data: Result<OpenAiStreamChunk, String>) -> OpenAiInput {
    OpenAiInput::Event {
        event: SseEvent {
            event: None,
            data: text.to_string(),
            id: None,
        },
        data,
    }
}

#[test]
fn chat_sends_completion_request_and_parses_mock_response() {
    let provider = OpenAiProvider::with_base_url("http://127.0.0.1:9", Some("test-key"));
    assert_eq!(provider.completions_url(), "http://127.0.0.1:9/v1/chat/completions");
    let headers = provider.build_headers().unwrap();
    assert!(headers
        .iter()
        .any(|(name, value)| name == "authorization" && value == "Bearer test-key"));
    let request = build_request(
        "gpt-4o",
        &vec![user_message("Say hello")],
        &vec![],
        &test_config(),
        false,
        &provider.compat,
    );
    assert_eq!(request.get("model").unwrap().as_str(), Some("gpt-4o"));

    let response = parse_full_response(&OpenAiResponse {
        id: "chatcmpl_mock".to_string(),
        choices: vec![OpenAiChoice {
            message: Some(OpenAiMessageResponse {
                role: "assistant".to_string(),
                content: Some("hello from mock".to_string()),
                tool_calls: None,
            }),
            finish_reason: Some("stop".to_string()),
        }],
        usage: Some(OpenAiUsage {
            prompt_tokens: 4,
            completion_tokens: 3,
            total_tokens: 7,
        }),
    })
    .expect("mock chat response should parse");
    assert!(matches!(response.finish_reason, FinishReason::Stop));
    assert_eq!(response.usage.total_tokens, 7);
    let Some(MessageContent::Text(text)) = response.message.content else {
        panic!("expected assistant text content");
    };
    assert_eq!(text, "hello from mock");
}

#[test]
fn openai_chat_maps_rate_limit_status_to_structured_provider_error() {
    let error = ProviderError::http_status(429, r#"{"error":{"message":"slow down"}}"#);
    let ProviderError::RateLimited { status, body } = error else {
        panic!("expected structured rate-limit provider error, got {error:?}");
    };
    assert_eq!(status, 429);
    assert!(body.contains("slow down"));
}

#[test]
fn chat_maps_missing_choices_to_structured_malformed_response_error() {
    let error = parse_full_response(&OpenAiResponse {
        id: "chatcmpl_empty".to_string(),
        choices: vec![],
        usage: None,
    })
    .unwrap_err();
    let PiError::Provider(ProviderError::MalformedResponse { message }) = error else {
        panic!("expected structured malformed provider error, got {error:?}");
    };
    assert!(message.contains("no choices"));
}

#[test]
fn stream_without_done_yields_error() {
    let events = vec![
        input("{}", Ok(stream_chunk(delta(Some("hello")), None))),
        input("{}", Ok(stream_chunk(delta(Some(" world")), None))),
    ];

    let results = openai_sse_to_chunks(&events);

    let has_incomplete_error = results.iter().any(|r| match r {
        Err(e) => e.to_text().contains("ended before [DONE]"),
        _ => false,
    });
    assert!(
        has_incomplete_error,
        "expected error about stream ending before [DONE], got: {results:?}"
    );
}

#[test]
fn stream_with_done_does_not_yield_error() {
    let events = vec![
        input("{}", Ok(stream_chunk(delta(Some("hi")), None))),
        input("[DONE]", Err("not json".to_string())),
    ];

    let results = openai_sse_to_chunks(&events);

    assert!(
        results.iter().all(|r| r.is_ok()),
        "expected no errors, got: {results:?}"
    );
}

#[test]
fn build_request_synthesizes_missing_tool_results() {
    let messages = vec![assistant_tool_call("call_123", "read_file")];

    let request = build_request("gpt-4o", &messages, &vec![], &test_config(), false, &OpenAiCompat::default());

    let msgs = request.get("messages").unwrap().as_array().unwrap();
    assert_eq!(msgs.len(), 2);
    assert_eq!(msgs[1].get("role").unwrap().as_str().unwrap(), "tool");
    assert_eq!(msgs[1].get("tool_call_id").unwrap().as_str().unwrap(), "call_123");
    assert_eq!(
        msgs[1].get("content").unwrap().clone(),
        Json::Text("No result provided".to_string())
    );
}

#[test]
fn metadata_describes_openai_features_and_compat() {
    let provider = OpenAiProvider::new("test-key");

    let metadata = provider.metadata();

    assert_eq!(metadata.id, "openai");
    assert_eq!(metadata.name, "OpenAI");
    assert_eq!(metadata.supported_apis, vec!["openai-completions"]);
    assert!(metadata.capabilities.vision);
    assert!(metadata.capabilities.function_calling);
    assert!(metadata.capabilities.json_mode);
    assert!(metadata.capabilities.streaming);
    assert!(metadata.capabilities.thinking);

    let compat = metadata.compat.openai.expect("openai compat should be set");
    assert_eq!(compat.supports_store, Some(true));
    assert_eq!(compat.supports_developer_role, Some(true));
    assert_eq!(compat.supports_reasoning_effort, Some(true));
    assert_eq!(compat.supports_usage_in_streaming, Some(true));
    assert_eq!(
        compat.max_tokens_field.as_deref(),
        Some("max_completion_tokens")
    );
    assert_eq!(compat.supports_strict_mode, Some(true));
}

#[test]
fn metadata_detects_nonstandard_openai_compatible_urls() {
    let provider =
        OpenAiProvider::with_base_url("https://api.together.ai/v1", Some("test-key"));

    let metadata = provider.metadata();

    let compat = metadata.compat.openai.expect("openai compat should be set");
    assert_eq!(compat.supports_store, Some(false));
    assert_eq!(compat.supports_developer_role, Some(false));
    assert_eq!(compat.supports_reasoning_effort, Some(false));
    assert_eq!(compat.max_tokens_field.as_deref(), Some("max_tokens"));
    assert_eq!(compat.supports_strict_mode, Some(false));
    assert_eq!(compat.supports_long_cache_retention, Some(false));
}

#[test]
fn unknown_provider_has_no_usage_in_streaming() {
    let provider =
        OpenAiProvider::with_base_url("https://unknown-llm.example.com/v1", Some("key"));
    let metadata = provider.metadata();
    let compat = metadata.compat.openai.expect("openai compat should be set");
    assert_ne!(
        compat.supports_usage_in_streaming,
        Some(true),
        "unknown providers should not have supports_usage_in_streaming = true"
    );
}

#[test]
fn openai_native_has_usage_in_streaming() {
    let provider = OpenAiProvider::new("test-key");
    let metadata = provider.metadata();
    let compat = metadata.compat.openai.expect("openai compat should be set");
    assert_eq!(compat.supports_usage_in_streaming, Some(true));
}

#[test]
fn build_request_uses_max_tokens_field_from_compat() {
    let config = AgentConfig {
        max_tokens: Some(100),
        ..test_config()
    };

    let compat_together = OpenAiCompat {
        max_tokens_field: Some("max_tokens".to_string()),
        ..OpenAiCompat::default()
    };
    let body = build_request("gpt-4o", &vec![], &vec![], &config, false, &compat_together);
    assert!(body.get("max_tokens").is_some(), "together compat should use max_tokens");
    assert!(body.get("max_completion_tokens").is_none(), "together compat should not use max_completion_tokens");

    let compat_openai = OpenAiCompat {
        max_tokens_field: Some("max_completion_tokens".to_string()),
        ..OpenAiCompat::default()
    };
    let body = build_request("gpt-4o", &vec![], &vec![], &config, false, &compat_openai);
    assert!(body.get("max_completion_tokens").is_some(), "openai compat should use max_completion_tokens");
    assert!(body.get("max_tokens").is_none(), "openai compat should not use max_tokens");

    let compat_none = OpenAiCompat::default();
    let body = build_request("gpt-4o", &vec![], &vec![], &config, false, &compat_none);
    assert!(body.get("max_tokens").is_some(), "no compat should fall back to max_tokens");
}

#[test]
fn metadata_detects_thinking_format_per_provider() {
    let provider =
        OpenAiProvider::with_base_url("https://api.deepseek.com/v1", Some("key"));
    let compat = provider.metadata().compat.openai.unwrap();
    assert_eq!(compat.thinking_format, Some(ThinkingFormat::DeepSeek));

    let provider =
        OpenAiProvider::with_base_url("https://openrouter.ai/api/v1", Some("key"));
    let compat = provider.metadata().compat.openai.unwrap();
    assert_eq!(compat.thinking_format, Some(ThinkingFormat::OpenRouter));

    let provider =
        OpenAiProvider::with_base_url("https://api.together.xyz/v1", Some("key"));
    let compat = provider.metadata().compat.openai.unwrap();
    assert_eq!(compat.thinking_format, Some(ThinkingFormat::Together));

    let provider = OpenAiProvider::new("test-key");
    let compat = provider.metadata().compat.openai.unwrap();
    assert_eq!(compat.thinking_format, Some(ThinkingFormat::OpenAi));

    let provider =
        OpenAiProvider::with_base_url("https://unknown.example.com/v1", Some("key"));
    let compat = provider.metadata().compat.openai.unwrap();
    assert_eq!(compat.thinking_format, Some(ThinkingFormat::Unsupported));
}

#[test]
fn build_request_injects_thinking_params_for_openai_format() {
    let config = test_config();
    let compat = OpenAiCompat {
        thinking_format: Some(ThinkingFormat::OpenAi),
        ..OpenAiCompat::default()
    };
    let body = build_request("gpt-4o", &vec![], &vec![], &config, false, &compat);
    assert_eq!(body.get("reasoning_effort").unwrap().clone(), json(r#""medium""#));
}

#[test]
fn build_request_injects_thinking_params_for_deepseek_format() {
    let config = test_config();
    let compat = OpenAiCompat {
        thinking_format: Some(ThinkingFormat::DeepSeek),
        ..OpenAiCompat::default()
    };
    let body = build_request("deepseek-chat", &vec![], &vec![], &config, false, &compat);
    assert_eq!(body.get("thinking").unwrap().clone(), json(r#"{"type": "enabled"}"#));
}

#[test]
fn build_request_injects_thinking_params_for_openrouter_format() {
    let config = test_config();
    let compat = OpenAiCompat {
        thinking_format: Some(ThinkingFormat::OpenRouter),
        ..OpenAiCompat::default()
    };
    let body = build_request("model", &vec![], &vec![], &config, false, &compat);
    assert_eq!(body.get("reasoning").unwrap().clone(), json(r#"{"effort": "medium"}"#));
}

#[test]
fn build_request_no_thinking_params_when_format_is_none() {
    let config = test_config();
    let compat = OpenAiCompat {
        thinking_format: Some(ThinkingFormat::Unsupported),
        ..OpenAiCompat::default()
    };
    let body = build_request("gpt-4o", &vec![], &vec![], &config, false, &compat);
    assert!(body.get("reasoning_effort").is_none());
    assert!(body.get("thinking").is_none());
    assert!(body.get("reasoning").is_none());
}

#[test]
fn streamed_calls_and_reasons_are_read() {
    let mut with_call = delta(None);
    with_call.tool_calls = Some(vec![OpenAiToolCallDelta {
        index: 2,
        id: Some("c".to_string()),
        function: Some(OpenAiFunctionDelta {
            name: Some("ls".to_string()),
            arguments: Some("{}".to_string()),
        }),
    }]);
    let mut chunk = stream_chunk(with_call, Some("tool_calls"));
    chunk.usage = Some(OpenAiUsage {
        prompt_tokens: 1,
        completion_tokens: 2,
        total_tokens: 3,
    });
    let read = to_stream_chunk(&chunk);
    assert_eq!(read.tool_calls[0].index, 2);
    assert_eq!(read.tool_calls[0].name.as_deref(), Some("ls"));
    assert_eq!(read.tool_calls[0].arguments_delta.as_deref(), Some("{}"));
    assert_eq!(read.finish_reason, Some(FinishReason::ToolCalls));
    assert_eq!(read.usage.unwrap().total_tokens, 3);
    assert_eq!(parse_finish_reason("stop"), Some(FinishReason::Stop));
    assert_eq!(parse_finish_reason("length"), Some(FinishReason::Length));
    assert_eq!(parse_finish_reason("content_filter"), Some(FinishReason::ContentFilter));
}

#[test]
fn failures_end_the_stream() {
    let failed = OpenAiInput::Failed {
        message: "reset".to_string(),
    };
    let mut seen_done = false;
    let error = process_openai_event(&failed, &mut seen_done).unwrap_err();
    assert!(error.to_text().contains("SSE error: reset"));
    let bad = input("{", Err("eof".to_string()));
    let error = process_openai_event(&bad, &mut seen_done).unwrap_err();
    assert!(error.to_text().contains("Failed to parse stream chunk: eof"));
    assert!(!seen_done);
    assert!(finish_openai_stream(false).is_some());
    assert!(finish_openai_stream(true).is_none());
    let results = openai_sse_to_chunks(&vec![failed, input("[DONE]", Err(String::new()))]);
    assert_eq!(results.len(), 1);
}

#[test]
fn whole_calls_are_read() {
    let response = parse_full_response(&OpenAiResponse {
        id: "x".to_string(),
        choices: vec![OpenAiChoice {
            message: Some(OpenAiMessageResponse {
                role: "assistant".to_string(),
                content: None,
                tool_calls: Some(vec![OpenAiToolCall {
                    id: "c".to_string(),
                    call_type: "function".to_string(),
                    function: OpenAiFunctionCall {
                        name: "ls".to_string(),
                        arguments: "{}".to_string(),
                    },
                }]),
            }),
            finish_reason: Some("tool_calls".to_string()),
        }],
        usage: None,
    })
    .unwrap();
    assert_eq!(response.finish_reason, FinishReason::ToolCalls);
    assert_eq!(response.usage.total_tokens, 0);
    assert_eq!(response.message.tool_calls.unwrap()[0].function.name, "ls");
}

#[test]
fn messages_take_the_service_form() {
    let messages = to_openai_messages(&vec![user_message("hi"), assistant_tool_call("c", "ls")]);
    assert_eq!(messages[0].get("role").unwrap().as_str(), Some("user"));
    assert_eq!(messages[0].get("content").unwrap().as_str(), Some("hi"));
    let call = &messages[1].get("tool_calls").unwrap().as_array().unwrap()[0];
    assert_eq!(call.get("id").unwrap().as_str(), Some("c"));
    assert_eq!(call.get("type").unwrap().as_str(), Some("function"));
    let image = content_to_openai_json(&Some(MessageContent::Blocks(vec![ContentBlock::Image {
        media_type: "image/png".to_string(),
        data: "AA".to_string(),
    }])))
    .unwrap();
    let url = image.as_array().unwrap()[0].get("image_url").unwrap().get("url").unwrap();
    assert_eq!(url.as_str(), Some("data:image/png;base64,AA"));
    assert_eq!(content_to_openai_json(&None), None);
}

#[test]
fn requests_carry_tools_and_streaming() {
    let tools = vec![ToolDefinition {
        name: "ls".to_string(),
        description: "List".to_string(),
        parameters: json("{}"),
    }];
    let body = build_request(
        "gpt-4o",
        &vec![user_message("hi")],
        &tools,
        &test_config(),
        true,
        &detect_openai_compat("https://api.openai.com/v1"),
    );
    assert_eq!(body.get("stream"), Some(&Json::Bool(true)));
    let tool = &body.get("tools").unwrap().as_array().unwrap()[0];
    assert_eq!(
        tool.get("function").unwrap().get("name").unwrap().as_str(),
        Some("ls")
    );
}

#[test]
fn bad_keys_are_refused_and_missing_ones_left_out() {
    assert!(OpenAiProvider::new("bad\nkey").build_headers().is_err());
    assert!(OpenAiProvider::new("bad\u{7f}key").build_headers().is_err());
    let headers = OpenAiProvider::new("clé\t~").build_headers().unwrap();
    assert!(headers.iter().any(|(_, value)| value == "Bearer clé\t~"));
    let open = OpenAiProvider::with_base_url("http://localhost:11434", None);
    assert!(open
        .build_headers()
        .unwrap()
        .iter()
        .all(|(name, _)| name != "authorization"));
    assert_eq!(open.id(), "openai");
}
