use rpi::anthropic::AnthropicIds;
use rpi::json::JsonNumber;
use rpi::message_normalization::{
    normalize_messages, normalize_messages_with_input, KeepIds,
    NON_VISION_TOOL_IMAGE_PLACEHOLDER, NON_VISION_USER_IMAGE_PLACEHOLDER,
    SYNTHETIC_TOOL_RESULT_TEXT,
};
use rpi::types::{
    ContentBlock, FunctionCall, Message, MessageContent, Model, ModelCost, ModelId,
    ModelInputKind, Role, ToolCall,
};

fn text_model() -> Model {
    Model {
        id: ModelId::new("test", "text-only"),
        name: "Text Only".to_string(),
        api: "test-api".to_string(),
        provider: "test".to_string(),
        base_url: "https://api.test.com".to_string(),
        reasoning: false,
        thinking_level_map: vec![],
        input: vec![ModelInputKind::Text],
        cost: ModelCost {
            input: JsonNumber::Real("0.0".to_string()),
            output: JsonNumber::Real("0.0".to_string()),
            cache_read: JsonNumber::Real("0.0".to_string()),
            cache_write: JsonNumber::Real("0.0".to_string()),
        },
        context_window: 128_000,
        max_tokens: 16_000,
        headers: None,
        compat: None,
    }
}

fn vision_model() -> Model {
    let mut m = text_model();
    m.input = vec![ModelInputKind::Text, ModelInputKind::Image];
    m
}

fn user_text(text: &str) -> Message {
    Message {
        role: Role::User,
        content: Some(MessageContent::Text(text.to_string())),
        tool_calls: None,
        tool_call_id: None,
        name: None,
    }
}

fn user_blocks(blocks: Vec<ContentBlock>) -> Message {
    Message {
        role: Role::User,
        content: Some(MessageContent::Blocks(blocks)),
        tool_calls: None,
        tool_call_id: None,
        name: None,
    }
}

fn assistant_text(text: &str) -> Message {
    Message {
        role: Role::Assistant,
        content: Some(MessageContent::Text(text.to_string())),
        tool_calls: None,
        tool_call_id: None,
        name: None,
    }
}

fn assistant_blocks(blocks: Vec<ContentBlock>) -> Message {
    Message {
        role: Role::Assistant,
        content: Some(MessageContent::Blocks(blocks)),
        tool_calls: None,
        tool_call_id: None,
        name: None,
    }
}

fn assistant_tool_call(id: &str, name: &str) -> Message {
    Message {
        role: Role::Assistant,
        content: None,
        tool_calls: Some(vec![ToolCall {
            id: id.to_string(),
            function: FunctionCall {
                name: name.to_string(),
                arguments: r#"{"path":"file.txt"}"#.to_string(),
            },
        }]),
        tool_call_id: None,
        name: None,
    }
}

fn tool_result(id: &str, name: &str) -> Message {
    Message {
        role: Role::Tool,
        content: Some(MessageContent::Text("result".to_string())),
        tool_calls: None,
        tool_call_id: Some(id.to_string()),
        name: Some(name.to_string()),
    }
}

#[test]
fn thinking_block_with_content_becomes_text() {
    let messages = vec![assistant_blocks(vec![ContentBlock::Thinking {
        thinking: "step by step".to_string(),
        thinking_signature: None,
        redacted: false,
    }])];

    let result = normalize_messages(&messages, &text_model(), None::<&KeepIds>);

    assert_eq!(result.len(), 1);
    assert_eq!(
        result[0].content,
        Some(MessageContent::Blocks(vec![ContentBlock::Text {
            text: "step by step".to_string(),
        }]))
    );
}

#[test]
fn redacted_thinking_block_is_removed() {
    let messages = vec![assistant_blocks(vec![
        ContentBlock::Text { text: "before".to_string() },
        ContentBlock::Thinking {
            thinking: "[redacted]".to_string(),
            thinking_signature: Some("opaque".to_string()),
            redacted: true,
        },
        ContentBlock::Text { text: "after".to_string() },
    ])];

    let result = normalize_messages(&messages, &text_model(), None::<&KeepIds>);

    assert_eq!(
        result[0].content,
        Some(MessageContent::Blocks(vec![
            ContentBlock::Text { text: "before".to_string() },
            ContentBlock::Text { text: "after".to_string() },
        ]))
    );
}

#[test]
fn empty_thinking_block_is_removed() {
    let messages = vec![assistant_blocks(vec![ContentBlock::Thinking {
        thinking: "   ".to_string(),
        thinking_signature: None,
        redacted: false,
    }])];

    let result = normalize_messages(&messages, &text_model(), None::<&KeepIds>);

    assert_eq!(
        result[0].content,
        Some(MessageContent::Blocks(vec![]))
    );
}

#[test]
fn thinking_blocks_only_stripped_from_assistant_role() {
    let thinking = ContentBlock::Thinking {
        thinking: "user thought".to_string(),
        thinking_signature: None,
        redacted: false,
    };
    let messages = vec![user_blocks(vec![thinking.clone()])];

    let result = normalize_messages(&messages, &text_model(), None::<&KeepIds>);

    assert_eq!(result[0].content, Some(MessageContent::Blocks(vec![thinking])));
}

#[test]
fn tool_call_id_sanitized_and_propagated_to_result() {
    let messages = vec![
        assistant_tool_call("call|pipe", "read"),
        tool_result("call|pipe", "read"),
    ];

    let result = normalize_messages(
        &messages,
        &text_model(),
        Some(&AnthropicIds),
    );

    assert_eq!(result[0].tool_calls.as_ref().unwrap()[0].id, "call_pipe");
    assert_eq!(result[1].tool_call_id.as_deref(), Some("call_pipe"));
}

#[test]
fn no_normalizer_leaves_ids_unchanged() {
    let messages = vec![
        assistant_tool_call("call|123", "read"),
        tool_result("call|123", "read"),
    ];

    let result = normalize_messages(&messages, &text_model(), None::<&KeepIds>);

    assert_eq!(result[0].tool_calls.as_ref().unwrap()[0].id, "call|123");
    assert_eq!(result[1].tool_call_id.as_deref(), Some("call|123"));
}

#[test]
fn normalizer_returning_same_id_is_noop() {
    let messages = vec![assistant_tool_call("unchanged", "read")];

    let result = normalize_messages(
        &messages,
        &text_model(),
        Some(&KeepIds),
    );

    assert_eq!(result[0].tool_calls.as_ref().unwrap()[0].id, "unchanged");
}

#[test]
fn trailing_orphaned_tool_call_gets_synthetic_result() {
    let messages = vec![assistant_tool_call("call_a", "read")];

    let result = normalize_messages(&messages, &text_model(), None::<&KeepIds>);

    assert_eq!(result.len(), 2);
    assert_eq!(result[1].role, Role::Tool);
    assert_eq!(result[1].tool_call_id.as_deref(), Some("call_a"));
    assert_eq!(result[1].name.as_deref(), Some("read"));
    assert_eq!(
        result[1].content,
        Some(MessageContent::Text(SYNTHETIC_TOOL_RESULT_TEXT.to_string()))
    );
}

#[test]
fn tool_call_with_matching_result_no_synthesis() {
    let messages = vec![
        assistant_tool_call("call_a", "read"),
        tool_result("call_a", "read"),
    ];

    let result = normalize_messages(&messages, &text_model(), None::<&KeepIds>);

    assert_eq!(result.len(), 2);
    assert_eq!(result[1].role, Role::Tool);
    assert_eq!(result[1].tool_call_id.as_deref(), Some("call_a"));
    assert_eq!(
        result[1].content,
        Some(MessageContent::Text("result".to_string()))
    );
}

#[test]
fn orphaned_tool_calls_between_user_messages_get_synthetic_results() {
    let messages = vec![
        user_text("read this file"),
        assistant_tool_call("call_x", "read"),
        user_text("now summarize"),
    ];

    let result = normalize_messages(&messages, &text_model(), None::<&KeepIds>);

    assert_eq!(result.len(), 4);
    assert_eq!(result[2].role, Role::Tool);
    assert_eq!(result[2].tool_call_id.as_deref(), Some("call_x"));
    assert_eq!(result[2].name.as_deref(), Some("read"));
}

#[test]
fn multiple_orphaned_tool_calls_all_get_synthetic_results() {
    let messages = vec![Message {
        role: Role::Assistant,
        content: None,
        tool_calls: Some(vec![
            ToolCall {
                id: "a".to_string(),
                function: FunctionCall {
                    name: "read".to_string(),
                    arguments: "{}".to_string(),
                },
            },
            ToolCall {
                id: "b".to_string(),
                function: FunctionCall {
                    name: "write".to_string(),
                    arguments: "{}".to_string(),
                },
            },
        ]),
        tool_call_id: None,
        name: None,
    }];

    let result = normalize_messages(&messages, &text_model(), None::<&KeepIds>);

    assert_eq!(result.len(), 3);
    assert_eq!(result[1].tool_call_id.as_deref(), Some("a"));
    assert_eq!(result[1].name.as_deref(), Some("read"));
    assert_eq!(result[2].tool_call_id.as_deref(), Some("b"));
    assert_eq!(result[2].name.as_deref(), Some("write"));
}

#[test]
fn non_vision_model_replaces_images_with_placeholder() {
    let messages = vec![user_blocks(vec![
        ContentBlock::Text { text: "describe".to_string() },
        ContentBlock::Image {
            media_type: "image/png".to_string(),
            data: "base64data".to_string(),
        },
    ])];

    let result = normalize_messages(&messages, &text_model(), None::<&KeepIds>);

    assert_eq!(
        result[0].content,
        Some(MessageContent::Blocks(vec![
            ContentBlock::Text { text: "describe".to_string() },
            ContentBlock::Text {
                text: NON_VISION_USER_IMAGE_PLACEHOLDER.to_string(),
            },
        ]))
    );
}

#[test]
fn vision_model_preserves_images() {
    let messages = vec![user_blocks(vec![
        ContentBlock::Text { text: "describe".to_string() },
        ContentBlock::Image {
            media_type: "image/png".to_string(),
            data: "base64data".to_string(),
        },
    ])];

    let result = normalize_messages(&messages, &vision_model(), None::<&KeepIds>);

    assert_eq!(result[0].content, Some(MessageContent::Blocks(vec![
        ContentBlock::Text { text: "describe".to_string() },
        ContentBlock::Image {
            media_type: "image/png".to_string(),
            data: "base64data".to_string(),
        },
    ])));
}

#[test]
fn adjacent_images_collapsed_to_single_placeholder() {
    let messages = vec![user_blocks(vec![
        ContentBlock::Image {
            media_type: "image/png".to_string(),
            data: "img1".to_string(),
        },
        ContentBlock::Image {
            media_type: "image/png".to_string(),
            data: "img2".to_string(),
        },
    ])];

    let result = normalize_messages(&messages, &text_model(), None::<&KeepIds>);

    assert_eq!(
        result[0].content,
        Some(MessageContent::Blocks(vec![ContentBlock::Text {
            text: NON_VISION_USER_IMAGE_PLACEHOLDER.to_string(),
        }]))
    );
}

#[test]
fn assistant_role_images_not_replaced() {
    let messages = vec![assistant_blocks(vec![ContentBlock::Image {
        media_type: "image/png".to_string(),
        data: "generated".to_string(),
    }])];

    let result = normalize_messages(&messages, &text_model(), None::<&KeepIds>);

    assert_eq!(result[0].content, Some(MessageContent::Blocks(vec![
        ContentBlock::Image {
            media_type: "image/png".to_string(),
            data: "generated".to_string(),
        },
    ])));
}

#[test]
fn tool_role_image_gets_tool_placeholder() {
    let messages = vec![Message {
        role: Role::Tool,
        content: Some(MessageContent::Blocks(vec![ContentBlock::Image {
            media_type: "image/png".to_string(),
            data: "toolimg".to_string(),
        }])),
        tool_calls: None,
        tool_call_id: Some("call1".to_string()),
        name: Some("screenshot".to_string()),
    }];

    let result = normalize_messages(&messages, &text_model(), None::<&KeepIds>);

    assert_eq!(
        result[0].content,
        Some(MessageContent::Blocks(vec![ContentBlock::Text {
            text: NON_VISION_TOOL_IMAGE_PLACEHOLDER.to_string(),
        }]))
    );
}

#[test]
fn empty_message_list_returns_empty() {
    let result = normalize_messages(&vec![], &text_model(), None::<&KeepIds>);
    assert!(result.is_empty());
}

#[test]
fn single_user_message_passes_through_unchanged() {
    let messages = vec![user_text("hello")];
    let result = normalize_messages(&messages, &text_model(), None::<&KeepIds>);

    assert_eq!(result.len(), 1);
    assert_eq!(result[0], messages[0]);
}

#[test]
fn single_system_message_passes_through_unchanged() {
    let messages = vec![Message {
        role: Role::System,
        content: Some(MessageContent::Text("system prompt".to_string())),
        tool_calls: None,
        tool_call_id: None,
        name: None,
    }];

    let result = normalize_messages(&messages, &text_model(), None::<&KeepIds>);

    assert_eq!(result.len(), 1);
    assert_eq!(result[0], messages[0]);
}

#[test]
fn full_multi_turn_conversation_normalizes_correctly() {
    let messages = vec![
        user_text("read file"),
        assistant_tool_call("call_1", "read"),
        tool_result("call_1", "read"),
        user_text("summarize"),
        assistant_text("here is the summary"),
    ];

    let result = normalize_messages(&messages, &text_model(), None::<&KeepIds>);

    assert_eq!(result.len(), 5);
    assert_eq!(result[0].role, Role::User);
    assert_eq!(result[1].role, Role::Assistant);
    assert_eq!(result[2].role, Role::Tool);
    assert_eq!(result[3].role, Role::User);
    assert_eq!(result[4].role, Role::Assistant);
}

#[test]
fn multi_turn_with_thinking_and_orphan() {
    let messages = vec![
        user_text("think about this"),
        assistant_blocks(vec![
            ContentBlock::Thinking {
                thinking: "hmm".to_string(),
                thinking_signature: None,
                redacted: false,
            },
            ContentBlock::Text {
                text: "let me call a tool".to_string(),
            },
        ]),
        assistant_tool_call("call_1", "search"),
        user_text("what did you find?"),
    ];

    let result = normalize_messages(&messages, &text_model(), None::<&KeepIds>);

    assert_eq!(result.len(), 5);

    assert_eq!(
        result[1].content,
        Some(MessageContent::Blocks(vec![
            ContentBlock::Text { text: "hmm".to_string() },
            ContentBlock::Text { text: "let me call a tool".to_string() },
        ]))
    );

    assert_eq!(result[3].role, Role::Tool);
    assert_eq!(result[3].tool_call_id.as_deref(), Some("call_1"));
}

#[test]
fn normalizing_twice_is_idempotent() {
    let messages = vec![
        user_text("hello"),
        assistant_blocks(vec![ContentBlock::Thinking {
            thinking: "reasoning".to_string(),
            thinking_signature: None,
            redacted: false,
        }]),
        assistant_tool_call("call_1", "read"),
        tool_result("call_1", "read"),
    ];

    let once = normalize_messages(&messages, &text_model(), None::<&KeepIds>);
    let twice = normalize_messages(&once, &text_model(), None::<&KeepIds>);

    assert_eq!(once, twice);
}

#[test]
fn already_normalized_messages_stay_stable() {
    let messages = vec![
        user_text("hello"),
        assistant_text("hi there"),
    ];

    let result = normalize_messages(&messages, &text_model(), None::<&KeepIds>);

    assert_eq!(result, messages);
}

#[test]
fn with_input_equivalent_to_model_based() {
    let model = text_model();
    let messages = vec![user_text("hello")];

    let via_model = normalize_messages(&messages, &model, None::<&KeepIds>);
    let via_input = normalize_messages_with_input(&messages, &model.input, None::<&KeepIds>, false);

    assert_eq!(via_model, via_input);
}

#[test]
fn with_input_vision_preserves_images() {
    let messages = vec![user_blocks(vec![ContentBlock::Image {
        media_type: "image/png".to_string(),
        data: "img".to_string(),
    }])];

    let result = normalize_messages_with_input(
        &messages,
        &vec![ModelInputKind::Text, ModelInputKind::Image],
        None::<&KeepIds>,
        false,
    );

    assert_eq!(result[0].content, Some(MessageContent::Blocks(vec![
        ContentBlock::Image {
            media_type: "image/png".to_string(),
            data: "img".to_string(),
        },
    ])));
}

#[test]
fn normalize_messages_noop_when_model_supports_images() {
    let model = vision_model();
    let messages = vec![
        user_text("describe this"),
        user_blocks(vec![
            ContentBlock::Text { text: "look".to_string() },
            ContentBlock::Image {
                media_type: "image/png".to_string(),
                data: "base64data".to_string(),
            },
        ]),
        assistant_text("done"),
    ];

    let result = normalize_messages(&messages, &model, None::<&KeepIds>);

    assert_eq!(result, messages);
}

#[test]
fn thinking_is_kept_where_asked() {
    let thinking = ContentBlock::Thinking {
        thinking: "hmm".to_string(),
        thinking_signature: Some("s".to_string()),
        redacted: false,
    };
    let messages = vec![assistant_blocks(vec![thinking])];
    let result = normalize_messages_with_input(
        &messages,
        &vec![ModelInputKind::Text],
        None::<&KeepIds>,
        true,
    );
    assert_eq!(result, messages);
}

#[test]
fn each_call_is_answered_before_the_next_question() {
    let messages = vec![
        assistant_tool_call("a", "read"),
        user_text("next"),
        assistant_tool_call("b", "read"),
        tool_result("b", "read"),
    ];
    let result = normalize_messages(&messages, &text_model(), None::<&KeepIds>);
    let roles: Vec<Role> = result.iter().map(|m| m.role).collect();
    assert_eq!(
        roles,
        vec![Role::Assistant, Role::Tool, Role::User, Role::Assistant, Role::Tool]
    );
}
