use rpi::token_estimation::{
    estimate_context_tokens, estimate_tokens, has_structural_patterns, is_cjk, is_code, is_technical,
};
use rpi::types::{ContentBlock, FunctionCall, Message, MessageContent, Role, ToolCall, Usage};


fn text_message(text: &str) -> Message {
    Message {
        role: Role::User,
        content: Some(MessageContent::Text(text.to_string())),
        tool_calls: None,
        tool_call_id: None,
        name: None,
    }
}

#[test]
fn test_estimate_tokens_text() {
    let msg = text_message("Hello world");
    assert_eq!(estimate_tokens(&msg), 3);
}

#[test]
fn test_estimate_tokens_tool_call() {
    let msg = Message {
        role: Role::Assistant,
        content: None,
        tool_calls: Some(vec![ToolCall {
            id: "call_1".to_string(),
            function: FunctionCall {
                name: "read_file".to_string(),
                arguments: "{\"path\":\"/tmp/test.rs\"}".to_string(),
            },
        }]),
        tool_call_id: None,
        name: None,
    };
    assert_eq!(estimate_tokens(&msg), 8);
}

#[test]
fn test_estimate_tokens_image() {
    let msg = Message {
        role: Role::User,
        content: Some(MessageContent::Blocks(vec![ContentBlock::Image {
            media_type: "image/png".to_string(),
            data: "base64data".to_string(),
        }])),
        tool_calls: None,
        tool_call_id: None,
        name: None,
    };
    assert_eq!(estimate_tokens(&msg), 1200);
}

#[test]
fn test_estimate_tokens_empty() {
    let msg = Message {
        role: Role::User,
        content: None,
        tool_calls: None,
        tool_call_id: None,
        name: None,
    };
    assert_eq!(estimate_tokens(&msg), 0);
}

#[test]
fn test_estimate_context_tokens_heuristic() {
    let messages = vec![text_message("hello"), text_message("world")];
    assert_eq!(estimate_context_tokens(&messages, None), 4);
}

#[test]
fn test_estimate_context_tokens_usage() {
    let messages = vec![
        Message {
            role: Role::Assistant,
            content: Some(MessageContent::Text("response".to_string())),
            tool_calls: None,
            tool_call_id: None,
            name: None,
        },
        text_message("follow up"),
    ];
    let usage = Usage {
        prompt_tokens: 100,
        completion_tokens: 50,
        total_tokens: 150,
    };
    assert_eq!(estimate_context_tokens(&messages, Some(usage)), 153);
}

#[test]
fn test_estimate_tokens_code() {
    let code = "fn main() {\n    println!(\"Hello, world!\");\n}";
    let msg = text_message(code);
    let estimated = estimate_tokens(&msg);
    let chars = code.chars().count() as u32;
    let improved_estimate = chars.div_ceil(3);
    assert!(
        estimated >= improved_estimate,
        "Code estimation should be at least chars/3 ({}), got {}",
        improved_estimate,
        estimated
    );
}

#[test]
fn test_estimate_tokens_chinese() {
    let chinese = "你好世界，这是一个测试";
    let msg = text_message(chinese);
    let estimated = estimate_tokens(&msg);
    let chars = chinese.chars().count() as u32;
    let improved_estimate = chars.div_ceil(2);
    assert!(
        estimated >= improved_estimate,
        "Chinese estimation should be at least chars/2 ({}), got {}",
        improved_estimate,
        estimated
    );
}

#[test]
fn test_estimate_tokens_technical() {
    let json = r#"{\"key\": \"value\", \"number\": 42, \"array\": [1,2,3]}"#;
    let msg = text_message(json);
    let estimated = estimate_tokens(&msg);
    let chars = json.chars().count() as u32;
    let improved_estimate = chars.div_ceil(3);
    assert!(
        estimated >= improved_estimate,
        "Technical content estimation should be at least chars/3 ({}), got {}",
        improved_estimate,
        estimated
    );
}

#[test]
fn test_is_code_false_positive_prose_with_braces() {
    let prose = "The function (which was defined earlier) returns Ok(result). \
                 Use the {key: value} pattern when needed. See also [1] and [2].";
    assert!(!is_code(prose), "Regular prose with braces/parens should not be classified as code");
}

#[test]
fn test_is_code_false_positive_prose_with_multiple_keywords() {
    let sentences = [
        "The function returns the result to the caller",
        "Let me import the data from the file",
        "We need to return to the class discussion",
    ];
    for prose in &sentences {
        assert!(!is_code(prose),
            "Prose with multiple common English words should not be classified as code: \"{}\"",
            prose
        );
    }
}

#[test]
fn test_is_code_real_code() {
    let code = "fn main() {\n    let x = 42;\n}";
    assert!(is_code(code), "Actual Rust code should be classified as code");
}

#[test]
fn test_is_cjk_detects_japanese_kana() {
    let text = "\u{3053}\u{308c}\u{306f}\u{30c6}\u{30b9}\u{30c8}\u{3067}\u{3059}";
    let detected = is_cjk(text);
    assert!(detected, "Japanese kana should be detected by is_cjk");
}

#[test]
fn hangul_is_cjk() {
    assert!(is_cjk("\u{c548}\u{b155}\u{d558}\u{c138}\u{c694}"));
    assert!(is_cjk("a \u{1112}\u{3131}"));
    assert!(!is_cjk("caf\u{e9} \u{3b1}\u{416}"));
}

#[test]
fn test_is_technical_false_positive_prose() {
    let prose = "She said \"hello\" to everyone.\nIt was nice.\nThe API worked.";
    assert!(!is_technical(prose), "Normal prose should not be classified as technical");
}

#[test]
fn test_is_technical_real_json() {
    let json = r#"{\"name\": \"test\", \"items\": [1, 2, 3]}"#;
    assert!(is_technical(json), "JSON should be classified as technical");
}

#[test]
fn test_image_token_estimate_is_reasonable() {
    let msg = Message {
        role: Role::User,
        content: Some(MessageContent::Blocks(vec![ContentBlock::Image {
            media_type: "image/png".to_string(),
            data: "base64data".to_string(),
        }])),
        tool_calls: None,
        tool_call_id: None,
        name: None,
    };
    let tokens = estimate_tokens(&msg);
    assert!(tokens > 0, "Image should have non-zero token estimate");
    assert!(tokens < 10000, "Image token estimate should be reasonable, got {}", tokens);
}

#[test]
fn test_estimate_tokens_saturates_at_u32_max() {
    let msg = Message {
        role: Role::User,
        content: Some(MessageContent::Text("x".repeat(1_000_000))),
        tool_calls: None,
        tool_call_id: None,
        name: None,
    };
    let tokens = estimate_tokens(&msg);
    assert_eq!(tokens, 250_000);
    let _: u32 = tokens;
}

#[test]
fn test_has_structural_patterns_markdown_not_code() {
    let markdown = "Here is a list:\n\n    - Item one\n    - Item two\n    - Item three\n\nAnd some more text.";
    assert!(!is_code(markdown), "Markdown with 4-space indented list items should not be classified as code");
}

#[test]
fn test_has_structural_patterns_prose_with_semicolons() {
    let prose = "done;\nhowever, other things happen next.";
    assert!(!has_structural_patterns(prose),
        "Prose with semicolon-before-newline should not trigger structural code detection: {:?}",
        prose
    );
}

#[test]
fn test_has_structural_patterns_multiple_indented_lines() {
    let indented = "let a = 1;\n    let b = 2;\n    let c = 3;\n    let d = 4;";
    assert!(has_structural_patterns(indented),
        "Text with 3+ indented lines should be detected as having structural patterns"
    );
}
