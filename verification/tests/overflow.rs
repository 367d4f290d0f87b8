use rpi::error::{PiError, ProviderError};
use rpi::overflow::{
    contains_all, is_context_overflow_error, is_context_overflow_message, is_context_overflow_text,
    is_empty_body_status_overflow, is_known_non_overflow, is_lower_overflow_text,
};
use rpi::types::{AssistantMessage, ContentBlock, StopReason, Usage};


fn msg_with_error(error_message: &str) -> AssistantMessage {
    AssistantMessage {
        content: Vec::new(),
        api: "test".to_string(),
        provider: "test".to_string(),
        model: "test".to_string(),
        response_model: None,
        response_id: None,
        usage: Usage {
            prompt_tokens: 0,
            completion_tokens: 0,
            total_tokens: 0,
        },
        stop_reason: StopReason::Error,
        error_message: Some(error_message.to_string()),
        timestamp: 0,
    }
}

fn msg_with_usage(
    stop_reason: StopReason,
    prompt_tokens: u32,
    completion_tokens: u32,
) -> AssistantMessage {
    AssistantMessage {
        content: vec![ContentBlock::Text {
            text: "response".to_string(),
        }],
        api: "test".to_string(),
        provider: "test".to_string(),
        model: "test".to_string(),
        response_model: None,
        response_id: None,
        usage: Usage {
            prompt_tokens,
            completion_tokens,
            total_tokens: prompt_tokens.saturating_add(completion_tokens),
        },
        stop_reason,
        error_message: None,
        timestamp: 0,
    }
}

#[test]
fn error_context_window_exceeded() {
    let err = PiError::provider("context window exceeded");
    assert!(is_context_overflow_error(&err));
}

#[test]
fn error_maximum_context_length() {
    let err = PiError::provider("maximum context length exceeded");
    assert!(is_context_overflow_error(&err));
}

#[test]
fn error_context_length_exceeded() {
    let err = PiError::provider("context_length_exceeded");
    assert!(is_context_overflow_error(&err));
}

#[test]
fn error_rate_limit_not_overflow() {
    let err = PiError::provider("rate limit exceeded");
    assert!(!is_context_overflow_error(&err));
}

#[test]
fn error_request_body_not_overflow() {
    let err =
        PiError::provider("request body too many tokens, please reduce the size");
    assert!(!is_context_overflow_error(&err));
}

#[test]
fn error_http_429_not_overflow() {
    let err = PiError::Provider(ProviderError::RateLimited {
        status: 429,
        body: "rate limit exceeded".to_string(),
    });
    assert!(!is_context_overflow_error(&err));
}

#[test]
fn error_too_many_requests_not_overflow() {
    let err = PiError::provider("too many requests, try again later");
    assert!(!is_context_overflow_error(&err));
}

#[test]
fn error_throttling_not_overflow() {
    let err = PiError::provider("Throttling error: please wait");
    assert!(!is_context_overflow_error(&err));
}

#[test]
fn error_empty_message_not_overflow() {
    let err = PiError::provider("");
    assert!(!is_context_overflow_error(&err));
}

#[test]
fn error_whitespace_only_not_overflow() {
    let err = PiError::provider("   \n\t  ");
    assert!(!is_context_overflow_error(&err));
}

#[test]
fn error_context_overflow_variant() {
    let err = PiError::Provider(ProviderError::ContextOverflow {
        token_count: 100_000,
        context_window: 50_000,
    });
    assert!(is_context_overflow_error(&err));
}

#[test]
fn error_non_provider_not_overflow() {
    let err = PiError::Config("bad config".to_string());
    assert!(!is_context_overflow_error(&err));
}

#[test]
fn message_error_context_window_exceeded() {
    let m = msg_with_error("context window exceeded");
    assert!(is_context_overflow_message(&m, Some(100_000)));
}

#[test]
fn message_error_maximum_context_length() {
    let m = msg_with_error("maximum context length exceeded");
    assert!(is_context_overflow_message(&m, Some(100_000)));
}

#[test]
fn message_error_token_limit_exceeded() {
    let m = msg_with_error("token limit exceeded");
    assert!(is_context_overflow_message(&m, Some(100_000)));
}

#[test]
fn message_error_rate_limit_not_overflow() {
    let m = msg_with_error("rate limit exceeded");
    assert!(!is_context_overflow_message(&m, Some(100_000)));
}

#[test]
fn message_error_request_body_not_overflow() {
    let m = msg_with_error("request body too many tokens");
    assert!(!is_context_overflow_message(&m, Some(100_000)));
}

#[test]
fn message_error_empty_not_overflow() {
    let m = msg_with_error("");
    assert!(!is_context_overflow_message(&m, Some(100_000)));
}

#[test]
fn message_usage_exceeds_context_window() {
    let m = msg_with_usage(StopReason::Stop, 200_001, 10);
    assert!(is_context_overflow_message(&m, Some(200_000)));
}

#[test]
fn message_usage_below_context_window() {
    let m = msg_with_usage(StopReason::Stop, 50_000, 100);
    assert!(!is_context_overflow_message(&m, Some(200_000)));
}

#[test]
fn message_usage_length_stop_zero_completion() {
    let m = msg_with_usage(StopReason::Length, 1_048_512, 0);
    assert!(is_context_overflow_message(&m, Some(1_048_576)));
}

#[test]
fn message_usage_length_stop_with_completion() {
    let m = msg_with_usage(StopReason::Length, 100_000, 4_096);
    assert!(!is_context_overflow_message(&m, Some(200_000)));
}

#[test]
fn message_usage_length_stop_below_threshold() {
    let m = msg_with_usage(StopReason::Length, 1_000, 0);
    assert!(!is_context_overflow_message(&m, Some(200_000)));
}

#[test]
fn message_no_context_window_skips_usage_check() {
    let m = msg_with_usage(StopReason::Stop, 999_999, 0);
    assert!(!is_context_overflow_message(&m, None));
}

#[test]
fn message_usage_equal_context_window() {
    let m = msg_with_usage(StopReason::Stop, 200_000, 0);
    assert!(!is_context_overflow_message(&m, Some(200_000)));
}

#[test]
fn message_usage_exactly_one_over_context_window() {
    let m = msg_with_usage(StopReason::Stop, 200_001, 0);
    assert!(is_context_overflow_message(&m, Some(200_000)));
}

#[test]
fn message_error_stop_reason_with_non_overflow_text() {
    let m = msg_with_error("something went wrong");
    assert!(!is_context_overflow_message(&m, Some(100_000)));
}

#[test]
fn message_stop_reason_without_usage_overflow() {
    let m = msg_with_usage(StopReason::Stop, 100, 50);
    assert!(!is_context_overflow_message(&m, Some(200_000)));
}

#[test]
fn message_length_reason_no_context_window() {
    let m = msg_with_usage(StopReason::Length, 1_048_576, 0);
    assert!(!is_context_overflow_message(&m, None));
}

#[test]
fn message_error_text_takes_precedence_over_low_usage() {
    let mut m = msg_with_error("context window exceeded");
    m.usage = Usage {
        prompt_tokens: 100,
        completion_tokens: 50,
        total_tokens: 150,
    };
    assert!(is_context_overflow_message(&m, Some(200_000)));
}

#[test]
fn message_rate_limit_text_takes_precedence_over_high_usage() {
    let mut m = msg_with_error("rate limit exceeded, try again later");
    m.usage = Usage {
        prompt_tokens: 200_001,
        completion_tokens: 0,
        total_tokens: 200_001,
    };
    assert!(!is_context_overflow_message(&m, Some(200_000)));
}

#[test]
fn text_context_window_exceeded() {
    assert!(is_context_overflow_text("context window exceeded"));
}

#[test]
fn text_request_too_large() {
    assert!(is_context_overflow_text("request_too_large"));
}

#[test]
fn text_input_too_long_for_model() {
    assert!(is_context_overflow_text(
        "input is too long for requested model",
    ));
}

#[test]
fn text_context_length_exceeded() {
    assert!(is_context_overflow_text("context_length_exceeded"));
}

#[test]
fn text_model_context_window_exceeded() {
    assert!(is_context_overflow_text("model_context_window_exceeded"));
}

#[test]
fn text_exceeds_limit_of() {
    assert!(is_context_overflow_text("Input exceeds the limit of 128k tokens"));
}

#[test]
fn text_reduce_length_of_messages() {
    assert!(is_context_overflow_text(
        "Please reduce the length of the messages.",
    ));
}

#[test]
fn text_400_no_body() {
    assert!(is_context_overflow_text("400 no body"));
}

#[test]
fn text_413_no_body() {
    assert!(is_context_overflow_text("413 no body"));
}

#[test]
fn text_400_with_body_not_overflow() {
    assert!(!is_context_overflow_text("400 Bad Request: invalid parameter"));
}

#[test]
fn text_context_too_long() {
    assert!(is_context_overflow_text("context is too long"));
}

#[test]
fn text_context_too_many_tokens() {
    assert!(is_context_overflow_text("context: too many tokens"));
}

#[test]
fn text_context_input_is_too_long() {
    assert!(is_context_overflow_text("context: input is too long"));
}

#[test]
fn text_empty_string() {
    assert!(!is_context_overflow_text(""));
}

#[test]
fn text_whitespace_only() {
    assert!(!is_context_overflow_text("   \n"));
}

#[test]
fn text_rate_limit_exceeded() {
    assert!(!is_context_overflow_text("rate limit exceeded"));
}

#[test]
fn text_too_many_requests() {
    assert!(!is_context_overflow_text("too many requests"));
}

#[test]
fn text_service_unavailable() {
    assert!(!is_context_overflow_text(
        "Service Unavailable: please try again",
    ));
}

#[test]
fn text_unrelated_error() {
    assert!(!is_context_overflow_text("connection timeout"));
}

#[test]
fn contains_all_all_present() {
    assert!(contains_all("hello world", &["hello", "world"]));
}

#[test]
fn contains_all_one_missing() {
    assert!(!contains_all("hello world", &["hello", "missing"]));
}

#[test]
fn contains_all_empty_needles() {
    assert!(contains_all("anything", &[]));
}

#[test]
fn empty_body_400() {
    assert!(is_empty_body_status_overflow("400 no body"));
}

#[test]
fn empty_body_413() {
    assert!(is_empty_body_status_overflow("413 no body"));
}

#[test]
fn empty_body_500() {
    assert!(!is_empty_body_status_overflow("500 no body"));
}

#[test]
fn empty_body_400_with_body() {
    assert!(!is_empty_body_status_overflow("400 has body"));
}

#[test]
fn overflow_text_is_matched_in_any_case() {
    assert!(is_context_overflow_text("CONTEXT Window EXCEEDED"));
    assert!(!is_lower_overflow_text("CONTEXT Window EXCEEDED"));
    assert!(is_context_overflow_text("Prompt is TOO LONG"));
    for text in [
        "CONTEXT Window EXCEEDED",
        "Rate LIMIT: context window exceeded",
        "\u{130} Context TOO long",
        "\u{39f}\u{394}\u{39f}\u{3a3} Prompt too LONG",
        "",
    ] {
        assert_eq!(
            is_context_overflow_text(text),
            is_context_overflow_text(&text.to_lowercase())
        );
    }
}

#[test]
fn excluded_errors_are_none_whatever_else_they_say() {
    for text in [
        "RATE limit: context window exceeded",
        "Too Many Requests: context window exceeded",
        "Request Body: context window exceeded",
        "Throttling error: context window exceeded",
        "Service Unavailable: context window exceeded",
    ] {
        assert!(!is_context_overflow_text(text));
    }
}

#[test]
fn other_errors_are_no_overflow() {
    assert!(is_known_non_overflow("context deadline exceeded"));
    assert!(is_known_non_overflow("context switch too long"));
    assert!(is_known_non_overflow("context cancelled: window"));
    assert!(!is_context_overflow_text("context deadline exceeded"));
    assert!(!is_known_non_overflow("a throttling error: x"));
}

#[test]
fn length_stop_threshold_is_rounded_down() {
    let m = msg_with_usage(StopReason::Length, 98, 0);
    assert!(is_context_overflow_message(&m, Some(99)));
    let m = msg_with_usage(StopReason::Length, 97, 0);
    assert!(!is_context_overflow_message(&m, Some(99)));
    let m = msg_with_usage(StopReason::Length, 4_252_017_622, 0);
    assert!(is_context_overflow_message(&m, Some(u32::MAX)));
    let m = msg_with_usage(StopReason::Length, 4_252_017_621, 0);
    assert!(!is_context_overflow_message(&m, Some(u32::MAX)));
}
