//! Context-overflow classification helpers.

use vstd::prelude::*;

use crate::error::{ErrorView, PiError, ProviderError, ProviderErrorView};
use crate::text::{
    contains, contains_text, lowercase, starts_with, starts_with_text, to_lowercase, trim, trimmed,
};
use crate::types::{AssistantMessage, AssistantView, StopReason};

verus! {

/// A text holds each of some others.
pub open spec fn holds_all(haystack: Seq<char>, needles: Seq<&str>) -> bool {
    forall|i: int| 0 <= i < needles.len() ==> contains(haystack, #[trigger] needles[i]@)
}

/// Whether a text holds each of some others.
pub fn contains_all(haystack: &str, needles: &[&str]) -> (r: bool)
    ensures
        r == holds_all(haystack@, needles@),
{
    let mut i: usize = 0;
    while i < needles.len()
        invariant
            i <= needles@.len(),
            forall|j: int| 0 <= j < i ==> contains(haystack@, #[trigger] needles@[j]@),
        decreases needles@.len() - i,
    {
        if !contains_text(haystack, needles[i]) {
            return false;
        }
        i = i + 1;
    }
    true
}

/// A text in lower case tells of an error other than an overflow.
pub open spec fn is_other_error(lower: Seq<char>) -> bool {
    ||| starts_with(lower, "throttling error:"@)
    ||| starts_with(lower, "service unavailable:"@)
    ||| contains(lower, "rate limit"@)
    ||| contains(lower, "too many requests"@)
    ||| contains(lower, "request body"@)
    ||| contains(lower, "context switch"@)
    ||| contains(lower, "context deadline"@)
    ||| contains(lower, "context cancel"@)
}

/// Whether a text in lower case tells of an error other than an overflow.
pub fn is_known_non_overflow(lower: &str) -> (r: bool)
    ensures
        r == is_other_error(lower@),
{
    starts_with_text(lower, "throttling error:") || starts_with_text(lower, "service unavailable:")
        || contains_text(lower, "rate limit") || contains_text(lower, "too many requests")
        || contains_text(lower, "request body") || contains_text(lower, "context switch")
        || contains_text(lower, "context deadline") || contains_text(lower, "context cancel")
}

/// A text in lower case is an HTTP status with which some providers answer, with
/// no body, where the context is too long.
pub open spec fn is_empty_body_status(lower: Seq<char>) -> bool {
    let text = trimmed(lower);
    (starts_with(text, "400"@) || starts_with(text, "413"@)) && contains(text, "no body"@)
}

/// Whether a text in lower case is such a status.
pub fn is_empty_body_status_overflow(lower: &str) -> (r: bool)
    ensures
        r == is_empty_body_status(lower@),
{
    let text: String = trim(lower);
    (starts_with_text(&text, "400") || starts_with_text(&text, "413")) && contains_text(
        &text,
        "no body",
    )
}

/// A text in lower case that speaks of the context says that it is too long.
pub open spec fn says_context_too_long(lower: Seq<char>) -> bool {
    ||| contains(lower, "length"@)
    ||| contains(lower, "window"@)
    ||| contains(lower, "exceeded"@)
    ||| contains(lower, "too long"@)
    ||| contains(lower, "too many tokens"@)
    ||| contains(lower, "token limit"@)
    ||| contains(lower, "too large"@)
    ||| contains(lower, "input is too long"@)
    ||| contains(lower, "message too long"@)
}

/// A text in lower case has the words of some provider for a context that is too
/// long.
pub open spec fn has_overflow_words(lower: Seq<char>) -> bool {
    ||| contains(lower, "prompt"@) && contains(lower, "too long"@)
    ||| contains(lower, "request_too_large"@)
    ||| contains(lower, "input is too long for requested model"@)
    ||| contains(lower, "maximum"@) && contains(lower, "context length"@)
    ||| contains(lower, "input token count"@) && contains(lower, "exceeds"@) && contains(
        lower,
        "maximum"@,
    )
    ||| contains(lower, "exceeds maximum input tokens"@)
    ||| contains(lower, "maximum prompt length is"@)
    ||| contains(lower, "reduce the length of the messages"@)
    ||| contains(lower, "maximum allowed input length"@) && contains(lower, "tokens"@)
    ||| contains(lower, "input ("@) && contains(lower, "tokens)"@) && contains(
        lower,
        "longer than"@,
    ) && contains(lower, "context length"@)
    ||| contains(lower, "exceeds the limit of"@)
    ||| contains(lower, "exceeds the available context size"@)
    ||| contains(lower, "greater than the context length"@)
    ||| contains(lower, "context window exceeds limit"@)
    ||| contains(lower, "exceeded model token limit"@)
    ||| contains(lower, "too large for model with"@) && contains(lower, "maximum context length"@)
    ||| contains(lower, "model_context_window_exceeded"@)
    ||| contains(lower, "prompt too long"@) && contains(lower, "exceeded"@) && contains(
        lower,
        "context length"@,
    )
    ||| contains(lower, "context_length_exceeded"@)
    ||| contains(lower, "context length exceeded"@)
    ||| contains(lower, "too many tokens"@)
    ||| contains(lower, "token limit exceeded"@)
    ||| is_empty_body_status(lower)
}

/// A text in lower case tells of an overflow.
pub open spec fn tells_overflow(lower: Seq<char>) -> bool {
    if trimmed(lower).len() == 0 || is_other_error(lower) {
        false
    } else if contains(lower, "context"@) {
        says_context_too_long(lower)
    } else {
        has_overflow_words(lower)
    }
}

/// Whether a text in lower case tells of an overflow.
pub fn is_lower_overflow_text(lower: &str) -> (r: bool)
    ensures
        r == tells_overflow(lower@),
{
    if trim(lower).as_str().is_empty() || is_known_non_overflow(lower) {
        return false;
    }
    if contains_text(lower, "context") {
        return contains_text(lower, "length") || contains_text(lower, "window") || contains_text(
            lower,
            "exceeded",
        ) || contains_text(lower, "too long") || contains_text(lower, "too many tokens")
            || contains_text(lower, "token limit") || contains_text(lower, "too large")
            || contains_text(lower, "input is too long") || contains_text(
            lower,
            "message too long",
        );
    }
    if contains_text(lower, "request_too_large") || contains_text(
        lower,
        "input is too long for requested model",
    ) || contains_text(lower, "exceeds maximum input tokens") || contains_text(
        lower,
        "maximum prompt length is",
    ) || contains_text(lower, "reduce the length of the messages") || contains_text(
        lower,
        "exceeds the limit of",
    ) || contains_text(lower, "exceeds the available context size") || contains_text(
        lower,
        "greater than the context length",
    ) || contains_text(lower, "context window exceeds limit") || contains_text(
        lower,
        "exceeded model token limit",
    ) || contains_text(lower, "model_context_window_exceeded") || contains_text(
        lower,
        "context_length_exceeded",
    ) || contains_text(lower, "context length exceeded") || contains_text(lower, "too many tokens")
        || contains_text(lower, "token limit exceeded") || is_empty_body_status_overflow(lower) {
        return true;
    }
    contains_all(lower, &["prompt", "too long"]) || contains_all(lower, &["maximum", "context length"]) || contains_all(
        lower,
        &["input token count", "exceeds", "maximum"],
    ) || contains_all(lower, &["maximum allowed input length", "tokens"]) || contains_all(
        lower,
        &["input (", "tokens)", "longer than", "context length"],
    ) || contains_all(lower, &["too large for model with", "maximum context length"]) || contains_all(
        lower,
        &["prompt too long", "exceeded", "context length"],
    )
}

/// Whether a text tells of an overflow, in any case.
pub fn is_context_overflow_text(message: &str) -> (r: bool)
    ensures
        r == tells_overflow(lowercase(message@)),
{
    is_lower_overflow_text(&to_lowercase(message))
}

/// An error tells of an overflow.
pub open spec fn is_overflow_error(e: ErrorView) -> bool {
    match e {
        ErrorView::Provider(ProviderErrorView::ContextOverflow { .. }) => true,
        ErrorView::Provider(ProviderErrorView::Other { message }) => tells_overflow(
            lowercase(message),
        ),
        _ => false,
    }
}

/// Check if a provider error indicates context-window overflow.
pub fn is_context_overflow_error(error: &PiError) -> (r: bool)
    ensures
        r == is_overflow_error(error.deep_view()),
{
    match error {
        PiError::Provider(ProviderError::ContextOverflow { .. }) => true,
        PiError::Provider(ProviderError::Other { message }) => is_context_overflow_text(message),
        _ => false,
    }
}

/// A message was cut off because it filled the context window.
pub open spec fn fills_window(m: AssistantView, window: u32) -> bool {
    ||| m.stop_reason == StopReason::Stop && m.usage.prompt_tokens > window
    ||| m.stop_reason == StopReason::Length && m.usage.completion_tokens == 0
        && m.usage.prompt_tokens >= 99 * window / 100
}

/// A message tells of an overflow.
pub open spec fn is_overflow_message(m: AssistantView, window: Option<u32>) -> bool {
    ||| m.stop_reason == StopReason::Error && (m.error_message matches Some(text)
        && tells_overflow(lowercase(text)))
    ||| window matches Some(window) && fills_window(m, window)
}

/// Check if an assistant message indicates context-window overflow.
///
/// This covers explicit provider error text, silent overflow detected from
/// prompt-token usage, and providers that stop with `length` after filling the
/// context window (99 per cent of it, rounded down) without producing output.
pub fn is_context_overflow_message(message: &AssistantMessage, context_window: Option<u32>) -> (r:
    bool)
    ensures
        r == is_overflow_message(message.deep_view(), context_window),
{
    if message.stop_reason == StopReason::Error {
        if let Some(text) = &message.error_message {
            if is_context_overflow_text(text) {
                return true;
            }
        }
    }
    if let Some(window) = context_window {
        if message.stop_reason == StopReason::Stop && message.usage.prompt_tokens > window {
            return true;
        }
        if message.stop_reason == StopReason::Length && message.usage.completion_tokens == 0 {
            let threshold: u64 = 99 * (window as u64) / 100;
            if message.usage.prompt_tokens as u64 >= threshold {
                return true;
            }
        }
    }
    false
}

/// An error that speaks of a rate limit, of too many requests or of the body of a
/// request, or that starts as one of throttling or of a service that is not there,
/// is no overflow, whatever else it says, in any case.
pub proof fn law_rate_limit_is_no_overflow(message: Seq<char>)
    ensures
        ({
            let lower = lowercase(message);
            ||| contains(lower, "rate limit"@)
            ||| contains(lower, "too many requests"@)
            ||| contains(lower, "request body"@)
            ||| starts_with(lower, "throttling error:"@)
            ||| starts_with(lower, "service unavailable:"@)
        }) ==> !tells_overflow(lowercase(message)),
{
}

/// Messages that differ only in case, so that they have the same lower case, are
/// answered alike. A message and its lower case are such where lower-casing twice is
/// lower-casing once, which the contract of `to_lowercase` leaves unsaid.
pub proof fn law_case_does_not_matter(message: Seq<char>, other: Seq<char>)
    ensures
        lowercase(message) == lowercase(other) ==> {
            &&& tells_overflow(lowercase(message)) == tells_overflow(lowercase(other))
            &&& is_overflow_error(
                ErrorView::Provider(ProviderErrorView::Other { message }),
            ) == is_overflow_error(ErrorView::Provider(ProviderErrorView::Other { message: other }))
        },
{
}

/// A message that gives no window and no error is no overflow, whatever its usage.
pub proof fn law_usage_needs_window(m: AssistantView)
    requires
        m.stop_reason != StopReason::Error,
    ensures
        !is_overflow_message(m, None),
{
}

/// What fills a window fills every smaller one.
pub proof fn law_smaller_window_is_filled(m: AssistantView, window: u32, smaller: u32)
    requires
        smaller <= window,
        fills_window(m, window),
    ensures
        fills_window(m, smaller),
{
    assert(99 * smaller / 100 <= 99 * window / 100) by (nonlinear_arith)
        requires
            smaller <= window,
    ;
}

} // verus!
