//! What holds of the errors that tell of a conversation that is too long.

use vstd::prelude::*;

use crate::error::{ErrorView, ProviderErrorView};
use crate::overflow::{
    fills_window, has_overflow_words, is_empty_body_status, is_other_error, is_overflow_error,
    is_overflow_message, says_context_too_long, tells_overflow,
};
use crate::text::{contains, lowercase, starts_with, trimmed};
use crate::text_laws::{is_blank, law_trimmed};
use crate::turn_laws::context_phrases;
use crate::types::{AssistantView, StopReason};

verus! {

/// The words by which some provider tells, all together, that a conversation is too long.
pub open spec fn overflow_words() -> Seq<Seq<Seq<char>>> {
    seq![
        seq!["prompt"@, "too long"@],
        seq!["request_too_large"@],
        seq!["input is too long for requested model"@],
        seq!["maximum"@, "context length"@],
        seq!["input token count"@, "exceeds"@, "maximum"@],
        seq!["exceeds maximum input tokens"@],
        seq!["maximum prompt length is"@],
        seq!["reduce the length of the messages"@],
        seq!["maximum allowed input length"@, "tokens"@],
        seq!["exceeds the limit of"@],
        seq!["exceeds the available context size"@],
        seq!["greater than the context length"@],
        seq!["context window exceeds limit"@],
        seq!["exceeded model token limit"@],
        seq!["too large for model with"@, "maximum context length"@],
        seq!["model_context_window_exceeded"@],
        seq!["context_length_exceeded"@],
        seq!["context length exceeded"@],
        seq!["too many tokens"@],
        seq!["token limit exceeded"@],
    ]
}

/// A text holds each of some words.
pub open spec fn holds_each(text: Seq<char>, words: Seq<Seq<char>>) -> bool {
    forall|i: int| 0 <= i < words.len() ==> contains(text, #[trigger] words[i])
}

/// A text that speaks of the context tells of an overflow exactly where it holds one of
/// the phrases for that, unless it is blank or tells of another error.
pub proof fn law_context_overflow(lower: Seq<char>)
    requires
        contains(lower, "context"@),
    ensures
        tells_overflow(lower) <==> !is_blank(lower) && !is_other_error(lower) && exists|i: int|
            0 <= i < context_phrases().len() && contains(lower, #[trigger] context_phrases()[i]),
{
    law_trimmed(lower);
    let a = context_phrases();
    assert(a[0] == "length"@ && a[1] == "window"@ && a[2] == "exceeded"@ && a[3] == "too long"@
        && a[4] == "too many tokens"@ && a[5] == "token limit"@ && a[6] == "too large"@ && a[7]
        == "input is too long"@ && a[8] == "message too long"@);
    assert(says_context_too_long(lower) <==> exists|i: int|
        0 <= i < a.len() && contains(lower, #[trigger] a[i]));
}

/// A text that does not speak of the context tells of an overflow where it holds all the
/// words of some provider for it, or is a status without a body, unless it is blank or
/// tells of another error.
pub proof fn law_overflow_words(lower: Seq<char>, k: int)
    requires
        !contains(lower, "context"@),
        !is_blank(lower),
        !is_other_error(lower),
    ensures
        0 <= k < overflow_words().len() && holds_each(lower, overflow_words()[k]) ==> tells_overflow(
            lower,
        ),
        is_empty_body_status(lower) ==> tells_overflow(lower),
{
    law_trimmed(lower);
    if 0 <= k < overflow_words().len() && holds_each(lower, overflow_words()[k]) {
        let words = overflow_words()[k];
        assert(words.len() > 0);
        assert(contains(lower, words[0]));
        if words.len() > 1 {
            assert(contains(lower, words[1]));
        }
        if words.len() > 2 {
            assert(contains(lower, words[2]));
        }
        assert(has_overflow_words(lower));
    }
}

/// Other errors are told apart by how they start or by what they hold.
pub proof fn law_other_errors(lower: Seq<char>)
    ensures
        is_other_error(lower) ==> !tells_overflow(lower),
        starts_with(lower, "throttling error:"@) ==> is_other_error(lower),
        starts_with(lower, "service unavailable:"@) ==> is_other_error(lower),
        contains(lower, "rate limit"@) ==> is_other_error(lower),
        contains(lower, "too many requests"@) ==> is_other_error(lower),
        contains(lower, "request body"@) ==> is_other_error(lower),
        contains(lower, "context switch"@) ==> is_other_error(lower),
        contains(lower, "context deadline"@) ==> is_other_error(lower),
        contains(lower, "context cancel"@) ==> is_other_error(lower),
        is_blank(lower) ==> !tells_overflow(lower),
{
    law_trimmed(lower);
}

/// A status without a body tells of an overflow where it is 400 or 413.
pub proof fn law_empty_body_status(lower: Seq<char>)
    ensures
        is_empty_body_status(lower) <==> contains(trimmed(lower), "no body"@) && (starts_with(
            trimmed(lower),
            "400"@,
        ) || starts_with(trimmed(lower), "413"@)),
{
}

/// An error that says that the window was exceeded is one, another of the provider is one
/// where its text tells so, and no other error is.
pub proof fn law_overflow_errors(e: ErrorView)
    ensures
        e matches ErrorView::Provider(ProviderErrorView::ContextOverflow { .. })
            ==> is_overflow_error(e),
        e matches ErrorView::Provider(ProviderErrorView::Other { message }) ==> is_overflow_error(e)
            == tells_overflow(lowercase(message)),
        is_overflow_error(e) ==> e is Provider,
{
}

/// A message fills a window where its prompt is larger, or where it was cut off without
/// having said anything and its prompt takes all but a hundredth of the window.
pub proof fn law_fills_window(m: AssistantView, window: u32)
    ensures
        m.stop_reason == StopReason::Stop ==> (fills_window(m, window) <==> m.usage.prompt_tokens
            > window),
        m.stop_reason == StopReason::Length && m.usage.completion_tokens == 0 ==> (fills_window(
            m,
            window,
        ) <==> 100 * m.usage.prompt_tokens + 100 > 99 * window),
        m.stop_reason == StopReason::Length && m.usage.completion_tokens > 0 ==> !fills_window(
            m,
            window,
        ),
        m.stop_reason != StopReason::Stop && m.stop_reason != StopReason::Length ==> !fills_window(
            m,
            window,
        ),
{
}

/// A message tells of an overflow by the text of its error, or by what it has used of a
/// window that is known.
pub proof fn law_overflow_messages(m: AssistantView, window: Option<u32>)
    ensures
        m.stop_reason == StopReason::Error ==> (is_overflow_message(m, window) <==> (
        m.error_message matches Some(text) && tells_overflow(lowercase(text)))),
        m.stop_reason != StopReason::Error ==> (is_overflow_message(m, window) <==> (
        window matches Some(size) && fills_window(m, size))),
{
}

} // verus!
