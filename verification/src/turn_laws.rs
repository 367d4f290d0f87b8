//! What holds of single steps of the agent loop: what a reply leads to, what a tool
//! call leaves, and when a conversation is compacted.

use vstd::prelude::*;

use crate::agent_loop::{
    answered, arguments_or_null, call_arguments, compaction_event, compacts, due_compaction, incomplete_response,
    is_overflow, overflow_handled, previous_kept, previous_summary, says_overflow, tool_message,
    tool_outcome, tool_position, usage_sum, window_for, with_compaction_result, with_response,
    with_tool_result, AgentLoopConfig, AnswerView, EventView, LoopView, StepView,
};
use crate::compaction::CompactionView;
use crate::compaction_laws::law_compacted_messages;
use crate::error::{error_text, ErrorView};
use crate::json::{parsed_json, JsonView};
use crate::text::{contains, decimal};
use crate::text_laws::lemma_contains_part;
use crate::token_estimation::total_estimated;
use crate::types::{
    stop_reason, ContentView, FinishReason, MessageView, Role, StopReason, ToolCallView, Usage,
};

verus! {

// ---------------------------------------------------------------------------
// Replies
// ---------------------------------------------------------------------------

/// A reply that calls tools leads to a round in which just those calls are run, as
/// long as there may be another round; beyond that the loop fails, tells so once, and
/// names the limit. A reply without calls ends the loop, which tells the number of
/// turns and the usage. Either way nothing else of the state changes but that the
/// attempts at compaction start anew.
pub proof fn law_reply_decides_the_step(
    s: LoopView,
    config: AgentLoopConfig,
    calls: Option<Seq<ToolCallView>>,
)
    requires
        s.turn < u32::MAX,
    ensures
        ({
            let (next, events, step) = answered(s, config, AnswerView::Calls(calls));
            &&& next.messages == s.messages
            &&& next.total_usage == s.total_usage
            &&& next.last_turn_usage == s.last_turn_usage
            &&& next.compaction_state == s.compaction_state
            &&& next.compaction_retries == 0
            &&& match calls {
                Some(calls) if calls.len() > 0 => {
                    &&& next.turn == s.turn + 1
                    &&& s.turn < config.max_tool_rounds ==> step == StepView::RunTools(calls)
                        && events.len() == 0
                    &&& s.turn >= config.max_tool_rounds ==> {
                        &&& events.len() == 1
                        &&& events[0] matches EventView::Error { error } && contains(
                            error,
                            decimal(config.max_tool_rounds as nat),
                        ) && step == StepView::Failed(
                            ErrorView::Tool { tool: "agent_loop"@, message: error },
                        )
                    }
                },
                _ => {
                    &&& next.turn == s.turn
                    &&& step == StepView::Finished
                    &&& events.len() == 1
                    &&& events[0] matches EventView::Done { turns, total_usage } && turns == s.turn
                        + 1 && total_usage == s.total_usage
                },
            }
        }),
{
    lemma_contains_part(
        "Exceeded maximum tool call rounds ("@,
        decimal(config.max_tool_rounds as nat),
        ")"@,
    );
}

/// A request that is refused because the conversation is too long is tried again
/// after a compaction, twice; the third refusal in a row ends the loop with its
/// error. The size that is told is that of the conversation, as far as it can be
/// counted.
pub proof fn law_overflow_is_compacted_twice(s: LoopView, config: AgentLoopConfig, e: ErrorView)
    requires
        is_overflow(e),
        compacts(config),
        s.compaction_retries < u32::MAX,
    ensures
        ({
            let (next, events, step) = answered(s, config, AnswerView::Refused(e));
            &&& next.compaction_retries == s.compaction_retries + 1
            &&& next.messages == s.messages
            &&& next.turn == s.turn
            &&& next.total_usage == s.total_usage
            &&& next.compaction_state == s.compaction_state
            &&& events.len() == 1
            &&& events[0] is Error
            &&& s.compaction_retries < 2 ==> (step matches StepView::Compact(tokens) && (tokens
                == total_estimated(s.messages) || tokens == u32::MAX && total_estimated(s.messages)
                > u32::MAX))
            &&& s.compaction_retries >= 2 ==> step == StepView::Failed(e)
        }),
{
}

/// Only an error of the provider is one of a conversation that is too long.
pub proof fn law_only_providers_overflow(e: ErrorView)
    ensures
        is_overflow(e) ==> e is Provider,
{
}

/// Where a conversation was compacted after a refusal, the turn is taken again and
/// the attempts start anew; where it was not, the loop ends and tells so.
pub proof fn law_overflow_handled(s: LoopView, compacted: bool)
    requires
        s.turn < u32::MAX,
    ensures
        ({
            let (next, events, again) = overflow_handled(s, compacted);
            &&& again == compacted
            &&& next.messages == s.messages
            &&& next.turn == s.turn
            &&& next.total_usage == s.total_usage
            &&& next.compaction_state == s.compaction_state
            &&& compacted ==> next.compaction_retries == 0 && events.len() == 0
            &&& !compacted ==> next == s && events.len() == 1 && (events[0] matches EventView::Done {
                turns,
                total_usage,
            } && turns == s.turn + 1 && total_usage == s.total_usage)
        }),
{
}

/// A response ends the conversation, is the last one whose usage is known, and its
/// usage is added to the sum, each count up to the largest number.
pub proof fn law_response_is_taken(s: LoopView, message: MessageView, usage: Usage)
    ensures
        ({
            let next = with_response(s, message, usage);
            &&& next.messages == s.messages.push(message)
            &&& next.last_turn_usage == Some(usage)
            &&& next.turn == s.turn
            &&& next.compaction_state == s.compaction_state
            &&& next.compaction_retries == s.compaction_retries
            &&& is_sum(
                next.total_usage.prompt_tokens,
                s.total_usage.prompt_tokens,
                usage.prompt_tokens,
            )
            &&& is_sum(
                next.total_usage.completion_tokens,
                s.total_usage.completion_tokens,
                usage.completion_tokens,
            )
            &&& is_sum(
                next.total_usage.total_tokens,
                s.total_usage.total_tokens,
                usage.total_tokens,
            )
        }),
{
}

/// A number is the sum of two, or the largest number where that is beyond it.
pub open spec fn is_sum(sum: u32, a: u32, b: u32) -> bool {
    sum == a + b || sum == u32::MAX && a + b > u32::MAX
}

/// It makes no difference which of two usages is added to the other, nor in which
/// order three are added.
pub proof fn law_usages_add_up(a: Usage, b: Usage, c: Usage)
    ensures
        usage_sum(a, b) == usage_sum(b, a),
        usage_sum(usage_sum(a, b), c) == usage_sum(a, usage_sum(b, c)),
{
}

/// A response is incomplete exactly where its length was limited or its content was
/// filtered, and the two are told apart.
pub proof fn law_incomplete_responses(reason: Option<FinishReason>)
    ensures
        incomplete_response(reason) is Some <==> reason == Some(FinishReason::Length) || reason
            == Some(FinishReason::ContentFilter),
        incomplete_response(reason) matches Some(e) ==> e is Provider,
        incomplete_response(Some(FinishReason::Length)) != incomplete_response(
            Some(FinishReason::ContentFilter),
        ),
{
    reveal_strlit("Response hit max tokens before completion");
    reveal_strlit("Content filtered by model");
    assert("Response hit max tokens before completion"@[0] == 'R');
    assert("Content filtered by model"@[0] == 'C');
}

/// The phrases that, together with the word "context", tell of a conversation that is
/// too long.
pub open spec fn context_phrases() -> Seq<Seq<char>> {
    seq![
        "length"@,
        "window"@,
        "exceeded"@,
        "too long"@,
        "too many tokens"@,
        "token limit"@,
        "too large"@,
        "input is too long"@,
        "message too long"@,
    ]
}

/// The phrases that tell of it on their own.
pub open spec fn overflow_phrases() -> Seq<Seq<char>> {
    seq![
        "maximum number of tokens allowed"@,
        "input token count exceeds"@,
        "exceeds maximum input tokens"@,
    ]
}

/// Every phrase counts: with the word "context" each of the one kind, without it each
/// of the other, or a prompt that is too long; and nothing else does.
pub proof fn law_overflow_phrases(lower: Seq<char>)
    ensures
        contains(lower, "context"@) ==> (says_overflow(lower) <==> exists|i: int|
            0 <= i < context_phrases().len() && contains(lower, #[trigger] context_phrases()[i])),
        !contains(lower, "context"@) ==> (says_overflow(lower) <==> (contains(lower, "prompt"@)
            && contains(lower, "too long"@)) || exists|i: int|
            0 <= i < overflow_phrases().len() && contains(lower, #[trigger] overflow_phrases()[i])),
{
    let a = context_phrases();
    assert(a[0] == "length"@ && a[1] == "window"@ && a[2] == "exceeded"@ && a[3] == "too long"@
        && a[4] == "too many tokens"@ && a[5] == "token limit"@ && a[6] == "too large"@ && a[7]
        == "input is too long"@ && a[8] == "message too long"@);
    let b = overflow_phrases();
    assert(b[0] == "maximum number of tokens allowed"@ && b[1] == "input token count exceeds"@
        && b[2] == "exceeds maximum input tokens"@);
}

// ---------------------------------------------------------------------------
// Tool calls
// ---------------------------------------------------------------------------

/// What a tool gave is told as it is; where it failed, its error is told, and where
/// no tool has the name, the name is.
pub proof fn law_tool_outcome(name: Seq<char>, outcome: Option<Result<Seq<char>, ErrorView>>)
    ensures
        ({
            let (text, is_error) = tool_outcome(name, outcome);
            match outcome {
                Some(Ok(given)) => text == given && !is_error,
                Some(Err(e)) => is_error && contains(text, error_text(e)),
                None => is_error && contains(text, name),
            }
        }),
{
    match outcome {
        Some(Err(e)) => {
            lemma_contains_part("Error: "@, error_text(e), seq![]);
            assert("Error: "@ + error_text(e) + Seq::<char>::empty() =~= "Error: "@ + error_text(
                e,
            ));
        },
        None => {
            lemma_contains_part("Error: Unknown tool '"@, name, "'"@);
        },
        _ => {},
    }
}

/// A tool call leaves one more message: what the tool gave, as a tool result under the
/// identifier and the name of the call. Nothing else changes.
pub proof fn law_tool_call_leaves_its_result(
    s: LoopView,
    call: ToolCallView,
    outcome: Option<Result<Seq<char>, ErrorView>>,
)
    ensures
        ({
            let next = with_tool_result(s, call, outcome);
            let m = next.messages.last();
            &&& next.messages.len() == s.messages.len() + 1
            &&& next.messages.drop_last() == s.messages
            &&& m.role == Role::Tool
            &&& m.tool_call_id == Some(call.id)
            &&& m.name == Some(call.name)
            &&& m.tool_calls is None
            &&& outcome matches Some(Ok(text)) ==> m.content == Some(ContentView::Text(text))
            &&& outcome matches Some(Err(e)) ==> (m.content matches Some(ContentView::Text(text))
                && contains(text, error_text(e)))
            &&& outcome is None ==> (m.content matches Some(ContentView::Text(text)) && contains(
                text,
                call.name,
            ))
            &&& next.turn == s.turn
            &&& next.total_usage == s.total_usage
            &&& next.last_turn_usage == s.last_turn_usage
            &&& next.compaction_state == s.compaction_state
            &&& next.compaction_retries == s.compaction_retries
        }),
{
    law_tool_outcome(call.name, outcome);
    let next = with_tool_result(s, call, outcome);
    assert(next.messages.last() == tool_message(call, tool_outcome(call.name, outcome).0));
    assert(next.messages.drop_last() =~= s.messages);
}

/// The tool that is run is the first that has the name of the call; none is run
/// exactly where none has it.
pub proof fn law_first_tool_is_run(names: Seq<Seq<char>>, name: Seq<char>)
    ensures
        match tool_position(names, name) {
            Some(i) => 0 <= i < names.len() && names[i] == name && forall|j: int|
                0 <= j < i ==> #[trigger] names[j] != name,
            None => forall|j: int| 0 <= j < names.len() ==> #[trigger] names[j] != name,
        },
    decreases names.len(),
{
    if names.len() > 0 && names[0] != name {
        let rest = names.skip(1);
        law_first_tool_is_run(rest, name);
        assert(forall|j: int| 0 < j < names.len() ==> #[trigger] names[j] == rest[j - 1]);
    }
}

/// Each reason for which a response ends has its own meaning for the message: it
/// stopped, it was cut off, it uses tools, or it failed.
pub proof fn law_stop_reason(reason: FinishReason)
    ensures
        stop_reason(reason) == StopReason::Stop <==> reason == FinishReason::Stop,
        stop_reason(reason) == StopReason::Length <==> reason == FinishReason::Length,
        stop_reason(reason) == StopReason::ToolUse <==> reason == FinishReason::ToolCalls,
        stop_reason(reason) == StopReason::Error <==> reason == FinishReason::ContentFilter,
{
}

/// A tool is given what the arguments hold, and `null` where they cannot be read.
pub proof fn law_arguments_or_null(read: Result<JsonView, Seq<char>>, arguments: Seq<char>)
    ensures
        parsed_json(arguments) matches Ok(value) ==> call_arguments(arguments) == value,
        parsed_json(arguments) is Err ==> call_arguments(arguments) == JsonView::Null,
        read matches Ok(value) ==> arguments_or_null(read) == value,
        read is Err ==> arguments_or_null(read) == JsonView::Null,
{
}

// ---------------------------------------------------------------------------
// Compaction
// ---------------------------------------------------------------------------

/// The window is the configured one; where there is none, it has room for the longest
/// response and for 128000 tokens, and no more than for either.
pub proof fn law_window(config: AgentLoopConfig, max_tokens: Option<u32>)
    ensures
        ({
            let window = window_for(config, max_tokens);
            let configured = match config.compaction {
                Some(settings) => settings.context_window,
                None => None,
            };
            match configured {
                Some(own) => window == own,
                None => {
                    &&& window >= 128_000
                    &&& max_tokens matches Some(n) ==> window >= n
                    &&& window == 128_000 || max_tokens == Some(window)
                },
            }
        }),
{
}

/// A conversation is due for compaction exactly where compaction is configured and
/// enabled, and the conversation with what is reserved takes more than the window.
pub proof fn law_compaction_is_due(config: AgentLoopConfig, window: u32, tokens: nat)
    requires
        tokens <= u32::MAX,
    ensures
        match due_compaction(config, window, tokens) {
            Some(told) => {
                &&& told == tokens
                &&& config.compaction matches Some(settings) && settings.enabled && tokens > 0
                    && tokens + settings.reserve_tokens > window
            },
            None => config.compaction matches Some(settings) ==> !settings.enabled || tokens == 0
                || tokens + settings.reserve_tokens <= window,
        },
{
}

/// After a compaction the conversation is the summary and the kept messages, and the
/// next compaction goes on from there. One that failed changes nothing, and its error
/// is told.
pub proof fn law_compaction_is_applied(s: LoopView, outcome: Result<CompactionView, ErrorView>)
    requires
        outcome matches Ok(c) ==> 0 <= c.first_kept_message_index <= s.messages.len(),
    ensures
        ({
            let next = with_compaction_result(s, outcome);
            match outcome {
                Ok(c) => {
                    let first = c.first_kept_message_index;
                    &&& next.messages.len() == 1 + s.messages.len() - first
                    &&& next.messages[0].role == Role::User
                    &&& forall|i: int|
                        first <= i < s.messages.len() ==> next.messages[1 + i - first]
                            == #[trigger] s.messages[i]
                    &&& previous_summary(next) == Some(c.summary)
                    &&& previous_kept(next) == Some(1usize)
                    &&& next.turn == s.turn
                    &&& next.total_usage == s.total_usage
                    &&& next.compaction_retries == s.compaction_retries
                    &&& compaction_event(outcome) == (EventView::CompactionComplete {
                        compaction: c,
                    })
                },
                Err(e) => {
                    &&& next == s
                    &&& compaction_event(outcome) matches EventView::Error { error } && contains(
                        error,
                        error_text(e),
                    )
                },
            }
        }),
{
    match outcome {
        Ok(c) => {
            law_compacted_messages(s.messages, c.summary, c.first_kept_message_index);
        },
        Err(e) => {
            let head = "Compaction failed: "@;
            lemma_contains_part(head, error_text(e), seq![]);
            assert(head + error_text(e) + Seq::<char>::empty() =~= head + error_text(e));
        },
    }
}

/// Before the first compaction there is no summary to go on from.
pub proof fn law_no_compaction_no_summary(s: LoopView)
    ensures
        s.compaction_state is None <==> previous_summary(s) is None,
        s.compaction_state is None <==> previous_kept(s) is None,
        s.compaction_state matches Some((index, summary)) ==> previous_kept(s) == Some(index)
            && previous_summary(s) == Some(summary),
{
}

} // verus!
