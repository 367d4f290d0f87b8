//! What holds of streams of the Anthropic API: what its events give, and how the use of a
//! tool is put together.

use vstd::prelude::*;

use crate::anthropic::{
    event_kind, event_processed, finish_reason_for, given_chunks, stream_chunks, unreadable_event,
    usage_for,
    AnthropicDelta, AnthropicInput, AnthropicPayload, AnthropicStateView, AnthropicUsage,
    ContentBlockDeltaEvent, ContentBlockStartEvent, MessageDeltaEvent,
};
use crate::error::{ErrorView, ProviderErrorView};
use crate::text::contains;
use crate::text_laws::lemma_contains_part;
use crate::traits::{ChunkView, DeltaView};
use crate::types::FinishReason;

verus! {

proof fn lemma_event_kinds()
    ensures
        "message_stop"@ != "content_block_start"@,
        "message_stop"@ != "content_block_delta"@,
        "message_stop"@ != "content_block_stop"@,
        "message_stop"@ != "message_delta"@,
        "content_block_start"@ != "content_block_delta"@,
        "content_block_start"@ != "content_block_stop"@,
        "content_block_start"@ != "message_delta"@,
        "content_block_delta"@ != "content_block_stop"@,
        "content_block_delta"@ != "message_delta"@,
        "content_block_stop"@ != "message_delta"@,
        "text"@ != "tool_use"@,
        "thinking"@ != "tool_use"@,
{
    reveal_strlit("message_stop");
    reveal_strlit("content_block_start");
    reveal_strlit("content_block_delta");
    reveal_strlit("content_block_stop");
    reveal_strlit("message_delta");
    reveal_strlit("text");
    reveal_strlit("tool_use");
    reveal_strlit("thinking");
    assert("message_stop"@[0] == 'm' && "content_block_start"@[0] == 'c');
    assert("content_block_delta"@[0] == 'c' && "content_block_stop"@[0] == 'c');
    assert("message_delta"@[0] == 'm' && "message_stop"@[8] == 's' && "message_delta"@[8] == 'd');
    assert("content_block_start"@[14] == 's' && "content_block_delta"@[14] == 'd');
    assert("content_block_stop"@[14] == 's' && "content_block_start"@[16] == 'a');
    assert("content_block_stop"@[16] == 'o');
    assert("text"@.len() == 4 && "tool_use"@.len() == 8 && "thinking"@[1] == 'h');
    assert("tool_use"@[1] == 'o');
}

/// A chunk says a text, and nothing else.
pub open spec fn says_only(chunk: ChunkView, text: Seq<char>) -> bool {
    &&& chunk.delta == Some(text)
    &&& chunk.tool_calls.len() == 0
    &&& chunk.finish_reason is None
    &&& chunk.usage is None
}

/// A chunk holds one fragment of a call, and nothing else.
pub open spec fn holds_only(chunk: ChunkView, fragment: DeltaView) -> bool {
    &&& chunk.delta is None
    &&& chunk.tool_calls.len() == 1
    &&& chunk.tool_calls[0] == fragment
    &&& chunk.finish_reason is None
    &&& chunk.usage is None
}

/// More of a block is told as it comes: a text or thinking as text, and a part of the
/// input of a tool as a fragment of the call with the index of the block.
pub proof fn law_deltas_are_told(
    s: AnthropicStateView,
    payload: AnthropicPayload,
    e: ContentBlockDeltaEvent,
)
    requires
        payload.block_delta == Ok::<ContentBlockDeltaEvent, String>(e),
    ensures
        ({
            let (next, outcome) = event_processed(s, "content_block_delta"@, payload);
            &&& outcome matches Ok(Some(chunk)) && match e.delta {
                AnthropicDelta::TextDelta { text } => says_only(chunk, text@) && next == s,
                AnthropicDelta::ThinkingDelta { thinking } => says_only(chunk, thinking@) && next
                    == s,
                AnthropicDelta::InputJsonDelta { partial_json } => {
                    &&& holds_only(
                        chunk,
                        DeltaView {
                            index: e.index,
                            id: None,
                            name: None,
                            arguments_delta: Some(partial_json@),
                        },
                    )
                    &&& next == (AnthropicStateView { tool_args: s.tool_args + partial_json@, ..s })
                },
            }
        }),
{
    lemma_event_kinds();
}

/// The use of a tool is told by the end of its block: the identifier and the name with
/// which it started, under the index with which it started, whatever came in between
/// that started no other block. `middle` is the state before the end.
pub proof fn law_tool_use_is_told_at_its_end(
    s: AnthropicStateView,
    start: AnthropicPayload,
    e: ContentBlockStartEvent,
    middle: AnthropicStateView,
    end: AnthropicPayload,
)
    requires
        start.block_start == Ok::<ContentBlockStartEvent, String>(e),
        e.content_block is ToolUse,
        ({
            let begun = event_processed(s, "content_block_start"@, start).0;
            &&& middle.index == begun.index
            &&& middle.block_type == begun.block_type
            &&& middle.tool_id == begun.tool_id
            &&& middle.tool_name == begun.tool_name
        }),
    ensures
        ({
            let (begun, first) = event_processed(s, "content_block_start"@, start);
            let (after, last) = event_processed(middle, "content_block_stop"@, end);
            let id = e.content_block->id@;
            let name = e.content_block->name@;
            &&& first == Ok::<Option<ChunkView>, ErrorView>(None)
            &&& begun.seen_message_stop == s.seen_message_stop
            &&& begun.tool_args.len() == 0
            &&& last matches Ok(Some(chunk)) && holds_only(
                chunk,
                DeltaView {
                    index: e.index,
                    id: Some(id),
                    name: Some(name),
                    arguments_delta: None,
                },
            )
            &&& after.tool_id is None
            &&& after.tool_name is None
            &&& after.tool_args.len() == 0
            &&& after.block_type is None
        }),
{
    lemma_event_kinds();
}

/// More of a block and what a message ends with leave what is known of the block.
pub proof fn law_other_events_keep_the_block(
    s: AnthropicStateView,
    kind: Seq<char>,
    payload: AnthropicPayload,
)
    requires
        kind != "content_block_start"@,
        kind != "content_block_stop"@,
    ensures
        ({
            let next = event_processed(s, kind, payload).0;
            &&& next.index == s.index
            &&& next.block_type == s.block_type
            &&& next.tool_id == s.tool_id
            &&& next.tool_name == s.tool_name
            &&& kind == "message_stop"@ ==> next.seen_message_stop
            &&& kind != "message_stop"@ ==> next.seen_message_stop == s.seen_message_stop
        }),
{
    lemma_event_kinds();
}

/// The end of a block that is no use of a tool tells nothing.
pub proof fn law_other_blocks_end_quietly(
    s: AnthropicStateView,
    start: AnthropicPayload,
    e: ContentBlockStartEvent,
    end: AnthropicPayload,
)
    requires
        start.block_start == Ok::<ContentBlockStartEvent, String>(e),
        !(e.content_block is ToolUse),
    ensures
        ({
            let begun = event_processed(s, "content_block_start"@, start).0;
            &&& event_processed(begun, "content_block_stop"@, end).1 == Ok::<
                Option<ChunkView>,
                ErrorView,
            >(None)
            &&& begun.index == Some(e.index)
            &&& begun.tool_id == s.tool_id
            &&& begun.tool_name == s.tool_name
        }),
{
    lemma_event_kinds();
}

/// What a message ends with is told: why it stopped, where that is known, and the counts
/// of tokens, of which the total is the sum.
pub proof fn law_message_end_is_told(
    s: AnthropicStateView,
    payload: AnthropicPayload,
    e: MessageDeltaEvent,
)
    requires
        payload.message_delta == Ok::<MessageDeltaEvent, String>(e),
    ensures
        ({
            let (next, outcome) = event_processed(s, "message_delta"@, payload);
            &&& next == s
            &&& outcome matches Ok(Some(chunk)) && {
                &&& chunk.delta is None
                &&& chunk.tool_calls.len() == 0
                &&& e.stop_reason matches Some(reason) ==> chunk.finish_reason == finish_reason_for(
                    reason@,
                )
                &&& e.stop_reason is None ==> chunk.finish_reason is None
                &&& e.usage is None <==> chunk.usage is None
                &&& e.usage matches Some(u) ==> chunk.usage == Some(usage_for(u))
            }
        }),
{
    lemma_event_kinds();
}

/// The counts of a response are those that it gives, and their sum.
pub proof fn law_usage_for(u: AnthropicUsage)
    requires
        u.input_tokens + u.output_tokens <= u32::MAX,
    ensures
        usage_for(u).prompt_tokens == u.input_tokens,
        usage_for(u).completion_tokens == u.output_tokens,
        usage_for(u).total_tokens == u.input_tokens + u.output_tokens,
{
}

/// Each reason to stop has its meaning, and no other has one.
pub proof fn law_stop_reasons(reason: Seq<char>)
    ensures
        finish_reason_for(reason) == Some(FinishReason::Stop) <==> reason == "end_turn"@ || reason
            == "stop_sequence"@,
        finish_reason_for(reason) == Some(FinishReason::Length) <==> reason == "max_tokens"@,
        finish_reason_for(reason) == Some(FinishReason::ToolCalls) <==> reason == "tool_use"@,
        finish_reason_for(reason) != Some(FinishReason::ContentFilter),
{
    reveal_strlit("end_turn");
    reveal_strlit("stop_sequence");
    reveal_strlit("max_tokens");
    reveal_strlit("tool_use");
    assert("end_turn"@[0] == 'e' && "stop_sequence"@[0] == 's' && "max_tokens"@[0] == 'm'
        && "tool_use"@[0] == 't');
}

/// What came of an event is an error that tells the kind of the event and the problem.
pub open spec fn tells_problem(
    outcome: Result<Option<ChunkView>, ErrorView>,
    kind: Seq<char>,
    problem: Seq<char>,
) -> bool {
    outcome matches Err(ErrorView::Provider(ProviderErrorView::Other { message })) && contains(
        message,
        kind,
    ) && contains(message, problem)
}

proof fn lemma_tells_problem(kind: Seq<char>, problem: Seq<char>)
    ensures
        tells_problem(Err(unreadable_event(kind, problem)), kind, problem),
{
    let message = "Failed to parse "@ + kind + ": "@ + problem;
    lemma_contains_part("Failed to parse "@, kind, ": "@ + problem);
    assert("Failed to parse "@ + kind + (": "@ + problem) =~= message);
    lemma_contains_part("Failed to parse "@ + kind + ": "@, problem, seq![]);
    assert(message + Seq::<char>::empty() =~= message);
}

/// An event whose data could not be read is an error that tells its kind and the problem,
/// and leaves the state as it was. One of another kind is passed over.
pub proof fn law_unreadable_events(
    s: AnthropicStateView,
    kind: Seq<char>,
    payload: AnthropicPayload,
)
    ensures
        kind == "content_block_start"@ && payload.block_start is Err ==> event_processed(
            s,
            kind,
            payload,
        ).0 == s && tells_problem(
            event_processed(s, kind, payload).1,
            kind,
            payload.block_start->Err_0@,
        ),
        kind == "content_block_delta"@ && payload.block_delta is Err ==> event_processed(
            s,
            kind,
            payload,
        ).0 == s && tells_problem(
            event_processed(s, kind, payload).1,
            kind,
            payload.block_delta->Err_0@,
        ),
        kind == "message_delta"@ && payload.message_delta is Err ==> event_processed(
            s,
            kind,
            payload,
        ).0 == s && tells_problem(
            event_processed(s, kind, payload).1,
            kind,
            payload.message_delta->Err_0@,
        ),
        kind != "content_block_start"@ && kind != "content_block_delta"@ && kind
            != "content_block_stop"@ && kind != "message_delta"@ && kind != "message_stop"@
            ==> event_processed(s, kind, payload) == (
            s,
            Ok::<Option<ChunkView>, ErrorView>(None),
        ),
{
    lemma_event_kinds();
    if let Err(problem) = payload.block_start {
        lemma_tells_problem("content_block_start"@, problem@);
    }
    if let Err(problem) = payload.block_delta {
        lemma_tells_problem("content_block_delta"@, problem@);
    }
    if let Err(problem) = payload.message_delta {
        lemma_tells_problem("message_delta"@, problem@);
    }
}

/// A stream gives what its events do, in order: what the first gives comes first, and the
/// rest follows from the state after it. A stream that fails gives one more error, and
/// one that ends gives one exactly where its message has not been completed.
pub proof fn law_stream_gives_its_events(
    inputs: Seq<AnthropicInput>,
    s: AnthropicStateView,
    input: AnthropicInput,
)
    ensures
        stream_chunks(Seq::empty(), s).len() == if s.seen_message_stop {
            0nat
        } else {
            1nat
        },
        !s.seen_message_stop ==> stream_chunks(Seq::empty(), s)[0] is Err,
        input is Failed ==> stream_chunks(seq![input] + inputs, s).len() == 1 && stream_chunks(
            seq![input] + inputs,
            s,
        )[0] is Err,
        input matches AnthropicInput::Event { event, payload } ==> {
            let (next, outcome) = event_processed(s, event_kind(event.deep_view().event), payload);
            let chunks = stream_chunks(seq![input] + inputs, s);
            let later = stream_chunks(inputs, next);
            match outcome {
                Ok(Some(chunk)) => chunks == seq![Ok::<ChunkView, ErrorView>(chunk)] + later,
                Ok(None) => chunks == later,
                Err(e) => chunks == seq![Err::<ChunkView, ErrorView>(e)] + later,
            }
        },
{
    let all = seq![input] + inputs;
    assert(all[0] == input);
    assert(all.skip(1) =~= inputs);
    if let AnthropicInput::Event { event, payload } = input {
        let (next, outcome) = event_processed(s, event_kind(event.deep_view().event), payload);
        let later = stream_chunks(inputs, next);
        assert(stream_chunks(all, s) == given_chunks(outcome) + later);
        if let Ok(None) = outcome {
            assert(given_chunks(outcome) + later =~= later);
        }
    }
}

} // verus!
