//! The agent loop: the core execution engine that orchestrates LLM calls and tool execution.
//!
//! The loop alternates between a provider, the tools, and decisions. The
//! decisions stand here: each takes what the provider or a tool came back with,
//! changes the state of the loop, and says which events to report and what to
//! do next.

use vstd::prelude::*;

use crate::compaction::{
    answer_view, asks_for_summary, finish_compaction, finished, plan_compaction,
    prepare_compaction, prepared, should_compact, summarizes_turn, summary_budget, summary_prompt,
    turn_prefix_prompt, wants_compaction, CompactionPlan, CompactionPreparation, CompactionResult,
    CompactionSettings, CompactionView,
};
use crate::error::{error_text, provider_error_text, ErrorView, PiError, ProviderErrorView};
use crate::json::{parse_json, parsed_json, Json, JsonView};
use crate::text::{
    contains, contains_text, decimal, decimal_text, lowercase, same_text, to_lowercase,
};
use crate::token_estimation::{
    capped, checked_context_tokens, context_tokens, estimate_tokens, estimated,
    sum_tokens_saturating, total_estimated,
};
use crate::traits::{ChunkView, DeltaView, StreamChunk, ToolCallDelta};
use crate::types::{
    escape_xml_tags, escaped, text_message, BlockView, ChatResponse, ContentBlock, ContentView,
    FinishReason, FunctionCall, Message, MessageContent, MessageView, Role, ToolCall, ToolCallView,
    Usage,
};

verus! {

// ---------------------------------------------------------------------------
// Events and configuration
// ---------------------------------------------------------------------------

/// Events emitted during agent execution.
#[derive(Debug)]
#[allow(inconsistent_fields)]
pub enum AgentEvent {
    /// A new turn started (LLM call initiated).
    TurnStart {
        /// Which turn number (0-indexed).
        turn: u32,
    },
    /// Text delta streamed from the LLM.
    TextDelta {
        /// The text fragment.
        text: String,
    },
    /// Thinking/reasoning delta (for models that support it).
    ThinkingDelta {
        /// The thinking fragment.
        text: String,
    },
    /// A tool call started streaming.
    ToolCallStart {
        /// Tool call ID.
        id: String,
        /// Tool name.
        name: String,
    },
    /// Tool call arguments delta.
    ToolCallDelta {
        /// Tool call ID.
        id: String,
        /// Partial arguments.
        arguments_delta: String,
    },
    /// Tool execution started.
    ToolExecutionStart {
        /// Tool call ID.
        id: String,
        /// Tool name.
        name: String,
        /// Parsed arguments.
        arguments: Json,
    },
    /// Tool execution completed.
    ToolExecutionEnd {
        /// Tool call ID.
        id: String,
        /// Tool name.
        name: String,
        /// Execution result.
        result: String,
        /// Whether the execution errored.
        is_error: bool,
    },
    /// Assistant turn completed.
    TurnEnd {
        /// Turn number.
        turn: u32,
        /// The assistant message.
        message: Message,
        /// Token usage for this turn.
        usage: Option<Usage>,
    },
    /// Agent loop completed (no more tool calls).
    Done {
        /// Total turns taken.
        turns: u32,
        /// Cumulative token usage.
        total_usage: Usage,
    },
    /// An error occurred.
    Error {
        /// Error description.
        error: String,
    },
    /// Compaction was triggered.
    CompactionTriggered {
        /// Tokens before compaction.
        tokens_before: u32,
    },
    /// Compaction completed.
    CompactionComplete {
        /// The full compaction result.
        result: CompactionResult,
    },
}

/// What an event holds.
pub enum EventView {
    TurnStart { turn: u32 },
    TextDelta { text: Seq<char> },
    ThinkingDelta { text: Seq<char> },
    ToolCallStart { id: Seq<char>, name: Seq<char> },
    ToolCallDelta { id: Seq<char>, arguments_delta: Seq<char> },
    ToolExecutionStart { id: Seq<char>, name: Seq<char>, arguments: JsonView },
    ToolExecutionEnd { id: Seq<char>, name: Seq<char>, outcome: Seq<char>, is_error: bool },
    TurnEnd { turn: u32, message: MessageView, usage: Option<Usage> },
    Done { turns: u32, total_usage: Usage },
    Error { error: Seq<char> },
    CompactionTriggered { tokens_before: u32 },
    CompactionComplete { compaction: CompactionView },
}

impl DeepView for AgentEvent {
    type V = EventView;

    open spec fn deep_view(&self) -> EventView {
        match *self {
            AgentEvent::TurnStart { turn } => EventView::TurnStart { turn },
            AgentEvent::TextDelta { text } => EventView::TextDelta { text: text@ },
            AgentEvent::ThinkingDelta { text } => EventView::ThinkingDelta { text: text@ },
            AgentEvent::ToolCallStart { id, name } => EventView::ToolCallStart {
                id: id@,
                name: name@,
            },
            AgentEvent::ToolCallDelta { id, arguments_delta } => EventView::ToolCallDelta {
                id: id@,
                arguments_delta: arguments_delta@,
            },
            AgentEvent::ToolExecutionStart { id, name, arguments } => {
                EventView::ToolExecutionStart {
                    id: id@,
                    name: name@,
                    arguments: arguments.deep_view(),
                }
            },
            AgentEvent::ToolExecutionEnd { id, name, result, is_error } => {
                EventView::ToolExecutionEnd {
                    id: id@,
                    name: name@,
                    outcome: result@,
                    is_error,
                }
            },
            AgentEvent::TurnEnd { turn, message, usage } => EventView::TurnEnd {
                turn,
                message: message.deep_view(),
                usage,
            },
            AgentEvent::Done { turns, total_usage } => EventView::Done { turns, total_usage },
            AgentEvent::Error { error } => EventView::Error { error: error@ },
            AgentEvent::CompactionTriggered { tokens_before } => EventView::CompactionTriggered {
                tokens_before,
            },
            AgentEvent::CompactionComplete { result } => EventView::CompactionComplete {
                compaction: result.deep_view(),
            },
        }
    }
}

/// Configuration for the agent loop.
#[derive(Debug, Clone, Copy)]
pub struct AgentLoopConfig {
    /// Maximum number of tool-call rounds before forcing stop.
    pub max_tool_rounds: u32,
    /// Whether to stream responses.
    pub stream: bool,
    /// Compaction settings. If None, compaction is disabled.
    pub compaction: Option<CompactionSettings>,
}

impl Default for AgentLoopConfig {
    fn default() -> (r: Self)
        ensures
            r == (AgentLoopConfig { max_tool_rounds: 50, stream: true, compaction: None }),
    {
        AgentLoopConfig { max_tool_rounds: 50, stream: true, compaction: None }
    }
}

/// The context window that compaction goes by: the configured one, or else the
/// larger of the response's token limit and 128000.
pub open spec fn window_for(config: AgentLoopConfig, max_tokens: Option<u32>) -> u32 {
    let fallback = match max_tokens {
        Some(n) => if n >= 128_000 {
            n
        } else {
            128_000
        },
        None => 128_000,
    };
    match config.compaction {
        Some(settings) => match settings.context_window {
            Some(window) => window,
            None => fallback,
        },
        None => fallback,
    }
}

/// Derive the context window that compaction goes by.
pub fn context_window(config: &AgentLoopConfig, max_tokens: Option<u32>) -> (r: u32)
    ensures
        r == window_for(*config, max_tokens),
{
    let fallback: u32 = match max_tokens {
        Some(n) => if n >= 128_000 {
            n
        } else {
            128_000
        },
        None => 128_000,
    };
    match config.compaction {
        Some(settings) => match settings.context_window {
            Some(window) => window,
            None => fallback,
        },
        None => fallback,
    }
}

// ---------------------------------------------------------------------------
// Compaction of the messages in memory
// ---------------------------------------------------------------------------

/// What the message that stands for compacted history holds.
pub open spec fn summary_message(summary: Seq<char>) -> MessageView {
    text_message(
        Role::User,
        "The conversation history before this point was compacted into the following summary:\n\n<summary>\n"@
            + escaped(summary) + "\n</summary>"@,
    )
}

/// Create the synthetic summary message injected after compaction.
///
/// Shared by [`apply_compaction`] (in-memory agent loop) and
/// `Session::build_context` (session persistence) to guarantee identical
/// formatting.
pub fn create_compaction_summary_message(summary: &str) -> (r: Message)
    ensures
        r.deep_view() == summary_message(summary@),
{
    let mut text: String = String::new();
    text.push_str(
        "The conversation history before this point was compacted into the following summary:\n\n<summary>\n",
    );
    text.push_str(&escape_xml_tags(summary));
    text.push_str("\n</summary>");
    Message::text(Role::User, text)
}

/// Messages after a compaction: the summary, then the messages that were kept.
pub open spec fn compacted_messages(
    messages: Seq<MessageView>,
    summary: Seq<char>,
    first_kept: int,
) -> Seq<MessageView> {
    seq![summary_message(summary)] + messages.skip(first_kept)
}

/// Apply a compaction result to the in-memory messages vector.
pub fn apply_compaction(messages: &mut Vec<Message>, result: &CompactionResult)
    requires
        result.first_kept_message_index <= old(messages)@.len(),
    ensures
        final(messages).deep_view() == compacted_messages(
            old(messages).deep_view(),
            result.summary@,
            result.first_kept_message_index as int,
        ),
{
    let ghost before = messages.deep_view();
    let mut kept: Vec<Message> = messages.split_off(result.first_kept_message_index);
    messages.clear();
    messages.push(create_compaction_summary_message(&result.summary));
    messages.append(&mut kept);
    assert(messages.deep_view() =~= compacted_messages(
        before,
        result.summary@,
        result.first_kept_message_index as int,
    ));
}

// ---------------------------------------------------------------------------
// Errors
// ---------------------------------------------------------------------------

/// The error for a response that ended before it was complete.
pub open spec fn incomplete_response(reason: Option<FinishReason>) -> Option<ErrorView> {
    match reason {
        Some(FinishReason::Length) => Some(
            ErrorView::Provider(
                ProviderErrorView::Other {
                    message: "Response hit max tokens before completion"@,
                },
            ),
        ),
        Some(FinishReason::ContentFilter) => Some(
            ErrorView::Provider(ProviderErrorView::Other { message: "Content filtered by model"@ }),
        ),
        _ => None,
    }
}

/// The error for a response that ended before it was complete.
pub fn finish_reason_error(reason: Option<FinishReason>) -> (r: Option<PiError>)
    ensures
        r.deep_view() == incomplete_response(reason),
{
    match reason {
        Some(FinishReason::Length) => Some(
            PiError::provider("Response hit max tokens before completion"),
        ),
        Some(FinishReason::ContentFilter) => Some(PiError::provider("Content filtered by model")),
        _ => None,
    }
}

/// A message in lower case says that the context window was exceeded: it speaks
/// of the context together with a size or a limit, or has one of the phrases of
/// providers that do without the word.
pub open spec fn says_overflow(lower: Seq<char>) -> bool {
    if contains(lower, "context"@) {
        ||| contains(lower, "length"@)
        ||| contains(lower, "window"@)
        ||| contains(lower, "exceeded"@)
        ||| contains(lower, "too long"@)
        ||| contains(lower, "too many tokens"@)
        ||| contains(lower, "token limit"@)
        ||| contains(lower, "too large"@)
        ||| contains(lower, "input is too long"@)
        ||| contains(lower, "message too long"@)
    } else {
        ||| contains(lower, "maximum number of tokens allowed"@)
        ||| contains(lower, "input token count exceeds"@)
        ||| contains(lower, "exceeds maximum input tokens"@)
        ||| contains(lower, "prompt"@) && contains(lower, "too long"@)
    }
}

/// An error says that the context window was exceeded.
pub open spec fn is_overflow(e: ErrorView) -> bool {
    match e {
        ErrorView::Provider(p) => says_overflow(lowercase(provider_error_text(p))),
        _ => false,
    }
}

/// Check if a message in lower case indicates context window overflow.
pub fn mentions_overflow(lower: &str) -> (r: bool)
    ensures
        r == says_overflow(lower@),
{
    if contains_text(lower, "context") {
        contains_text(lower, "length") || contains_text(lower, "window") || contains_text(
            lower,
            "exceeded",
        ) || contains_text(lower, "too long") || contains_text(lower, "too many tokens")
            || contains_text(lower, "token limit") || contains_text(lower, "too large")
            || contains_text(lower, "input is too long") || contains_text(
            lower,
            "message too long",
        )
    } else {
        contains_text(lower, "maximum number of tokens allowed") || contains_text(
            lower,
            "input token count exceeds",
        ) || contains_text(lower, "exceeds maximum input tokens") || (contains_text(
            lower,
            "prompt",
        ) && contains_text(lower, "too long"))
    }
}

/// Check if an error indicates context window overflow.
pub fn is_context_overflow(error: &PiError) -> (r: bool)
    ensures
        r == is_overflow(error.deep_view()),
{
    match error {
        PiError::Provider(e) => mentions_overflow(&to_lowercase(&e.to_text())),
        _ => false,
    }
}

// ---------------------------------------------------------------------------
// Streaming
// ---------------------------------------------------------------------------

/// What has come of a streamed response so far.
#[derive(Debug)]
pub struct StreamState {
    /// The text so far.
    pub text: String,
    /// The tool calls so far, in the order of their indices.
    pub calls: Vec<ToolCallDelta>,
    /// The finish reason of the last chunk.
    pub finish_reason: Option<FinishReason>,
    /// The usage that was reported last.
    pub usage: Option<Usage>,
}

/// What the state of a stream holds.
pub struct StreamView {
    pub text: Seq<char>,
    pub calls: Seq<DeltaView>,
    pub finish_reason: Option<FinishReason>,
    pub usage: Option<Usage>,
}

impl DeepView for StreamState {
    type V = StreamView;

    open spec fn deep_view(&self) -> StreamView {
        StreamView {
            text: self.text@,
            calls: self.calls.deep_view(),
            finish_reason: self.finish_reason,
            usage: self.usage,
        }
    }
}

/// The position of the call with an index.
pub open spec fn call_position(calls: Seq<DeltaView>, index: u32) -> Option<int>
    decreases calls.len(),
{
    if calls.len() == 0 {
        None
    } else if calls.last().index == index {
        Some(calls.len() - 1)
    } else {
        call_position(calls.drop_last(), index)
    }
}

/// A partial call with one more fragment: a new ID or name takes the place of
/// the old one, and the arguments grow.
pub open spec fn merged_call(call: DeltaView, d: DeltaView) -> DeltaView {
    DeltaView {
        index: call.index,
        id: if d.id is Some {
            d.id
        } else {
            call.id
        },
        name: if d.name is Some {
            d.name
        } else {
            call.name
        },
        arguments_delta: match d.arguments_delta {
            Some(more) => match call.arguments_delta {
                Some(so_far) => Some(so_far + more),
                None => Some(more),
            },
            None => call.arguments_delta,
        },
    }
}

/// The call with an index, or an empty one where there is none.
pub open spec fn call_with_index(calls: Seq<DeltaView>, index: u32) -> DeltaView {
    match call_position(calls, index) {
        Some(i) => calls[i],
        None => DeltaView { index, id: None, name: None, arguments_delta: None },
    }
}

/// The place of a new call with an index: behind the last call with a smaller one.
pub open spec fn place_for(calls: Seq<DeltaView>, index: u32) -> int
    decreases calls.len(),
{
    if calls.len() == 0 || calls.last().index < index {
        calls.len() as int
    } else {
        place_for(calls.drop_last(), index)
    }
}

/// Calls with one more fragment.
pub open spec fn with_fragment(calls: Seq<DeltaView>, d: DeltaView) -> Seq<DeltaView> {
    let call = merged_call(call_with_index(calls, d.index), d);
    match call_position(calls, d.index) {
        Some(i) => calls.update(i, call),
        None => calls.insert(place_for(calls, d.index), call),
    }
}

/// The events for a fragment: the call starts when its ID and name come
/// together, and its arguments grow once it has an ID.
pub open spec fn fragment_events(calls: Seq<DeltaView>, d: DeltaView) -> Seq<EventView> {
    let call = merged_call(call_with_index(calls, d.index), d);
    (match (d.id, d.name) {
        (Some(id), Some(name)) => seq![EventView::ToolCallStart { id, name }],
        _ => seq![],
    }) + match (call.id, d.arguments_delta) {
        (Some(id), Some(arguments_delta)) => seq![EventView::ToolCallDelta { id, arguments_delta }],
        _ => seq![],
    }
}

/// Calls with more fragments, one after the other.
pub open spec fn with_fragments(calls: Seq<DeltaView>, ds: Seq<DeltaView>) -> Seq<DeltaView>
    decreases ds.len(),
{
    if ds.len() == 0 {
        calls
    } else {
        with_fragment(with_fragments(calls, ds.drop_last()), ds.last())
    }
}

/// The events for fragments, one after the other.
pub open spec fn fragments_events(calls: Seq<DeltaView>, ds: Seq<DeltaView>) -> Seq<EventView>
    decreases ds.len(),
{
    if ds.len() == 0 {
        seq![]
    } else {
        fragments_events(calls, ds.drop_last()) + fragment_events(
            with_fragments(calls, ds.drop_last()),
            ds.last(),
        )
    }
}

/// The state of a stream after one more chunk.
pub open spec fn with_chunk(s: StreamView, chunk: ChunkView) -> StreamView {
    StreamView {
        text: match chunk.delta {
            Some(text) => s.text + text,
            None => s.text,
        },
        calls: with_fragments(s.calls, chunk.tool_calls),
        finish_reason: chunk.finish_reason,
        usage: if chunk.usage is Some {
            chunk.usage
        } else {
            s.usage
        },
    }
}

/// The events for a chunk.
pub open spec fn chunk_events(s: StreamView, chunk: ChunkView) -> Seq<EventView> {
    (match chunk.delta {
        Some(text) => seq![EventView::TextDelta { text }],
        None => seq![],
    }) + fragments_events(s.calls, chunk.tool_calls)
}

/// A call that has an ID and a name.
pub open spec fn finished_call(call: DeltaView) -> Seq<ToolCallView> {
    match (call.id, call.name) {
        (Some(id), Some(name)) => seq![
            ToolCallView {
                id,
                name,
                arguments: match call.arguments_delta {
                    Some(a) => a,
                    None => seq![],
                },
            },
        ],
        _ => seq![],
    }
}

/// The calls that have an ID and a name.
pub open spec fn finished_calls(calls: Seq<DeltaView>) -> Seq<ToolCallView>
    decreases calls.len(),
{
    if calls.len() == 0 {
        seq![]
    } else {
        finished_calls(calls.drop_last()) + finished_call(calls.last())
    }
}

/// The message of a streamed response.
pub open spec fn streamed_message(s: StreamView) -> MessageView {
    let calls = finished_calls(s.calls);
    MessageView {
        role: Role::Assistant,
        content: if s.text.len() == 0 {
            None
        } else {
            Some(ContentView::Blocks(seq![BlockView::Text { text: s.text }]))
        },
        tool_calls: if calls.len() == 0 {
            None
        } else {
            Some(calls)
        },
        tool_call_id: None,
        name: None,
    }
}

/// The usage of a streamed response: what was reported, or else an estimate of
/// the message.
pub open spec fn streamed_usage(s: StreamView) -> Usage {
    match s.usage {
        Some(usage) => usage,
        None => {
            let estimate = estimated(streamed_message(s));
            Usage { prompt_tokens: 0, completion_tokens: estimate, total_tokens: estimate }
        },
    }
}

impl StreamState {
    /// The state before the first chunk.
    pub fn new() -> (r: Self)
        ensures
            r.deep_view() == (StreamView {
                text: seq![],
                calls: seq![],
                finish_reason: None,
                usage: None,
            }),
    {
        let calls: Vec<ToolCallDelta> = Vec::new();
        assert(calls.deep_view() =~= seq![]);
        StreamState { text: String::new(), calls, finish_reason: None, usage: None }
    }

    /// Take in a fragment of a tool call.
    fn push_fragment(&mut self, d: &ToolCallDelta, events: &mut Vec<AgentEvent>)
        ensures
            final(self).deep_view() == (StreamView {
                calls: with_fragment(old(self).deep_view().calls, d.deep_view()),
                ..old(self).deep_view()
            }),
            final(events).deep_view() == old(events).deep_view() + fragment_events(
                old(self).deep_view().calls,
                d.deep_view(),
            ),
    {
        let ghost before = self.calls.deep_view();
        let ghost events_before = events.deep_view();
        let mut at: usize = self.calls.len();
        let mut found: bool = false;
        assert(before.take(before.len() as int) =~= before);
        while at > 0 && !found
            invariant
                before == self.calls.deep_view(),
                at <= self.calls@.len(),
                !found ==> call_position(before.take(at as int), d.index) == call_position(
                    before,
                    d.index,
                ),
                found ==> at > 0 && call_position(before, d.index) == Some(at - 1),
            decreases at + if found {
                0int
            } else {
                1int
            },
        {
            assert(before.take(at as int).drop_last() =~= before.take(at - 1));
            assert(before.take(at as int).last() == self.calls@[at - 1].deep_view());
            if self.calls[at - 1].index == d.index {
                found = true;
            } else {
                at = at - 1;
            }
        }
        let mut entry: ToolCallDelta = if found {
            self.calls[at - 1].clone()
        } else {
            ToolCallDelta { index: d.index, id: None, name: None, arguments_delta: None }
        };
        assert(found ==> before[at - 1] == entry.deep_view());
        assert(entry.deep_view() == call_with_index(before, d.index));
        let ghost mut started: Seq<EventView> = seq![];
        let ghost mut grown: Seq<EventView> = seq![];
        if let Some(id) = &d.id {
            entry.id = Some(id.clone());
            if let Some(name) = &d.name {
                events.push(AgentEvent::ToolCallStart { id: id.clone(), name: name.clone() });
                proof {
                    started = seq![EventView::ToolCallStart { id: id@, name: name@ }];
                }
            }
        }
        assert(events.deep_view() =~= events_before + started);
        if let Some(name) = &d.name {
            entry.name = Some(name.clone());
        }
        if let Some(more) = &d.arguments_delta {
            let mut arguments: String = match entry.arguments_delta {
                Some(so_far) => so_far,
                None => String::new(),
            };
            let ghost so_far = arguments@;
            arguments.push_str(more);
            assert(so_far.len() == 0 ==> so_far + more@ =~= more@);
            entry.arguments_delta = Some(arguments);
            if let Some(id) = &entry.id {
                events.push(
                    AgentEvent::ToolCallDelta { id: id.clone(), arguments_delta: more.clone() },
                );
                proof {
                    grown = seq![
                        EventView::ToolCallDelta { id: id@, arguments_delta: more@ },
                    ];
                }
            }
        }
        let ghost call = merged_call(call_with_index(before, d.index), d.deep_view());
        assert(entry.deep_view() == call);
        assert(events.deep_view() =~= events_before + (started + grown));
        if found {
            self.calls.set(at - 1, entry);
            assert(self.calls.deep_view() =~= before.update(at - 1, call));
        } else {
            let mut place: usize = self.calls.len();
            while place > 0 && self.calls[place - 1].index >= d.index
                invariant
                    before == self.calls.deep_view(),
                    place <= self.calls@.len(),
                    place_for(before.take(place as int), d.index) == place_for(before, d.index),
                decreases place,
            {
                assert(before.take(place as int).drop_last() =~= before.take(place - 1));
                assert(before.take(place as int).last() == self.calls@[place - 1].deep_view());
                place = place - 1;
            }
            proof {
                if place > 0 {
                    assert(before.take(place as int).last() == self.calls@[place - 1].deep_view());
                }
            }
            self.calls.insert(place, entry);
            assert(self.calls.deep_view() =~= before.insert(place as int, call));
        }
    }

    /// Take in a chunk. Returns the events to report.
    pub fn push_chunk(&mut self, chunk: &StreamChunk) -> (r: Vec<AgentEvent>)
        ensures
            final(self).deep_view() == with_chunk(old(self).deep_view(), chunk.deep_view()),
            r.deep_view() == chunk_events(old(self).deep_view(), chunk.deep_view()),
    {
        let ghost before = self.deep_view();
        let ghost deltas = chunk.tool_calls.deep_view();
        let mut events: Vec<AgentEvent> = Vec::new();
        let ghost mut head: Seq<EventView> = seq![];
        if let Some(text) = &chunk.delta {
            self.text.push_str(text);
            events.push(AgentEvent::TextDelta { text: text.clone() });
            proof {
                head = seq![EventView::TextDelta { text: text@ }];
            }
        }
        assert(events.deep_view() =~= head);
        let mut i: usize = 0;
        assert(deltas.take(0) =~= seq![]);
        assert(head + fragments_events(before.calls, deltas.take(0)) =~= head);
        let ghost text = self.text@;
        while i < chunk.tool_calls.len()
            invariant
                deltas == chunk.tool_calls.deep_view(),
                i <= chunk.tool_calls@.len(),
                self.deep_view() == (StreamView {
                    text,
                    calls: with_fragments(before.calls, deltas.take(i as int)),
                    ..before
                }),
                events.deep_view() == head + fragments_events(
                    before.calls,
                    deltas.take(i as int),
                ),
            decreases chunk.tool_calls@.len() - i,
        {
            assert(deltas.take(i + 1).drop_last() =~= deltas.take(i as int));
            assert(deltas.take(i + 1).last() == chunk.tool_calls@[i as int].deep_view());
            self.push_fragment(&chunk.tool_calls[i], &mut events);
            i = i + 1;
            assert(events.deep_view() =~= head + fragments_events(
                before.calls,
                deltas.take(i as int),
            ));
        }
        assert(deltas.take(deltas.len() as int) =~= deltas);
        self.finish_reason = chunk.finish_reason;
        if chunk.usage.is_some() {
            self.usage = chunk.usage;
        }
        events
    }

    /// The calls that have an ID and a name.
    fn finished_calls(&self) -> (r: Vec<ToolCall>)
        ensures
            r.deep_view() == finished_calls(self.deep_view().calls),
    {
        let ghost all = self.calls.deep_view();
        let mut r: Vec<ToolCall> = Vec::new();
        let mut i: usize = 0;
        assert(all.take(0) =~= seq![]);
        assert(r.deep_view() =~= seq![]);
        while i < self.calls.len()
            invariant
                all == self.calls.deep_view(),
                i <= self.calls@.len(),
                r.deep_view() == finished_calls(all.take(i as int)),
            decreases self.calls@.len() - i,
        {
            assert(all.take(i + 1).drop_last() =~= all.take(i as int));
            assert(all.take(i + 1).last() == self.calls@[i as int].deep_view());
            let ghost before = r.deep_view();
            let call: &ToolCallDelta = &self.calls[i];
            if let (Some(id), Some(name)) = (&call.id, &call.name) {
                let arguments: String = match &call.arguments_delta {
                    Some(a) => a.clone(),
                    None => String::new(),
                };
                r.push(
                    ToolCall {
                        id: id.clone(),
                        function: FunctionCall { name: name.clone(), arguments },
                    },
                );
            }
            i = i + 1;
            assert(r.deep_view() =~= finished_calls(all.take(i as int)));
        }
        assert(all.take(all.len() as int) =~= all);
        r
    }

    /// The message of the response.
    pub fn message(&self) -> (r: Message)
        ensures
            r.deep_view() == streamed_message(self.deep_view()),
    {
        let calls: Vec<ToolCall> = self.finished_calls();
        let content: Option<MessageContent> = if self.text.as_str().is_empty() {
            None
        } else {
            let mut blocks: Vec<ContentBlock> = Vec::new();
            blocks.push(ContentBlock::Text { text: self.text.clone() });
            assert(blocks.deep_view() =~= seq![BlockView::Text { text: self.text@ }]);
            Some(MessageContent::Blocks(blocks))
        };
        Message {
            role: Role::Assistant,
            content,
            tool_calls: if calls.len() == 0 {
                None
            } else {
                Some(calls)
            },
            tool_call_id: None,
            name: None,
        }
    }
}


// ---------------------------------------------------------------------------
// The loop
// ---------------------------------------------------------------------------

/// The state of an agent loop.
#[derive(Debug)]
pub struct LoopState {
    /// The conversation.
    pub messages: Vec<Message>,
    /// The number of tool-call rounds so far.
    pub turn: u32,
    /// Cumulative token usage.
    pub total_usage: Usage,
    /// Token usage of the last response.
    pub last_turn_usage: Option<Usage>,
    /// What the last compaction left: the index of its first kept message, and
    /// its summary.
    pub compaction_state: Option<(usize, String)>,
    /// How often compaction was tried since the last response.
    pub compaction_retries: u32,
}

/// What the state of a loop holds.
pub struct LoopView {
    pub messages: Seq<MessageView>,
    pub turn: u32,
    pub total_usage: Usage,
    pub last_turn_usage: Option<Usage>,
    pub compaction_state: Option<(usize, Seq<char>)>,
    pub compaction_retries: u32,
}

impl DeepView for LoopState {
    type V = LoopView;

    open spec fn deep_view(&self) -> LoopView {
        LoopView {
            messages: self.messages.deep_view(),
            turn: self.turn,
            total_usage: self.total_usage,
            last_turn_usage: self.last_turn_usage,
            compaction_state: match self.compaction_state {
                Some((index, summary)) => Some((index, summary@)),
                None => None,
            },
            compaction_retries: self.compaction_retries,
        }
    }
}

/// What a loop does next.
#[derive(Debug)]
pub enum LoopStep {
    /// The loop is done.
    Finished,
    /// The loop failed.
    Failed(PiError),
    /// Run the tools that the response calls for.
    RunTools(Vec<ToolCall>),
    /// Compact the conversation of so many tokens, and try again.
    Compact(u32),
}

/// What a step holds.
pub enum StepView {
    Finished,
    Failed(ErrorView),
    RunTools(Seq<ToolCallView>),
    Compact(u32),
}

impl DeepView for LoopStep {
    type V = StepView;

    open spec fn deep_view(&self) -> StepView {
        match *self {
            LoopStep::Finished => StepView::Finished,
            LoopStep::Failed(e) => StepView::Failed(e.deep_view()),
            LoopStep::RunTools(calls) => StepView::RunTools(calls.deep_view()),
            LoopStep::Compact(tokens) => StepView::Compact(tokens),
        }
    }
}

/// A state of a loop that has not failed: it has taken no more rounds than it
/// may, and tried compaction no more than twice.
pub open spec fn is_running(s: LoopView, config: AgentLoopConfig) -> bool {
    s.turn <= config.max_tool_rounds && s.compaction_retries <= 2
}

/// The sum of two usages, up to the largest number.
pub open spec fn usage_sum(a: Usage, b: Usage) -> Usage {
    Usage {
        prompt_tokens: capped(a.prompt_tokens as nat + b.prompt_tokens as nat),
        completion_tokens: capped(a.completion_tokens as nat + b.completion_tokens as nat),
        total_tokens: capped(a.total_tokens as nat + b.total_tokens as nat),
    }
}

/// The state after a response.
pub open spec fn with_response(s: LoopView, message: MessageView, usage: Usage) -> LoopView {
    LoopView {
        messages: s.messages.push(message),
        total_usage: usage_sum(s.total_usage, usage),
        last_turn_usage: Some(usage),
        ..s
    }
}

/// What came of asking the provider.
#[derive(Debug)]
pub enum ProviderAnswer {
    /// A whole response, with the tool calls that it makes.
    Calls(Option<Vec<ToolCall>>),
    /// No response: the request failed.
    Refused(PiError),
    /// A response that broke off, or ended before it was complete.
    Broken(PiError),
}

/// What a provider's answer holds.
pub enum AnswerView {
    Calls(Option<Seq<ToolCallView>>),
    Refused(ErrorView),
    Broken(ErrorView),
}

impl DeepView for ProviderAnswer {
    type V = AnswerView;

    open spec fn deep_view(&self) -> AnswerView {
        match *self {
            ProviderAnswer::Calls(calls) => AnswerView::Calls(calls.deep_view()),
            ProviderAnswer::Refused(e) => AnswerView::Refused(e.deep_view()),
            ProviderAnswer::Broken(e) => AnswerView::Broken(e.deep_view()),
        }
    }
}

/// A list of events with one event in it.
fn one_event(event: AgentEvent) -> (r: Vec<AgentEvent>)
    ensures
        r.deep_view() == seq![event.deep_view()],
{
    let mut r: Vec<AgentEvent> = Vec::new();
    r.push(event);
    assert(r.deep_view() =~= seq![event.deep_view()]);
    r
}

fn copy_calls(calls: &Option<Vec<ToolCall>>) -> (r: Option<Vec<ToolCall>>)
    ensures
        r.deep_view() == calls.deep_view(),
{
    match calls {
        Some(c) => {
            let copy: Vec<ToolCall> = c.clone();
            assert(copy.deep_view() =~= c.deep_view());
            Some(copy)
        },
        None => None,
    }
}

/// The loop compacts its conversation: it has settings for it, which enable it.
pub open spec fn compacts(config: AgentLoopConfig) -> bool {
    config.compaction matches Some(settings) && settings.enabled
}

/// Whether the loop compacts its conversation.
fn is_compacting(config: &AgentLoopConfig) -> (r: bool)
    ensures
        r == compacts(*config),
{
    match &config.compaction {
        Some(settings) => settings.enabled,
        None => false,
    }
}

/// What follows the provider's answer: the state, the events and the step. Only a
/// request that failed is tried again after a compaction; a response that broke off
/// ends the loop.
pub open spec fn answered(
    s: LoopView,
    config: AgentLoopConfig,
    answer: AnswerView,
) -> (LoopView, Seq<EventView>, StepView) {
    match answer {
        AnswerView::Calls(calls) => {
            let ready = LoopView { compaction_retries: 0, ..s };
            match calls {
                Some(calls) if calls.len() > 0 => {
                    let next = LoopView { turn: (s.turn + 1) as u32, ..ready };
                    if next.turn > config.max_tool_rounds {
                        let error = "Exceeded maximum tool call rounds ("@ + decimal(
                            config.max_tool_rounds as nat,
                        ) + ")"@;
                        (
                            next,
                            seq![EventView::Error { error }],
                            StepView::Failed(
                                ErrorView::Tool { tool: "agent_loop"@, message: error },
                            ),
                        )
                    } else {
                        (next, seq![], StepView::RunTools(calls))
                    }
                },
                _ => (
                    ready,
                    seq![
                        EventView::Done { turns: (s.turn + 1) as u32, total_usage: s.total_usage },
                    ],
                    StepView::Finished,
                ),
            }
        },
        AnswerView::Refused(e) => if is_overflow(e) && compacts(config) {
            let next = LoopView {
                compaction_retries: (s.compaction_retries + 1) as u32,
                ..s
            };
            let events = seq![
                EventView::Error {
                    error: "Context overflow detected, attempting compaction..."@,
                },
            ];
            if next.compaction_retries <= 2 {
                (next, events, StepView::Compact(capped(total_estimated(s.messages))))
            } else {
                (next, events, StepView::Failed(e))
            }
        } else {
            (s, seq![], StepView::Failed(e))
        },
        AnswerView::Broken(e) => (s, seq![], StepView::Failed(e)),
    }
}

/// What follows a compaction after an overflow: the turn is taken again, or the
/// loop is done where nothing could be compacted.
pub open spec fn overflow_handled(s: LoopView, compacted: bool) -> (
    LoopView,
    Seq<EventView>,
    bool,
) {
    if compacted {
        (LoopView { compaction_retries: 0, ..s }, seq![], true)
    } else {
        (
            s,
            seq![EventView::Done { turns: (s.turn + 1) as u32, total_usage: s.total_usage }],
            false,
        )
    }
}

/// The outcome of a tool call: the text of its result, and whether it is an
/// error. A call of an unknown tool has none of its own.
pub open spec fn tool_outcome(
    name: Seq<char>,
    outcome: Option<Result<Seq<char>, ErrorView>>,
) -> (Seq<char>, bool) {
    match outcome {
        Some(Ok(text)) => (text, false),
        Some(Err(e)) => ("Error: "@ + error_text(e), true),
        None => ("Error: Unknown tool '"@ + name + "'"@, true),
    }
}

/// The message for the result of a tool call.
pub open spec fn tool_message(call: ToolCallView, text: Seq<char>) -> MessageView {
    MessageView {
        role: Role::Tool,
        content: Some(ContentView::Text(text)),
        tool_calls: None,
        tool_call_id: Some(call.id),
        name: Some(call.name),
    }
}

/// The state after a tool call.
pub open spec fn with_tool_result(
    s: LoopView,
    call: ToolCallView,
    outcome: Option<Result<Seq<char>, ErrorView>>,
) -> LoopView {
    LoopView {
        messages: s.messages.push(tool_message(call, tool_outcome(call.name, outcome).0)),
        ..s
    }
}

/// What the outcome of a tool call holds.
pub open spec fn outcome_view(outcome: Option<Result<String, PiError>>) -> Option<
    Result<Seq<char>, ErrorView>,
> {
    match outcome {
        Some(Ok(text)) => Some(Ok(text@)),
        Some(Err(e)) => Some(Err(e.deep_view())),
        None => None,
    }
}

/// The arguments of a tool call: what its text holds, or `null` where it is no
/// JSON.
pub open spec fn call_arguments(arguments: Seq<char>) -> JsonView {
    arguments_or_null(parsed_json(arguments))
}

/// A value that was read, or `null`.
pub open spec fn arguments_or_null(read: Result<JsonView, Seq<char>>) -> JsonView {
    match read {
        Ok(value) => value,
        Err(_) => JsonView::Null,
    }
}

/// The value that was read, or `null`.
pub fn read_or_null(read: Result<Json, String>) -> (r: Json)
    ensures
        r.deep_view() == arguments_or_null(crate::json::json_result_view(read)),
{
    match read {
        Ok(value) => value,
        Err(_) => Json::Null,
    }
}

/// The position of the first tool with a name.
pub open spec fn tool_position(names: Seq<Seq<char>>, name: Seq<char>) -> Option<int>
    decreases names.len(),
{
    if names.len() == 0 {
        None
    } else if names[0] == name {
        Some(0)
    } else {
        match tool_position(names.skip(1), name) {
            Some(i) => Some(i + 1),
            None => None,
        }
    }
}

/// Find the tool that a call names.
pub fn find_tool(names: &Vec<String>, name: &str) -> (r: Option<usize>)
    ensures
        r is Some == tool_position(names.deep_view(), name@) is Some,
        r is Some ==> r->0 == tool_position(names.deep_view(), name@)->0 && r->0 < names@.len(),
{
    let ghost all = names.deep_view();
    let mut i: usize = 0;
    assert(all.skip(0) =~= all);
    while i < names.len()
        invariant
            all == names.deep_view(),
            i <= names@.len(),
            match tool_position(all.skip(i as int), name@) {
                Some(j) => tool_position(all, name@) == Some(i + j),
                None => tool_position(all, name@) is None,
            },
        decreases names@.len() - i,
    {
        assert(all.skip(i as int)[0] == names@[i as int]@);
        assert(all.skip(i as int).skip(1) =~= all.skip(i + 1));
        if same_text(&names[i], name) {
            return Some(i);
        }
        i = i + 1;
    }
    None
}

/// The compaction that the size of a conversation calls for.
pub open spec fn due_compaction(
    config: AgentLoopConfig,
    window: u32,
    tokens: nat,
) -> Option<u32> {
    match config.compaction {
        Some(settings) => if wants_compaction(tokens as u32, window, settings) {
            Some(tokens as u32)
        } else {
            None
        },
        None => None,
    }
}

/// The summary that the last compaction left.
pub open spec fn previous_summary(s: LoopView) -> Option<Seq<char>> {
    match s.compaction_state {
        Some((_, summary)) => Some(summary),
        None => None,
    }
}

/// The index of the first message that the last compaction kept.
pub open spec fn previous_kept(s: LoopView) -> Option<usize> {
    match s.compaction_state {
        Some((index, _)) => Some(index),
        None => None,
    }
}

/// The state after a compaction with a result.
pub open spec fn with_compaction_result(
    s: LoopView,
    outcome: Result<CompactionView, ErrorView>,
) -> LoopView {
    match outcome {
        Ok(c) => LoopView {
            messages: compacted_messages(s.messages, c.summary, c.first_kept_message_index),
            compaction_state: Some((1, c.summary)),
            ..s
        },
        Err(_) => s,
    }
}

/// The event for the result of a compaction.
pub open spec fn compaction_event(outcome: Result<CompactionView, ErrorView>) -> EventView {
    match outcome {
        Ok(compaction) => EventView::CompactionComplete { compaction },
        Err(e) => EventView::Error { error: "Compaction failed: "@ + error_text(e) },
    }
}

impl LoopState {
    /// The state at the start of a loop over a conversation.
    pub fn new(messages: Vec<Message>) -> (r: Self)
        ensures
            r.deep_view() == (LoopView {
                messages: messages.deep_view(),
                turn: 0,
                total_usage: Usage { prompt_tokens: 0, completion_tokens: 0, total_tokens: 0 },
                last_turn_usage: None,
                compaction_state: None,
                compaction_retries: 0,
            }),
    {
        LoopState {
            messages,
            turn: 0,
            total_usage: Usage { prompt_tokens: 0, completion_tokens: 0, total_tokens: 0 },
            last_turn_usage: None,
            compaction_state: None,
            compaction_retries: 0,
        }
    }

    /// The event at the start of a turn.
    pub fn turn_start(&self) -> (r: AgentEvent)
        ensures
            r.deep_view() == (EventView::TurnStart { turn: self.turn }),
    {
        AgentEvent::TurnStart { turn: self.turn }
    }

    /// Account for a usage.
    fn add_usage(&mut self, usage: Usage)
        ensures
            final(self).deep_view() == (LoopView {
                total_usage: usage_sum(old(self).total_usage, usage),
                last_turn_usage: Some(usage),
                ..old(self).deep_view()
            }),
    {
        self.total_usage = Usage {
            prompt_tokens: self.total_usage.prompt_tokens.saturating_add(usage.prompt_tokens),
            completion_tokens: self.total_usage.completion_tokens.saturating_add(
                usage.completion_tokens,
            ),
            total_tokens: self.total_usage.total_tokens.saturating_add(usage.total_tokens),
        };
        self.last_turn_usage = Some(usage);
    }

    /// Take in a streamed response that has ended. Returns the events to report
    /// and the tool calls that the response makes.
    pub fn finish_stream(&mut self, stream: &StreamState) -> (r: (Vec<AgentEvent>, ProviderAnswer))
        ensures
            ({
                let s = stream.deep_view();
                let message = streamed_message(s);
                let usage = streamed_usage(s);
                match incomplete_response(s.finish_reason) {
                    Some(e) => {
                        &&& final(self).deep_view() == old(self).deep_view()
                        &&& r.0.deep_view() == Seq::<EventView>::empty()
                        &&& r.1.deep_view() == AnswerView::Broken(e)
                    },
                    None => {
                        &&& final(self).deep_view() == with_response(
                            old(self).deep_view(),
                            message,
                            usage,
                        )
                        &&& r.0.deep_view() == seq![
                            EventView::TurnEnd {
                                turn: old(self).turn,
                                message,
                                usage: Some(usage),
                            },
                        ]
                        &&& r.1.deep_view() == AnswerView::Calls(message.tool_calls)
                    },
                }
            }),
    {
        if let Some(error) = finish_reason_error(stream.finish_reason) {
            let events: Vec<AgentEvent> = Vec::new();
            assert(events.deep_view() =~= seq![]);
            return (events, ProviderAnswer::Broken(error));
        }
        let message: Message = stream.message();
        let usage: Usage = match stream.usage {
            Some(usage) => usage,
            None => {
                let estimate: u32 = estimate_tokens(&message);
                Usage { prompt_tokens: 0, completion_tokens: estimate, total_tokens: estimate }
            },
        };
        let calls: Option<Vec<ToolCall>> = copy_calls(&message.tool_calls);
        let copy: Message = message.clone();
        let ghost before = self.messages.deep_view();
        self.messages.push(copy);
        assert(self.messages.deep_view() =~= before.push(message.deep_view()));
        let events: Vec<AgentEvent> = one_event(
            AgentEvent::TurnEnd { turn: self.turn, message, usage: Some(usage) },
        );
        self.add_usage(usage);
        (events, ProviderAnswer::Calls(calls))
    }

    /// Take in a whole response. Returns the events to report and the tool calls
    /// that the response makes.
    pub fn finish_response(&mut self, response: ChatResponse) -> (r: (Vec<AgentEvent>, ProviderAnswer))
        ensures
            ({
                let message = response.message.deep_view();
                match incomplete_response(Some(response.finish_reason)) {
                    Some(e) => {
                        &&& final(self).deep_view() == old(self).deep_view()
                        &&& r.0.deep_view() == Seq::<EventView>::empty()
                        &&& r.1.deep_view() == AnswerView::Broken(e)
                    },
                    None => {
                        &&& final(self).deep_view() == with_response(
                            old(self).deep_view(),
                            message,
                            response.usage,
                        )
                        &&& r.0.deep_view() == seq![
                            EventView::TurnEnd {
                                turn: old(self).turn,
                                message,
                                usage: Some(response.usage),
                            },
                        ]
                        &&& r.1.deep_view() == AnswerView::Calls(message.tool_calls)
                    },
                }
            }),
    {
        if let Some(error) = finish_reason_error(Some(response.finish_reason)) {
            let events: Vec<AgentEvent> = Vec::new();
            assert(events.deep_view() =~= seq![]);
            return (events, ProviderAnswer::Broken(error));
        }
        let usage: Usage = response.usage;
        let message: Message = response.message;
        let calls: Option<Vec<ToolCall>> = copy_calls(&message.tool_calls);
        let copy: Message = message.clone();
        let ghost before = self.messages.deep_view();
        self.messages.push(copy);
        assert(self.messages.deep_view() =~= before.push(message.deep_view()));
        let events: Vec<AgentEvent> = one_event(
            AgentEvent::TurnEnd { turn: self.turn, message, usage: Some(usage) },
        );
        self.add_usage(usage);
        (events, ProviderAnswer::Calls(calls))
    }

    /// Decide what follows the provider's answer. Returns the events to report
    /// and the step to take.
    pub fn after_provider(&mut self, config: &AgentLoopConfig, answer: ProviderAnswer) -> (r: (
        Vec<AgentEvent>,
        LoopStep,
    ))
        requires
            is_running(old(self).deep_view(), *config),
            old(self).turn < u32::MAX,
        ensures
            (final(self).deep_view(), r.0.deep_view(), r.1.deep_view()) == answered(
                old(self).deep_view(),
                *config,
                answer.deep_view(),
            ),
    {
        match answer {
            ProviderAnswer::Calls(calls) => {
                self.compaction_retries = 0;
                let calls: Vec<ToolCall> = match calls {
                    Some(calls) => if calls.len() > 0 {
                        calls
                    } else {
                        let events: Vec<AgentEvent> = one_event(
                            AgentEvent::Done {
                                turns: self.turn + 1,
                                total_usage: self.total_usage,
                            },
                        );
                        return (events, LoopStep::Finished);
                    },
                    None => {
                        let events: Vec<AgentEvent> = one_event(
                            AgentEvent::Done {
                                turns: self.turn + 1,
                                total_usage: self.total_usage,
                            },
                        );
                        return (events, LoopStep::Finished);
                    },
                };
                self.turn = self.turn + 1;
                if self.turn > config.max_tool_rounds {
                    let mut error: String = String::new();
                    error.push_str("Exceeded maximum tool call rounds (");
                    error.push_str(&decimal_text(config.max_tool_rounds as u64));
                    error.push_str(")");
                    let events: Vec<AgentEvent> = one_event(
                        AgentEvent::Error { error: error.clone() },
                    );
                    return (
                        events,
                        LoopStep::Failed(
                            PiError::Tool { tool: "agent_loop".to_owned(), message: error },
                        ),
                    );
                }
                let events: Vec<AgentEvent> = Vec::new();
                assert(events.deep_view() =~= seq![]);
                (events, LoopStep::RunTools(calls))
            },
            ProviderAnswer::Refused(e) => if is_context_overflow(&e) && is_compacting(config) {
                let events: Vec<AgentEvent> = one_event(
                    AgentEvent::Error {
                        error: "Context overflow detected, attempting compaction...".to_owned(),
                    },
                );
                let tokens: u32 = sum_tokens_saturating(&self.messages);
                self.compaction_retries = self.compaction_retries + 1;
                if self.compaction_retries <= 2 {
                    (events, LoopStep::Compact(tokens))
                } else {
                    (events, LoopStep::Failed(e))
                }
            } else {
                let events: Vec<AgentEvent> = Vec::new();
                assert(events.deep_view() =~= seq![]);
                (events, LoopStep::Failed(e))
            },
            ProviderAnswer::Broken(e) => {
                let events: Vec<AgentEvent> = Vec::new();
                assert(events.deep_view() =~= seq![]);
                (events, LoopStep::Failed(e))
            },
        }
    }

    /// Decide what follows a compaction after an overflow. Returns the events to
    /// report, and whether the turn is taken again.
    pub fn after_overflow_compaction(&mut self, compacted: bool) -> (r: (Vec<AgentEvent>, bool))
        requires
            old(self).turn < u32::MAX,
        ensures
            (final(self).deep_view(), r.0.deep_view(), r.1) == overflow_handled(
                old(self).deep_view(),
                compacted,
            ),
    {
        if compacted {
            self.compaction_retries = 0;
            let events: Vec<AgentEvent> = Vec::new();
            assert(events.deep_view() =~= seq![]);
            (events, true)
        } else {
            let events: Vec<AgentEvent> = one_event(
                AgentEvent::Done { turns: self.turn + 1, total_usage: self.total_usage },
            );
            (events, false)
        }
    }

    /// Start a tool call. Returns the event to report, which holds the arguments
    /// for the tool.
    pub fn start_tool(&self, call: &ToolCall) -> (r: AgentEvent)
        ensures
            r.deep_view() == (EventView::ToolExecutionStart {
                id: call.deep_view().id,
                name: call.deep_view().name,
                arguments: call_arguments(call.deep_view().arguments),
            }),
    {
        let arguments: Json = read_or_null(parse_json(&call.function.arguments));
        AgentEvent::ToolExecutionStart {
            id: call.id.clone(),
            name: call.function.name.clone(),
            arguments,
        }
    }

    /// Take in the outcome of a tool call; a call of an unknown tool has none.
    /// Returns the event to report.
    pub fn finish_tool(&mut self, call: &ToolCall, outcome: Option<Result<String, PiError>>) -> (r:
        AgentEvent)
        ensures
            final(self).deep_view() == with_tool_result(
                old(self).deep_view(),
                call.deep_view(),
                outcome_view(outcome),
            ),
            ({
                let (text, is_error) = tool_outcome(
                    call.deep_view().name,
                    outcome_view(outcome),
                );
                r.deep_view() == (EventView::ToolExecutionEnd {
                    id: call.deep_view().id,
                    name: call.deep_view().name,
                    outcome: text,
                    is_error,
                })
            }),
    {
        let (text, is_error): (String, bool) = match outcome {
            Some(Ok(text)) => (text, false),
            Some(Err(e)) => {
                let mut text: String = String::new();
                text.push_str("Error: ");
                text.push_str(&e.to_text());
                (text, true)
            },
            None => {
                let mut text: String = String::new();
                text.push_str("Error: Unknown tool '");
                text.push_str(&call.function.name);
                text.push_str("'");
                (text, true)
            },
        };
        let ghost before = self.messages.deep_view();
        let message: Message = Message {
            role: Role::Tool,
            content: Some(MessageContent::Text(text.clone())),
            tool_calls: None,
            tool_call_id: Some(call.id.clone()),
            name: Some(call.function.name.clone()),
        };
        self.messages.push(message);
        assert(self.messages.deep_view() =~= before.push(message.deep_view()));
        AgentEvent::ToolExecutionEnd {
            id: call.id.clone(),
            name: call.function.name.clone(),
            result: text,
            is_error,
        }
    }

    /// Decide, after tool results, whether the conversation is to be compacted.
    /// Returns its size in tokens where it is, and nothing where its size is no
    /// 32-bit number.
    pub fn compaction_due(&self, config: &AgentLoopConfig, window: u32) -> (r: Option<Option<u32>>)
        ensures
            ({
                let tokens = context_tokens(self.deep_view().messages, self.last_turn_usage);
                match r {
                    Some(due) => {
                        &&& config.compaction is Some ==> tokens <= u32::MAX
                        &&& due == due_compaction(*config, window, tokens)
                    },
                    None => config.compaction is Some && tokens > u32::MAX,
                }
            }),
    {
        match &config.compaction {
            Some(settings) => match checked_context_tokens(&self.messages, self.last_turn_usage) {
                Some(tokens) => if should_compact(tokens, window, settings) {
                    Some(Some(tokens))
                } else {
                    Some(None)
                },
                None => None,
            },
            None => Some(None),
        }
    }

    /// Start a compaction of a conversation of so many tokens. Returns the events
    /// to report and, where there is anything to compact, what to compact and
    /// the requests to make.
    pub fn start_compaction(
        &self,
        model: &str,
        settings: &CompactionSettings,
        tokens: u32,
    ) -> (r: (Vec<AgentEvent>, Option<(CompactionPreparation, CompactionPlan)>))
        ensures
            r.0.deep_view() == seq![EventView::CompactionTriggered { tokens_before: tokens }],
            ({
                let s = self.deep_view();
                match prepared(s.messages, *settings, previous_kept(s)) {
                    None => r.1 is None,
                    Some(p) => {
                        &&& r.1 matches Some((preparation, plan))
                        &&& preparation.deep_view() == p
                        &&& preparation.first_kept_message_index < self.messages@.len()
                        &&& asks_for_summary(
                            plan.history,
                            model@,
                            summary_prompt(p.messages_to_summarize, previous_summary(s)),
                            summary_budget(settings.reserve_tokens),
                        )
                        &&& match plan.turn_prefix {
                            Some(request) => summarizes_turn(p) && asks_for_summary(
                                request,
                                model@,
                                turn_prefix_prompt(p.turn_prefix_messages),
                                (summary_budget(settings.reserve_tokens) / 2) as u32,
                            ),
                            None => !summarizes_turn(p),
                        }
                    },
                }
            }),
    {
        let events: Vec<AgentEvent> = one_event(
            AgentEvent::CompactionTriggered { tokens_before: tokens },
        );
        let previous: Option<usize> = match &self.compaction_state {
            Some((index, _)) => Some(*index),
            None => None,
        };
        let summary: Option<&str> = match &self.compaction_state {
            Some((_, summary)) => Some(summary.as_str()),
            None => None,
        };
        match prepare_compaction(&self.messages, settings, previous) {
            None => (events, None),
            Some(preparation) => {
                let plan: CompactionPlan = plan_compaction(model, &preparation, summary, settings);
                (events, Some((preparation, plan)))
            },
        }
    }

    /// Finish a compaction with the summaries that came back. Returns the event
    /// to report, and whether the conversation was compacted.
    ///
    /// After a compaction the summary is the first message, so that the first
    /// kept one has the index one.
    pub fn finish_compaction(
        &mut self,
        preparation: &CompactionPreparation,
        history: Result<String, PiError>,
        turn_prefix: Result<String, PiError>,
    ) -> (r: (AgentEvent, bool))
        requires
            preparation.first_kept_message_index <= old(self).messages@.len(),
        ensures
            ({
                let outcome = finished(
                    preparation.deep_view(),
                    answer_view(history),
                    answer_view(turn_prefix),
                );
                &&& final(self).deep_view() == with_compaction_result(
                    old(self).deep_view(),
                    outcome,
                )
                &&& r.0.deep_view() == compaction_event(outcome)
                &&& r.1 == outcome is Ok
            }),
    {
        match finish_compaction(preparation, history, turn_prefix) {
            Ok(result) => {
                apply_compaction(&mut self.messages, &result);
                self.compaction_state = Some((1, result.summary.clone()));
                (AgentEvent::CompactionComplete { result }, true)
            },
            Err(e) => {
                let mut error: String = String::new();
                error.push_str("Compaction failed: ");
                error.push_str(&e.to_text());
                (AgentEvent::Error { error }, false)
            },
        }
    }
}

// ---------------------------------------------------------------------------
// What holds of the loop
// ---------------------------------------------------------------------------

/// A loop takes at most the configured number of tool rounds: each answer that
/// leads to another round raises the number of rounds by one, and none of them
/// takes it beyond the limit.
pub proof fn law_rounds_are_bounded(
    s: LoopView,
    config: AgentLoopConfig,
    answer: AnswerView,
)
    requires
        is_running(s, config),
        s.turn < u32::MAX,
    ensures
        ({
            let (next, events, step) = answered(s, config, answer);
            &&& step is RunTools ==> next.turn == s.turn + 1 && next.turn <= config.max_tool_rounds
            &&& step is Compact ==> next.turn == s.turn
            &&& step is RunTools || step is Compact ==> is_running(next, config)
        }),
{
}

/// An answer never takes a message away from the conversation or changes one.
pub proof fn law_answers_keep_messages(
    s: LoopView,
    config: AgentLoopConfig,
    answer: AnswerView,
)
    ensures
        answered(s, config, answer).0.messages == s.messages,
{
}

/// An error that is no context overflow ends the loop with that very error. So does
/// any error where compaction is not configured or not enabled, and any error by
/// which a response broke off.
pub proof fn law_other_errors_end_the_loop(s: LoopView, config: AgentLoopConfig, e: ErrorView)
    ensures
        !is_overflow(e) || !compacts(config) ==> answered(s, config, AnswerView::Refused(e)) == (
            s,
            Seq::<EventView>::empty(),
            StepView::Failed(e),
        ),
        answered(s, config, AnswerView::Broken(e)) == (
            s,
            Seq::<EventView>::empty(),
            StepView::Failed(e),
        ),
{
}

/// The state after the tool calls of a round, one after the other.
pub open spec fn with_tool_results(
    s: LoopView,
    calls: Seq<ToolCallView>,
    outcomes: Seq<Option<Result<Seq<char>, ErrorView>>>,
) -> LoopView
    decreases calls.len(),
{
    if calls.len() == 0 {
        s
    } else {
        with_tool_result(
            with_tool_results(s, calls.drop_last(), outcomes.drop_last()),
            calls.last(),
            outcomes.last(),
        )
    }
}

/// Each tool call of a round gets exactly one result, under its ID and name, in
/// the order of the calls, and the conversation before them stays as it was.
pub proof fn law_each_call_gets_its_result(
    s: LoopView,
    calls: Seq<ToolCallView>,
    outcomes: Seq<Option<Result<Seq<char>, ErrorView>>>,
)
    requires
        calls.len() == outcomes.len(),
    ensures
        ({
            let after = with_tool_results(s, calls, outcomes).messages;
            &&& after.len() == s.messages.len() + calls.len()
            &&& after.take(s.messages.len() as int) == s.messages
            &&& forall|i: int|
                0 <= i < calls.len() ==> (#[trigger] after[s.messages.len() + i]) == tool_message(
                    calls[i],
                    tool_outcome(calls[i].name, outcomes[i]).0,
                )
        }),
    decreases calls.len(),
{
    let after = with_tool_results(s, calls, outcomes).messages;
    if calls.len() == 0 {
        assert(after.take(s.messages.len() as int) =~= s.messages);
    } else {
        law_each_call_gets_its_result(s, calls.drop_last(), outcomes.drop_last());
        let before = with_tool_results(s, calls.drop_last(), outcomes.drop_last()).messages;
        assert(after.take(s.messages.len() as int) =~= before.take(s.messages.len() as int));
        assert forall|i: int| 0 <= i < calls.len() implies (#[trigger] after[s.messages.len() + i])
            == tool_message(calls[i], tool_outcome(calls[i].name, outcomes[i]).0) by {
            if i < calls.len() - 1 {
                assert(after[s.messages.len() + i] == before[s.messages.len() + i]);
                assert(calls.drop_last()[i] == calls[i]);
                assert(outcomes.drop_last()[i] == outcomes[i]);
            }
        }
    }
}

/// The calls of a stream are in the order of their indices, each once.
pub open spec fn are_in_order(calls: Seq<DeltaView>) -> bool {
    forall|i: int, j: int|
        0 <= i < j < calls.len() ==> (#[trigger] calls[i]).index < (#[trigger] calls[j]).index
}

proof fn lemma_place_for(calls: Seq<DeltaView>, index: u32)
    requires
        are_in_order(calls),
    ensures
        0 <= place_for(calls, index) <= calls.len(),
        forall|j: int|
            0 <= j < place_for(calls, index) ==> (#[trigger] calls[j]).index < index,
        forall|j: int|
            place_for(calls, index) <= j < calls.len() ==> (#[trigger] calls[j]).index >= index,
    decreases calls.len(),
{
    if calls.len() > 0 {
        let front = calls.drop_last();
        assert forall|i: int, j: int| 0 <= i < j < front.len() implies (#[trigger] front[i]).index
            < (#[trigger] front[j]).index by {
            assert(front[i] == calls[i] && front[j] == calls[j]);
        }
        lemma_place_for(front, index);
        if calls.last().index < index {
            assert forall|j: int| 0 <= j < calls.len() implies (#[trigger] calls[j]).index
                < index by {
                assert(calls[j].index <= calls[calls.len() - 1].index);
            }
        } else {
            assert forall|j: int| 0 <= j < place_for(calls, index) implies (
            #[trigger] calls[j]).index < index by {
                assert(front[j] == calls[j]);
            }
            assert forall|j: int| place_for(calls, index) <= j < calls.len() implies (
            #[trigger] calls[j]).index >= index by {
                if j < front.len() {
                    assert(front[j] == calls[j]);
                }
            }
        }
    }
}

proof fn lemma_call_position(calls: Seq<DeltaView>, index: u32)
    ensures
        match call_position(calls, index) {
            Some(i) => 0 <= i < calls.len() && calls[i].index == index,
            None => forall|j: int| 0 <= j < calls.len() ==> (#[trigger] calls[j]).index != index,
        },
    decreases calls.len(),
{
    if calls.len() > 0 {
        let front = calls.drop_last();
        lemma_call_position(front, index);
        assert forall|j: int| 0 <= j < calls.len() && call_position(calls, index) is None implies (
        #[trigger] calls[j]).index != index by {
            if j < front.len() {
                assert(front[j] == calls[j]);
            }
        }
    }
}

/// However the fragments of tool calls come in, the calls stay in the order of
/// their indices.
pub proof fn law_calls_in_index_order(calls: Seq<DeltaView>, fragments: Seq<DeltaView>)
    requires
        are_in_order(calls),
    ensures
        are_in_order(with_fragments(calls, fragments)),
    decreases fragments.len(),
{
    if fragments.len() > 0 {
        law_calls_in_index_order(calls, fragments.drop_last());
        let before = with_fragments(calls, fragments.drop_last());
        let index = fragments.last().index;
        lemma_place_for(before, index);
        lemma_call_position(before, index);
        let after = with_fragments(calls, fragments);
        assert forall|i: int, j: int| 0 <= i < j < after.len() implies (#[trigger] after[i]).index
            < (#[trigger] after[j]).index by {
            match call_position(before, index) {
                Some(at) => {
                    assert(after[i].index == before[i].index);
                    assert(after[j].index == before[j].index);
                },
                None => {
                    let at = place_for(before, index);
                    if i >= at {
                        assert(i > at ==> after[i] == before[i - 1]);
                        assert(after[j] == before[j - 1]);
                    } else {
                        assert(after[i] == before[i]);
                        if j > at {
                            assert(after[j] == before[j - 1]);
                        } else if j < at {
                            assert(after[j] == before[j]);
                        }
                    }
                },
            }
        }
    }
}

} // verus!
