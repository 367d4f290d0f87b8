//! Anthropic Messages API provider.
//!
//! Supports:
//! - Messages API (streaming and non-streaming)
//! - Tool use / function calling
//! - Vision (image content blocks)
//! - System prompt (top-level `system` parameter)

use vstd::prelude::*;

use crate::error::{ErrorView, PiError, ProviderErrorView};
use crate::http::{
    headers_view, invalid_key, invalid_key_error, is_header_text, is_header_value,
};
use crate::json::{parse_json, parsed_json, print_json, printed_json, Json, JsonView};
use crate::message_normalization::{
    normalize_messages_with_input, normalized_messages, ToolCallIdNormalizer,
};
use crate::streaming::SseEvent;
use crate::text::{
    ascii_lower, ascii_lower_text, chars_of, clone_optional_text, contains, contains_text, join,
    join_text, same_text, trim_end_char, without_trailing,
};
use crate::traits::{ChunkView, DeltaView, StreamChunk, ToolCallDelta};
use crate::types::{
    AgentConfig, AnthropicCompat, BlockView, ChatResponse, CompatFlags, ContentBlock, ContentView,
    FinishReason, FunctionCall, Message, MessageContent, MessageView, ModelInputKind,
    ProviderCapabilities, ProviderMetadata, Role, ToolCall, ToolCallView, ToolDefinition,
    ToolDefinitionView, Usage,
};

verus! {

/// The base URL of the official API.
pub const DEFAULT_BASE_URL: &'static str = "https://api.anthropic.com";

/// The version of the API.
pub const API_VERSION: &'static str = "2023-06-01";

/// The number of characters that the API takes in a tool call identifier.
pub const ANTHROPIC_TOOL_CALL_ID_MAX_LEN: usize = 64;

// ---------------------------------------------------------------------------
// Provider
// ---------------------------------------------------------------------------

/// The Anthropic chat provider.
pub struct AnthropicProvider {
    /// The key for the API.
    pub api_key: String,
    /// The base URL of the API.
    pub base_url: String,
}

/// The flags of an Anthropic-compatible API, by its base URL.
pub open spec fn anthropic_compat(base_url: Seq<char>) -> AnthropicCompat {
    let url = ascii_lower(base_url);
    let fireworks = contains(url, "fireworks"@);
    let cloudflare = contains(url, "gateway.ai.cloudflare.com"@) && contains(url, "anthropic"@);
    AnthropicCompat {
        supports_eager_tool_input_streaming: Some(!fireworks),
        supports_long_cache_retention: Some(!fireworks),
        send_session_affinity_headers: Some(fireworks || cloudflare),
        supports_cache_control_on_tools: Some(!fireworks),
        force_adaptive_thinking: None,
    }
}

/// Detect the flags of an Anthropic-compatible API by its base URL.
pub fn detect_anthropic_compat(base_url: &str) -> (r: AnthropicCompat)
    ensures
        r == anthropic_compat(base_url@),
{
    let url: String = ascii_lower_text(base_url);
    let fireworks: bool = contains_text(&url, "fireworks");
    let cloudflare: bool = contains_text(&url, "gateway.ai.cloudflare.com") && contains_text(
        &url,
        "anthropic",
    );
    AnthropicCompat {
        supports_eager_tool_input_streaming: Some(!fireworks),
        supports_long_cache_retention: Some(!fireworks),
        send_session_affinity_headers: Some(fireworks || cloudflare),
        supports_cache_control_on_tools: Some(!fireworks),
        force_adaptive_thinking: None,
    }
}

impl AnthropicProvider {
    /// Create a new provider targeting the official Anthropic API.
    pub fn new(api_key: &str) -> (r: Self)
        ensures
            r.api_key@ == api_key@,
            r.base_url@ == DEFAULT_BASE_URL@,
    {
        AnthropicProvider { api_key: api_key.to_owned(), base_url: DEFAULT_BASE_URL.to_owned() }
    }

    /// Create a provider with a custom base URL.
    pub fn with_base_url(base_url: &str, api_key: &str) -> (r: Self)
        ensures
            r.api_key@ == api_key@,
            r.base_url@ == without_trailing(base_url@, '/'),
    {
        AnthropicProvider {
            api_key: api_key.to_owned(),
            base_url: trim_end_char(base_url, '/'),
        }
    }

    /// The provider's identifier.
    pub fn id(&self) -> (r: &str)
        ensures
            r@ == "anthropic"@,
    {
        "anthropic"
    }

    /// The URL that requests go to.
    pub fn messages_url(&self) -> (r: String)
        ensures
            r@ == self.base_url@ + "/v1/messages"@,
    {
        let mut r: String = self.base_url.clone();
        r.push_str("/v1/messages");
        r
    }

    /// The headers of a request. Fails on a key that no header can hold.
    pub fn build_headers(&self) -> (r: Result<Vec<(String, String)>, PiError>)
        ensures
            headers_view(r) == if is_header_text(self.api_key@) {
                Ok(
                    seq![
                        ("content-type"@, "application/json"@),
                        ("x-api-key"@, self.api_key@),
                        ("anthropic-version"@, API_VERSION@),
                    ],
                )
            } else {
                Err(invalid_key_error())
            },
    {
        if !is_header_value(&self.api_key) {
            return Err(invalid_key());
        }
        let mut headers: Vec<(String, String)> = Vec::new();
        headers.push(("content-type".to_owned(), "application/json".to_owned()));
        headers.push(("x-api-key".to_owned(), self.api_key.clone()));
        headers.push(("anthropic-version".to_owned(), API_VERSION.to_owned()));
        assert(headers.deep_view() =~= seq![
            ("content-type"@, "application/json"@),
            ("x-api-key"@, self.api_key@),
            ("anthropic-version"@, API_VERSION@),
        ]);
        Ok(headers)
    }

    /// What the provider is and can do.
    pub fn metadata(&self) -> (r: ProviderMetadata)
        ensures
            r.id@ == "anthropic"@,
            r.name@ == "Anthropic"@,
            r.supported_apis.deep_view() == seq!["anthropic-messages"@],
            r.capabilities == (ProviderCapabilities {
                vision: true,
                function_calling: true,
                json_mode: false,
                streaming: true,
                thinking: true,
            }),
            r.compat.openai is None,
            r.compat.anthropic == Some(anthropic_compat(self.base_url@)),
            r.compat.google is None,
    {
        let mut apis: Vec<String> = Vec::new();
        apis.push("anthropic-messages".to_owned());
        assert(apis.deep_view() =~= seq!["anthropic-messages"@]);
        ProviderMetadata {
            id: "anthropic".to_owned(),
            name: "Anthropic".to_owned(),
            supported_apis: apis,
            capabilities: ProviderCapabilities {
                vision: true,
                function_calling: true,
                json_mode: false,
                streaming: true,
                thinking: true,
            },
            compat: CompatFlags {
                openai: None,
                anthropic: Some(detect_anthropic_compat(&self.base_url)),
                google: None,
            },
        }
    }
}

// ---------------------------------------------------------------------------
// Streaming events
// ---------------------------------------------------------------------------

/// The start of a content block.
#[derive(Debug)]
pub struct ContentBlockStartEvent {
    /// Index of the block.
    pub index: u32,
    /// What starts.
    pub content_block: AnthropicContentBlockStart,
}

/// What kind of content block starts.
#[derive(Debug)]
pub enum AnthropicContentBlockStart {
    /// Text.
    Text,
    /// A tool use.
    ToolUse {
        /// Tool call ID.
        id: String,
        /// Tool name.
        name: String,
    },
    /// Thinking.
    Thinking,
}

/// More of a content block.
#[derive(Debug)]
pub struct ContentBlockDeltaEvent {
    /// Index of the block.
    pub index: u32,
    /// What is added.
    pub delta: AnthropicDelta,
}

/// What is added to a content block.
#[derive(Debug)]
pub enum AnthropicDelta {
    /// More text.
    TextDelta {
        /// The text.
        text: String,
    },
    /// More of a tool's input.
    InputJsonDelta {
        /// A fragment of the input.
        partial_json: String,
    },
    /// More thinking.
    ThinkingDelta {
        /// The thinking.
        thinking: String,
    },
}

/// What a message ends with.
#[derive(Debug)]
pub struct MessageDeltaEvent {
    /// Why the message stopped.
    pub stop_reason: Option<String>,
    /// The tokens that were used.
    pub usage: Option<AnthropicUsage>,
}

/// Token counts.
#[derive(Debug, Clone, Copy, PartialEq, Eq)]
pub struct AnthropicUsage {
    /// Tokens of the prompt.
    pub input_tokens: u32,
    /// Tokens of the response.
    pub output_tokens: u32,
}

/// The data of an event, read as each of the kinds of event that have any, or
/// the message of the error.
#[derive(Debug)]
pub struct AnthropicPayload {
    /// The data as the start of a content block.
    pub block_start: Result<ContentBlockStartEvent, String>,
    /// The data as more of a content block.
    pub block_delta: Result<ContentBlockDeltaEvent, String>,
    /// The data as what a message ends with.
    pub message_delta: Result<MessageDeltaEvent, String>,
}

/// Internal state for reassembling Anthropic streaming events into
/// [`StreamChunk`]s. Anthropic sends fine-grained events (content_block_start,
/// content_block_delta, content_block_stop) that must be collapsed into the
/// unified chunk format.
#[derive(Debug)]
pub struct AnthropicStreamState {
    /// Index of the content block currently being streamed.
    pub current_block_index: Option<u32>,
    /// Whether the stream reached Anthropic's terminal message_stop event.
    pub seen_message_stop: bool,
    /// The type of the current content block ("text", "tool_use" or "thinking").
    pub current_block_type: Option<String>,
    /// Identifier of the tool use in the current block.
    pub current_tool_id: Option<String>,
    /// Name of the tool in the current block.
    pub current_tool_name: Option<String>,
    /// Accumulated tool input of the current block.
    pub current_tool_args: String,
}

/// What the state of a stream holds.
pub struct AnthropicStateView {
    pub index: Option<u32>,
    pub seen_message_stop: bool,
    pub block_type: Option<Seq<char>>,
    pub tool_id: Option<Seq<char>>,
    pub tool_name: Option<Seq<char>>,
    pub tool_args: Seq<char>,
}

impl DeepView for AnthropicStreamState {
    type V = AnthropicStateView;

    open spec fn deep_view(&self) -> AnthropicStateView {
        AnthropicStateView {
            index: self.current_block_index,
            seen_message_stop: self.seen_message_stop,
            block_type: self.current_block_type.deep_view(),
            tool_id: self.current_tool_id.deep_view(),
            tool_name: self.current_tool_name.deep_view(),
            tool_args: self.current_tool_args@,
        }
    }
}

impl AnthropicStreamState {
    /// The state at the start of a stream.
    pub fn new() -> (r: Self)
        ensures
            r.deep_view() == (AnthropicStateView {
                index: None,
                seen_message_stop: false,
                block_type: None,
                tool_id: None,
                tool_name: None,
                tool_args: seq![],
            }),
    {
        AnthropicStreamState {
            current_block_index: None,
            seen_message_stop: false,
            current_block_type: None,
            current_tool_id: None,
            current_tool_name: None,
            current_tool_args: String::new(),
        }
    }
}

/// A chunk that holds nothing.
pub open spec fn empty_chunk() -> ChunkView {
    ChunkView { delta: None, tool_calls: seq![], finish_reason: None, usage: None }
}

/// The finish reason for a stop reason.
pub open spec fn finish_reason_for(reason: Seq<char>) -> Option<FinishReason> {
    if reason == "end_turn"@ || reason == "stop_sequence"@ {
        Some(FinishReason::Stop)
    } else if reason == "max_tokens"@ {
        Some(FinishReason::Length)
    } else if reason == "tool_use"@ {
        Some(FinishReason::ToolCalls)
    } else {
        None
    }
}

/// Map an Anthropic stop_reason to our [`FinishReason`].
pub fn parse_stop_reason(reason: &str) -> (r: Option<FinishReason>)
    ensures
        r == finish_reason_for(reason@),
{
    if same_text(reason, "end_turn") || same_text(reason, "stop_sequence") {
        Some(FinishReason::Stop)
    } else if same_text(reason, "max_tokens") {
        Some(FinishReason::Length)
    } else if same_text(reason, "tool_use") {
        Some(FinishReason::ToolCalls)
    } else {
        None
    }
}

/// The finish reason for an optional stop reason.
pub open spec fn optional_finish_reason(reason: Option<Seq<char>>) -> Option<FinishReason> {
    match reason {
        Some(r) => finish_reason_for(r),
        None => None,
    }
}

/// The usage for token counts whose sum is a 32-bit number.
pub open spec fn usage_for(u: AnthropicUsage) -> Usage {
    Usage {
        prompt_tokens: u.input_tokens,
        completion_tokens: u.output_tokens,
        total_tokens: (u.input_tokens + u.output_tokens) as u32,
    }
}

/// The error for data that could not be read.
pub open spec fn unreadable_event(kind: Seq<char>, message: Seq<char>) -> ErrorView {
    ErrorView::Provider(
        ProviderErrorView::Other { message: "Failed to parse "@ + kind + ": "@ + message },
    )
}

/// What the start of a content block makes of the state.
pub open spec fn block_started(s: AnthropicStateView, e: ContentBlockStartEvent) -> AnthropicStateView {
    let s1 = AnthropicStateView { index: Some(e.index), ..s };
    match e.content_block {
        AnthropicContentBlockStart::Text => AnthropicStateView {
            block_type: Some("text"@),
            ..s1
        },
        AnthropicContentBlockStart::ToolUse { id, name } => AnthropicStateView {
            block_type: Some("tool_use"@),
            tool_id: Some(id@),
            tool_name: Some(name@),
            tool_args: seq![],
            ..s1
        },
        AnthropicContentBlockStart::Thinking => AnthropicStateView {
            block_type: Some("thinking"@),
            ..s1
        },
    }
}

/// What more of a content block makes of the state.
pub open spec fn block_grown(s: AnthropicStateView, e: ContentBlockDeltaEvent) -> AnthropicStateView {
    match e.delta {
        AnthropicDelta::InputJsonDelta { partial_json } => AnthropicStateView {
            tool_args: s.tool_args + partial_json@,
            ..s
        },
        _ => s,
    }
}

/// The chunk for more of a content block.
pub open spec fn grown_chunk(e: ContentBlockDeltaEvent) -> ChunkView {
    match e.delta {
        AnthropicDelta::TextDelta { text } => ChunkView { delta: Some(text@), ..empty_chunk() },
        AnthropicDelta::ThinkingDelta { thinking } => ChunkView {
            delta: Some(thinking@),
            ..empty_chunk()
        },
        AnthropicDelta::InputJsonDelta { partial_json } => ChunkView {
            tool_calls: seq![
                DeltaView {
                    index: e.index,
                    id: None,
                    name: None,
                    arguments_delta: Some(partial_json@),
                },
            ],
            ..empty_chunk()
        },
    }
}

/// The end of a block is that of a tool use.
pub open spec fn ends_tool_use(s: AnthropicStateView) -> bool {
    s.block_type == Some("tool_use"@)
}

/// What the end of a content block makes of the state.
pub open spec fn block_ended(s: AnthropicStateView) -> AnthropicStateView {
    if ends_tool_use(s) {
        AnthropicStateView {
            block_type: None,
            tool_id: None,
            tool_name: None,
            tool_args: seq![],
            ..s
        }
    } else {
        AnthropicStateView { block_type: None, ..s }
    }
}

/// The chunk for the end of a content block: the identifier and the name of a
/// tool use.
pub open spec fn ended_chunk(s: AnthropicStateView) -> Option<ChunkView> {
    if ends_tool_use(s) {
        Some(
            ChunkView {
                tool_calls: seq![
                    DeltaView {
                        index: match s.index {
                            Some(i) => i,
                            None => 0,
                        },
                        id: s.tool_id,
                        name: s.tool_name,
                        arguments_delta: None,
                    },
                ],
                ..empty_chunk()
            },
        )
    } else {
        None
    }
}

/// The chunk for what a message ends with.
pub open spec fn message_chunk(e: MessageDeltaEvent) -> ChunkView {
    ChunkView {
        finish_reason: optional_finish_reason(e.stop_reason.deep_view()),
        usage: match e.usage {
            Some(u) => Some(usage_for(u)),
            None => None,
        },
        ..empty_chunk()
    }
}

/// What an event makes of the state, and the chunk or the error that comes of
/// it.
pub open spec fn event_processed(
    s: AnthropicStateView,
    kind: Seq<char>,
    payload: AnthropicPayload,
) -> (AnthropicStateView, Result<Option<ChunkView>, ErrorView>) {
    if kind == "message_stop"@ {
        (AnthropicStateView { seen_message_stop: true, ..s }, Ok(None))
    } else if kind == "content_block_start"@ {
        match payload.block_start {
            Ok(e) => (block_started(s, e), Ok(None)),
            Err(message) => (s, Err(unreadable_event("content_block_start"@, message@))),
        }
    } else if kind == "content_block_delta"@ {
        match payload.block_delta {
            Ok(e) => (block_grown(s, e), Ok(Some(grown_chunk(e)))),
            Err(message) => (s, Err(unreadable_event("content_block_delta"@, message@))),
        }
    } else if kind == "content_block_stop"@ {
        (block_ended(s), Ok(ended_chunk(s)))
    } else if kind == "message_delta"@ {
        match payload.message_delta {
            Ok(e) => (s, Ok(Some(message_chunk(e)))),
            Err(message) => (s, Err(unreadable_event("message_delta"@, message@))),
        }
    } else {
        (s, Ok(None))
    }
}

/// The kind of an event.
pub open spec fn event_kind(event: Option<Seq<char>>) -> Seq<char> {
    match event {
        Some(kind) => kind,
        None => seq![],
    }
}

/// What comes of an event.
pub open spec fn chunk_result(r: Result<Option<StreamChunk>, PiError>) -> Result<
    Option<ChunkView>,
    ErrorView,
> {
    match r {
        Ok(chunk) => Ok(chunk.deep_view()),
        Err(e) => Err(e.deep_view()),
    }
}

/// The token counts of what a message ends with add up to a 32-bit number.
pub open spec fn counts_fit(payload: AnthropicPayload) -> bool {
    match payload.message_delta {
        Ok(e) => match e.usage {
            Some(u) => u.input_tokens + u.output_tokens <= u32::MAX,
            None => true,
        },
        Err(_) => true,
    }
}

fn unreadable(kind: &str, message: &str) -> (r: PiError)
    ensures
        r.deep_view() == unreadable_event(kind@, message@),
{
    let mut text: String = String::new();
    text.push_str("Failed to parse ");
    text.push_str(kind);
    text.push_str(": ");
    text.push_str(message);
    PiError::provider(&text)
}

fn text_chunk(text: &String) -> (r: StreamChunk)
    ensures
        r.deep_view() == (ChunkView { delta: Some(text@), ..empty_chunk() }),
{
    let calls: Vec<ToolCallDelta> = Vec::new();
    assert(calls.deep_view() =~= seq![]);
    StreamChunk { delta: Some(text.clone()), tool_calls: calls, finish_reason: None, usage: None }
}

fn call_chunk(delta: ToolCallDelta) -> (r: StreamChunk)
    ensures
        r.deep_view() == (ChunkView { tool_calls: seq![delta.deep_view()], ..empty_chunk() }),
{
    let mut calls: Vec<ToolCallDelta> = Vec::new();
    calls.push(delta);
    assert(calls.deep_view() =~= seq![delta.deep_view()]);
    StreamChunk { delta: None, tool_calls: calls, finish_reason: None, usage: None }
}

/// Process a single Anthropic SSE event, updating stream state as needed.
///
/// Returns `Ok(None)` for events that don't produce a stream chunk
/// (e.g., `message_start`, `content_block_start`).
pub fn process_anthropic_event(
    event: &SseEvent,
    payload: &AnthropicPayload,
    state: &mut AnthropicStreamState,
) -> (r: Result<Option<StreamChunk>, PiError>)
    requires
        counts_fit(*payload),
    ensures
        (final(state).deep_view(), chunk_result(r)) == event_processed(
            old(state).deep_view(),
            event_kind(event.deep_view().event),
            *payload,
        ),
{
    let kind: &str = match &event.event {
        Some(kind) => kind.as_str(),
        None => "",
    };
    proof {
        reveal_strlit("");
        assert(""@ =~= seq![]);
    }
    if same_text(kind, "message_stop") {
        state.seen_message_stop = true;
        Ok(None)
    } else if same_text(kind, "content_block_start") {
        match &payload.block_start {
            Ok(start) => {
                state.current_block_index = Some(start.index);
                match &start.content_block {
                    AnthropicContentBlockStart::Text => {
                        state.current_block_type = Some("text".to_owned());
                    },
                    AnthropicContentBlockStart::ToolUse { id, name } => {
                        state.current_block_type = Some("tool_use".to_owned());
                        state.current_tool_id = Some(id.clone());
                        state.current_tool_name = Some(name.clone());
                        state.current_tool_args = String::new();
                    },
                    AnthropicContentBlockStart::Thinking => {
                        state.current_block_type = Some("thinking".to_owned());
                    },
                }
                Ok(None)
            },
            Err(message) => Err(unreadable("content_block_start", message)),
        }
    } else if same_text(kind, "content_block_delta") {
        match &payload.block_delta {
            Ok(more) => match &more.delta {
                AnthropicDelta::TextDelta { text } => Ok(Some(text_chunk(text))),
                AnthropicDelta::ThinkingDelta { thinking } => Ok(Some(text_chunk(thinking))),
                AnthropicDelta::InputJsonDelta { partial_json } => {
                    state.current_tool_args.push_str(partial_json);
                    Ok(
                        Some(
                            call_chunk(
                                ToolCallDelta {
                                    index: more.index,
                                    id: None,
                                    name: None,
                                    arguments_delta: Some(partial_json.clone()),
                                },
                            ),
                        ),
                    )
                },
            },
            Err(message) => Err(unreadable("content_block_delta", message)),
        }
    } else if same_text(kind, "content_block_stop") {
        let tool_use: bool = match &state.current_block_type {
            Some(t) => same_text(t, "tool_use"),
            None => false,
        };
        state.current_block_type = None;
        if tool_use {
            let index: u32 = match state.current_block_index {
                Some(i) => i,
                None => 0,
            };
            let id: Option<String> = state.current_tool_id.take();
            let name: Option<String> = state.current_tool_name.take();
            state.current_tool_args = String::new();
            Ok(Some(call_chunk(ToolCallDelta { index, id, name, arguments_delta: None })))
        } else {
            Ok(None)
        }
    } else if same_text(kind, "message_delta") {
        match &payload.message_delta {
            Ok(end) => {
                let finish_reason: Option<FinishReason> = match &end.stop_reason {
                    Some(reason) => parse_stop_reason(reason),
                    None => None,
                };
                let usage: Option<Usage> = match end.usage {
                    Some(u) => Some(
                        Usage {
                            prompt_tokens: u.input_tokens,
                            completion_tokens: u.output_tokens,
                            total_tokens: u.input_tokens + u.output_tokens,
                        },
                    ),
                    None => None,
                };
                let calls: Vec<ToolCallDelta> = Vec::new();
                assert(calls.deep_view() =~= seq![]);
                Ok(Some(StreamChunk { delta: None, tool_calls: calls, finish_reason, usage }))
            },
            Err(message) => Err(unreadable("message_delta", message)),
        }
    } else {
        Ok(None)
    }
}

/// The error at the end of a stream that was cut off.
pub open spec fn stream_end_error(s: AnthropicStateView) -> Option<ErrorView> {
    if s.seen_message_stop {
        None
    } else {
        Some(
            ErrorView::Provider(
                ProviderErrorView::Other {
                    message: "Anthropic stream ended before message_stop"@,
                },
            ),
        )
    }
}

/// The error at the end of a stream that was cut off before its message ended.
pub fn finish_anthropic_stream(state: &AnthropicStreamState) -> (r: Option<PiError>)
    ensures
        r.deep_view() == stream_end_error(state.deep_view()),
{
    if state.seen_message_stop {
        None
    } else {
        Some(PiError::provider("Anthropic stream ended before message_stop"))
    }
}

/// Once a stream has reached its end, no event takes that back.
pub proof fn law_message_stop_stays(
    s: AnthropicStateView,
    kind: Seq<char>,
    payload: AnthropicPayload,
)
    requires
        s.seen_message_stop,
    ensures
        event_processed(s, kind, payload).0.seen_message_stop,
{
}

/// A part of a stream.
#[derive(Debug)]
#[allow(inconsistent_fields)]
pub enum AnthropicInput {
    /// An event, with what its data was read as.
    Event {
        /// The event.
        event: SseEvent,
        /// Its data.
        payload: AnthropicPayload,
    },
    /// The stream failed.
    Failed {
        /// The message of the error.
        message: String,
    },
}

/// What an event adds to the chunks of a stream.
pub open spec fn given_chunks(outcome: Result<Option<ChunkView>, ErrorView>) -> Seq<
    Result<ChunkView, ErrorView>,
> {
    match outcome {
        Ok(Some(chunk)) => seq![Ok(chunk)],
        Ok(None) => seq![],
        Err(e) => seq![Err(e)],
    }
}

/// The error of a stream that failed.
pub open spec fn failed_stream(message: Seq<char>) -> ErrorView {
    ErrorView::Provider(ProviderErrorView::Other { message: "SSE error: "@ + message })
}

/// What a stream gives from a state on. An event that cannot be read gives an
/// error, and the stream goes on; a stream that failed is over.
pub open spec fn stream_chunks(inputs: Seq<AnthropicInput>, s: AnthropicStateView) -> Seq<
    Result<ChunkView, ErrorView>,
>
    decreases inputs.len(),
{
    if inputs.len() == 0 {
        match stream_end_error(s) {
            Some(e) => seq![Err(e)],
            None => seq![],
        }
    } else {
        match inputs[0] {
            AnthropicInput::Failed { message } => seq![Err(failed_stream(message@))],
            AnthropicInput::Event { event, payload } => {
                let (next, outcome) = event_processed(
                    s,
                    event_kind(event.deep_view().event),
                    payload,
                );
                given_chunks(outcome) + stream_chunks(inputs.skip(1), next)
            },
        }
    }
}

/// What a list of results holds.
pub open spec fn chunk_results(list: Seq<Result<StreamChunk, PiError>>) -> Seq<
    Result<ChunkView, ErrorView>,
> {
    list.map_values(
        |r: Result<StreamChunk, PiError>|
            match r {
                Ok(chunk) => Ok(chunk.deep_view()),
                Err(e) => Err(e.deep_view()),
            },
    )
}

/// The token counts of all events of a stream add up to 32-bit numbers.
pub open spec fn all_counts_fit(inputs: Seq<AnthropicInput>) -> bool {
    forall|i: int|
        0 <= i < inputs.len() ==> ((#[trigger] inputs[i]) matches AnthropicInput::Event {
            payload,
            ..
        } ==> counts_fit(payload))
}

/// The state before the first event of a stream.
pub open spec fn stream_start() -> AnthropicStateView {
    AnthropicStateView {
        index: None,
        seen_message_stop: false,
        block_type: None,
        tool_id: None,
        tool_name: None,
        tool_args: seq![],
    }
}

/// Convert a whole stream of events.
pub fn anthropic_sse_to_chunks(inputs: &Vec<AnthropicInput>) -> (r: Vec<
    Result<StreamChunk, PiError>,
>)
    requires
        all_counts_fit(inputs@),
    ensures
        chunk_results(r@) == stream_chunks(inputs@, stream_start()),
{
    let mut state: AnthropicStreamState = AnthropicStreamState::new();
    let mut results: Vec<Result<StreamChunk, PiError>> = Vec::new();
    let ghost whole = stream_chunks(inputs@, stream_start());
    let mut i: usize = 0;
    assert(inputs@.skip(0) =~= inputs@);
    assert(chunk_results(results@) + whole =~= whole);
    while i < inputs.len()
        invariant
            all_counts_fit(inputs@),
            i <= inputs@.len(),
            whole == stream_chunks(inputs@, stream_start()),
            chunk_results(results@) + stream_chunks(inputs@.skip(i as int), state.deep_view())
                == whole,
        decreases inputs@.len() - i,
    {
        let ghost rest = inputs@.skip(i as int);
        assert(rest[0] == inputs@[i as int]);
        assert(rest.skip(1) =~= inputs@.skip(i + 1));
        let ghost before = results@;
        match &inputs[i] {
            AnthropicInput::Failed { message } => {
                let mut text: String = "SSE error: ".to_owned();
                text.push_str(message);
                results.push(Err(PiError::provider(&text)));
                assert(chunk_results(results@) =~= chunk_results(before) + seq![
                    Err(failed_stream(message@)),
                ]);
                return results;
            },
            AnthropicInput::Event { event, payload } => {
                match process_anthropic_event(event, payload, &mut state) {
                    Ok(Some(chunk)) => {
                        results.push(Ok(chunk));
                        assert(chunk_results(results@) =~= chunk_results(before) + seq![
                            Ok(chunk.deep_view()),
                        ]);
                    },
                    Ok(None) => {
                        assert(chunk_results(results@) =~= chunk_results(before) + seq![]);
                    },
                    Err(e) => {
                        results.push(Err(e));
                        assert(chunk_results(results@) =~= chunk_results(before) + seq![
                            Err(e.deep_view()),
                        ]);
                    },
                }
            },
        }
        i = i + 1;
        assert(chunk_results(results@) + stream_chunks(inputs@.skip(i as int), state.deep_view())
            =~= whole);
    }
    if let Some(e) = finish_anthropic_stream(&state) {
        let ghost before = results@;
        results.push(Err(e));
        assert(chunk_results(results@) =~= chunk_results(before) + seq![Err(e.deep_view())]);
    } else {
        assert(chunk_results(results@) + Seq::<Result<ChunkView, ErrorView>>::empty()
            =~= chunk_results(results@));
    }
    results
}

/// An event that says that the message is complete.
pub open spec fn is_stop_input(input: AnthropicInput) -> bool {
    input matches AnthropicInput::Event { event, .. } && event_kind(event.deep_view().event)
        == "message_stop"@
}

/// A stream that does not fail ends with the error that it was cut off, unless
/// one of its events says that the message is complete.
pub proof fn law_stream_needs_message_stop(inputs: Seq<AnthropicInput>)
    requires
        forall|i: int| 0 <= i < inputs.len() ==> (#[trigger] inputs[i]) is Event,
        forall|i: int| 0 <= i < inputs.len() ==> !is_stop_input(#[trigger] inputs[i]),
    ensures
        stream_chunks(inputs, stream_start()).len() > 0,
        stream_chunks(inputs, stream_start()).last() == Err::<ChunkView, ErrorView>(
            stream_end_error(stream_start())->0,
        ),
{
    lemma_cut_off(inputs, stream_start());
}

proof fn lemma_cut_off(inputs: Seq<AnthropicInput>, s: AnthropicStateView)
    requires
        !s.seen_message_stop,
        forall|i: int| 0 <= i < inputs.len() ==> (#[trigger] inputs[i]) is Event,
        forall|i: int| 0 <= i < inputs.len() ==> !is_stop_input(#[trigger] inputs[i]),
    ensures
        stream_chunks(inputs, s).len() > 0,
        stream_chunks(inputs, s).last() == Err::<ChunkView, ErrorView>(
            stream_end_error(stream_start())->0,
        ),
    decreases inputs.len(),
{
    if inputs.len() > 0 {
        let rest = inputs.skip(1);
        assert forall|i: int| 0 <= i < rest.len() implies (#[trigger] rest[i]) is Event
            && !is_stop_input(rest[i]) by {
            assert(rest[i] == inputs[i + 1]);
        }
        assert(inputs[0] is Event && !is_stop_input(inputs[0]));
        if let AnthropicInput::Event { event, payload } = inputs[0] {
            let next = event_processed(s, event_kind(event.deep_view().event), payload).0;
            lemma_cut_off(rest, next);
        }
    }
}


// ---------------------------------------------------------------------------
// Tool call identifiers
// ---------------------------------------------------------------------------

/// A character that the API takes in an identifier.
pub open spec fn is_id_char(c: char) -> bool {
    ||| '0' <= c <= '9'
    ||| 'A' <= c <= 'Z'
    ||| 'a' <= c <= 'z'
    ||| c == '_'
    ||| c == '-'
}

/// A text that the API takes as an identifier.
pub open spec fn is_anthropic_id(id: Seq<char>) -> bool {
    &&& 0 < id.len() <= 64
    &&& forall|i: int| 0 <= i < id.len() ==> is_id_char(#[trigger] id[i])
}

/// The front of an identifier that the API has room for, with an underscore for
/// each character that it does not take.
pub open spec fn cleaned_id(id: Seq<char>) -> Seq<char> {
    Seq::new(
        if id.len() <= 64 {
            id.len()
        } else {
            64
        },
        |i: int|
            if is_id_char(id[i]) {
                id[i]
            } else {
                '_'
            },
    )
}

/// The identifier for the API in place of any other.
pub open spec fn anthropic_id(id: Seq<char>) -> Seq<char> {
    if id.len() == 0 {
        "tool_call"@
    } else {
        cleaned_id(id)
    }
}

/// Make an identifier that the API takes.
pub fn normalize_anthropic_tool_call_id(id: &str) -> (r: String)
    ensures
        r@ == anthropic_id(id@),
{
    let chars: Vec<char> = chars_of(id);
    if chars.len() == 0 {
        return "tool_call".to_owned();
    }
    let mut r: String = String::new();
    let mut i: usize = 0;
    while i < chars.len() && i < ANTHROPIC_TOOL_CALL_ID_MAX_LEN
        invariant
            chars@ == id@,
            i <= chars@.len(),
            i <= 64,
            r@ == cleaned_id(id@).take(i as int),
        decreases chars@.len() - i,
    {
        let c: char = chars[i];
        let ghost before = r@;
        if ('0' <= c && c <= '9') || ('A' <= c && c <= 'Z') || ('a' <= c && c <= 'z') || c == '_'
            || c == '-' {
            r.push(c);
        } else {
            r.push('_');
        }
        i = i + 1;
        assert(r@ =~= cleaned_id(id@).take(i as int));
    }
    assert(r@ =~= cleaned_id(id@));
    r
}

/// Makes identifiers that the Anthropic API takes.
pub struct AnthropicIds;

impl ToolCallIdNormalizer for AnthropicIds {
    open spec fn normalized(&self, id: Seq<char>, message: MessageView) -> Seq<char> {
        anthropic_id(id)
    }

    fn normalize(&self, id: &str, message: &Message) -> (r: String) {
        normalize_anthropic_tool_call_id(id)
    }
}

/// Every identifier for the API is one that it takes, and one that it takes is
/// left as it is.
pub proof fn law_anthropic_ids_are_valid(id: Seq<char>)
    ensures
        is_anthropic_id(anthropic_id(id)),
        is_anthropic_id(id) ==> anthropic_id(id) == id,
        anthropic_id(anthropic_id(id)) == anthropic_id(id),
{
    reveal_strlit("tool_call");
    let made = anthropic_id(id);
    assert(is_anthropic_id(made));
    assert(cleaned_id(made) =~= made);
    if is_anthropic_id(id) {
        assert(cleaned_id(id) =~= id);
    }
}

// ---------------------------------------------------------------------------
// Requests
// ---------------------------------------------------------------------------

/// A request to the Messages API.
#[derive(Debug)]
pub struct AnthropicRequest {
    /// The model.
    pub model: String,
    /// The most tokens that the response may take.
    pub max_tokens: u32,
    /// The system prompt.
    pub system: Option<String>,
    /// The conversation.
    pub messages: Vec<AnthropicMessage>,
    /// The tools.
    pub tools: Option<Vec<AnthropicTool>>,
    /// Whether the response is streamed.
    pub stream: bool,
    /// Sampling temperature.
    pub temperature: Option<Json>,
}

/// A message of a request.
#[derive(Debug)]
pub struct AnthropicMessage {
    /// Who speaks: "user" or "assistant".
    pub role: String,
    /// What is said.
    pub content: Vec<AnthropicContentValue>,
}

/// A content block in an Anthropic request message.
#[derive(Debug)]
pub enum AnthropicContentValue {
    /// Text.
    Text {
        /// The text.
        text: String,
    },
    /// An image.
    Image {
        /// Where the image comes from.
        source: AnthropicImageSource,
    },
    /// A tool use.
    ToolUse {
        /// Tool call ID.
        id: String,
        /// Tool name.
        name: String,
        /// Tool input.
        input: Json,
    },
    /// The result of a tool use.
    ToolResult {
        /// Tool call ID.
        tool_use_id: String,
        /// The result.
        content: String,
        /// Whether the tool failed.
        is_error: bool,
    },
    /// Thinking.
    Thinking {
        /// The thinking.
        thinking: String,
        /// Its signature.
        signature: Option<String>,
    },
}

/// Where an image comes from.
#[derive(Debug)]
pub struct AnthropicImageSource {
    /// How the image is given.
    pub source_type: String,
    /// Media type of the image.
    pub media_type: String,
    /// The image.
    pub data: String,
}

/// A tool of a request.
#[derive(Debug)]
pub struct AnthropicTool {
    /// Tool name.
    pub name: String,
    /// Tool description.
    pub description: String,
    /// JSON schema of the input.
    pub input_schema: Json,
}

/// What a content block of a request holds.
pub enum ValueView {
    Text { text: Seq<char> },
    Image { source_type: Seq<char>, media_type: Seq<char>, data: Seq<char> },
    ToolUse { id: Seq<char>, name: Seq<char>, input: JsonView },
    ToolResult { tool_use_id: Seq<char>, content: Seq<char>, is_error: bool },
    Thinking { thinking: Seq<char>, signature: Option<Seq<char>> },
}

/// What a message of a request holds.
pub struct AnthropicMessageView {
    pub role: Seq<char>,
    pub content: Seq<ValueView>,
}

impl DeepView for AnthropicContentValue {
    type V = ValueView;

    open spec fn deep_view(&self) -> ValueView {
        match *self {
            AnthropicContentValue::Text { text } => ValueView::Text { text: text@ },
            AnthropicContentValue::Image { source } => ValueView::Image {
                source_type: source.source_type@,
                media_type: source.media_type@,
                data: source.data@,
            },
            AnthropicContentValue::ToolUse { id, name, input } => ValueView::ToolUse {
                id: id@,
                name: name@,
                input: input.deep_view(),
            },
            AnthropicContentValue::ToolResult { tool_use_id, content, is_error } => {
                ValueView::ToolResult { tool_use_id: tool_use_id@, content: content@, is_error }
            },
            AnthropicContentValue::Thinking { thinking, signature } => ValueView::Thinking {
                thinking: thinking@,
                signature: signature.deep_view(),
            },
        }
    }
}

impl DeepView for AnthropicMessage {
    type V = AnthropicMessageView;

    open spec fn deep_view(&self) -> AnthropicMessageView {
        AnthropicMessageView { role: self.role@, content: self.content.deep_view() }
    }
}

impl DeepView for AnthropicTool {
    type V = ToolDefinitionView;

    open spec fn deep_view(&self) -> ToolDefinitionView {
        ToolDefinitionView {
            name: self.name@,
            description: self.description@,
            parameters: self.input_schema.deep_view(),
        }
    }
}

/// The texts of the text blocks.
pub open spec fn block_texts(blocks: Seq<BlockView>) -> Seq<Seq<char>>
    decreases blocks.len(),
{
    if blocks.len() == 0 {
        seq![]
    } else {
        let front = block_texts(blocks.drop_last());
        match blocks.last() {
            BlockView::Text { text } => front.push(text),
            _ => front,
        }
    }
}

/// The text of content, where it has any: text blocks are joined by lines.
pub open spec fn plain_text(content: Option<ContentView>) -> Option<Seq<char>> {
    match content {
        None => None,
        Some(ContentView::Text(text)) => Some(text),
        Some(ContentView::Blocks(blocks)) => if block_texts(blocks).len() == 0 {
            None
        } else {
            Some(join(block_texts(blocks), "\n"@))
        },
    }
}

/// Extract plain text from [`MessageContent`], if available.
pub fn extract_text_content(content: &Option<MessageContent>) -> (r: Option<String>)
    ensures
        r.deep_view() == plain_text(content.deep_view()),
{
    match content {
        None => None,
        Some(MessageContent::Text(text)) => Some(text.clone()),
        Some(MessageContent::Blocks(blocks)) => {
            let ghost all = blocks.deep_view();
            let mut texts: Vec<String> = Vec::new();
            let mut i: usize = 0;
            assert(all.take(0) =~= seq![]);
            assert(texts.deep_view() =~= seq![]);
            while i < blocks.len()
                invariant
                    all == blocks.deep_view(),
                    i <= blocks@.len(),
                    texts.deep_view() == block_texts(all.take(i as int)),
                decreases blocks@.len() - i,
            {
                assert(all.take(i + 1).drop_last() =~= all.take(i as int));
                assert(all.take(i + 1).last() == blocks@[i as int].deep_view());
                let ghost before = texts.deep_view();
                if let ContentBlock::Text { text } = &blocks[i] {
                    texts.push(text.clone());
                    assert(texts.deep_view() =~= before.push(text@));
                }
                i = i + 1;
            }
            assert(all.take(all.len() as int) =~= all);
            if texts.len() == 0 {
                None
            } else {
                Some(join_text(&texts, "\n"))
            }
        },
    }
}

/// The block of a request for a content block.
pub open spec fn value_for(block: BlockView) -> ValueView {
    match block {
        BlockView::Text { text } => ValueView::Text { text },
        BlockView::Thinking { thinking, thinking_signature, .. } => ValueView::Thinking {
            thinking,
            signature: thinking_signature,
        },
        BlockView::Image { media_type, data } => ValueView::Image {
            source_type: "base64"@,
            media_type,
            data,
        },
        BlockView::ToolUse { id, name, input } => ValueView::ToolUse { id, name, input },
        BlockView::ToolResult { tool_use_id, content, is_error } => ValueView::ToolResult {
            tool_use_id,
            content,
            is_error,
        },
    }
}

/// The blocks of a request for content.
pub open spec fn values_for(content: Option<ContentView>) -> Seq<ValueView> {
    match content {
        None => seq![],
        Some(ContentView::Text(text)) => seq![ValueView::Text { text }],
        Some(ContentView::Blocks(blocks)) => blocks.map_values(|b: BlockView| value_for(b)),
    }
}

fn block_value(block: &ContentBlock) -> (r: AnthropicContentValue)
    ensures
        r.deep_view() == value_for(block.deep_view()),
{
    match block {
        ContentBlock::Text { text } => AnthropicContentValue::Text { text: text.clone() },
        ContentBlock::Thinking { thinking, thinking_signature, .. } => {
            AnthropicContentValue::Thinking {
                thinking: thinking.clone(),
                signature: clone_optional_text(thinking_signature),
            }
        },
        ContentBlock::Image { media_type, data } => AnthropicContentValue::Image {
            source: AnthropicImageSource {
                source_type: "base64".to_owned(),
                media_type: media_type.clone(),
                data: data.clone(),
            },
        },
        ContentBlock::ToolUse { id, name, input } => AnthropicContentValue::ToolUse {
            id: id.clone(),
            name: name.clone(),
            input: input.clone(),
        },
        ContentBlock::ToolResult { tool_use_id, content, is_error } => {
            AnthropicContentValue::ToolResult {
                tool_use_id: tool_use_id.clone(),
                content: content.clone(),
                is_error: *is_error,
            }
        },
    }
}

/// Convert [`MessageContent`] into Anthropic content blocks.
pub fn content_to_anthropic_blocks(content: &Option<MessageContent>) -> (r: Vec<
    AnthropicContentValue,
>)
    ensures
        r.deep_view() == values_for(content.deep_view()),
{
    let mut r: Vec<AnthropicContentValue> = Vec::new();
    match content {
        None => {},
        Some(MessageContent::Text(text)) => {
            r.push(AnthropicContentValue::Text { text: text.clone() });
        },
        Some(MessageContent::Blocks(blocks)) => {
            let ghost values = blocks.deep_view().map_values(|b: BlockView| value_for(b));
            let mut i: usize = 0;
            assert(r.deep_view() =~= values.take(0));
            while i < blocks.len()
                invariant
                    values == blocks.deep_view().map_values(|b: BlockView| value_for(b)),
                    i <= blocks@.len(),
                    r.deep_view() == values.take(i as int),
                decreases blocks@.len() - i,
            {
                let ghost before = r.deep_view();
                let value: AnthropicContentValue = block_value(&blocks[i]);
                assert(value.deep_view() == values[i as int]);
                r.push(value);
                assert(r.deep_view() =~= before.push(values[i as int]));
                i = i + 1;
                assert(r.deep_view() =~= values.take(i as int));
            }
        },
    }
    assert(r.deep_view() =~= values_for(content.deep_view()));
    r
}

/// The thinking blocks of a request for content blocks.
pub open spec fn thinking_values(blocks: Seq<BlockView>) -> Seq<ValueView>
    decreases blocks.len(),
{
    if blocks.len() == 0 {
        seq![]
    } else {
        let front = thinking_values(blocks.drop_last());
        if blocks.last() is Thinking {
            front.push(value_for(blocks.last()))
        } else {
            front
        }
    }
}

/// The input of a tool use: what the text of the arguments holds, or the text
/// itself where it is no JSON.
pub open spec fn input_for(read: Result<JsonView, Seq<char>>, arguments: Seq<char>) -> JsonView {
    match read {
        Ok(value) => value,
        Err(_) => JsonView::Text(arguments),
    }
}

/// The tool use blocks of a request for tool calls.
pub open spec fn call_values(calls: Seq<ToolCallView>) -> Seq<ValueView> {
    calls.map_values(
        |c: ToolCallView|
            ValueView::ToolUse {
                id: c.id,
                name: c.name,
                input: input_for(parsed_json(c.arguments), c.arguments),
            },
    )
}

/// The blocks of a request for an assistant message: its text, its thinking, and
/// its tool calls.
pub open spec fn assistant_values(m: MessageView) -> Seq<ValueView> {
    (match plain_text(m.content) {
        Some(text) => seq![ValueView::Text { text }],
        None => seq![],
    }) + (match m.content {
        Some(ContentView::Blocks(blocks)) => thinking_values(blocks),
        _ => seq![],
    }) + match m.tool_calls {
        Some(calls) => call_values(calls),
        None => seq![],
    }
}

/// The texts of a tool result's blocks.
pub open spec fn result_texts(blocks: Seq<BlockView>) -> Seq<Seq<char>>
    decreases blocks.len(),
{
    if blocks.len() == 0 {
        seq![]
    } else {
        let front = result_texts(blocks.drop_last());
        match blocks.last() {
            BlockView::ToolResult { content, .. } => front.push(content),
            BlockView::Text { text } => front.push(text),
            _ => front,
        }
    }
}

/// Some block is the result of a tool that failed.
pub open spec fn has_error(blocks: Seq<BlockView>) -> bool {
    exists|i: int|
        0 <= i < blocks.len() && (#[trigger] blocks[i]) is ToolResult && blocks[i]->is_error
}

/// The block of a request for a tool result.
pub open spec fn result_value(m: MessageView) -> ValueView {
    let (content, is_error) = match m.content {
        Some(ContentView::Blocks(blocks)) => (
            join(result_texts(blocks), "\n"@),
            has_error(blocks),
        ),
        Some(ContentView::Text(text)) => (text, false),
        None => (seq![], false),
    };
    ValueView::ToolResult {
        tool_use_id: match m.tool_call_id {
            Some(id) => id,
            None => seq![],
        },
        content,
        is_error,
    }
}

/// The messages of a request for a message. The API takes tool results from the
/// user, and the system prompt elsewhere.
pub open spec fn request_messages_for(m: MessageView) -> Seq<AnthropicMessageView> {
    match m.role {
        Role::System => seq![],
        Role::User => if values_for(m.content).len() == 0 {
            seq![]
        } else {
            seq![AnthropicMessageView { role: "user"@, content: values_for(m.content) }]
        },
        Role::Assistant => if assistant_values(m).len() == 0 {
            seq![]
        } else {
            seq![AnthropicMessageView { role: "assistant"@, content: assistant_values(m) }]
        },
        Role::Tool => seq![
            AnthropicMessageView { role: "user"@, content: seq![result_value(m)] },
        ],
    }
}

/// The messages of a request.
pub open spec fn request_messages(messages: Seq<MessageView>) -> Seq<AnthropicMessageView>
    decreases messages.len(),
{
    if messages.len() == 0 {
        seq![]
    } else {
        request_messages(messages.drop_last()) + request_messages_for(messages.last())
    }
}

/// The texts of the system messages.
pub open spec fn system_texts(messages: Seq<MessageView>) -> Seq<Seq<char>>
    decreases messages.len(),
{
    if messages.len() == 0 {
        seq![]
    } else {
        let front = system_texts(messages.drop_last());
        match plain_text(messages.last().content) {
            Some(text) => if messages.last().role == Role::System {
                front.push(text)
            } else {
                front
            },
            None => front,
        }
    }
}

/// The system prompt that the messages hold.
pub open spec fn system_prompt_of(messages: Seq<MessageView>) -> Option<Seq<char>> {
    if system_texts(messages).len() == 0 {
        None
    } else {
        Some(join(system_texts(messages), "\n"@))
    }
}

/// The input of a tool use, given what its arguments were read as.
pub fn tool_input(read: Result<Json, String>, arguments: &str) -> (r: Json)
    ensures
        r.deep_view() == input_for(crate::json::json_result_view(read), arguments@),
{
    match read {
        Ok(value) => value,
        Err(_) => Json::Text(arguments.to_owned()),
    }
}

fn assistant_blocks(msg: &Message) -> (r: Vec<AnthropicContentValue>)
    ensures
        r.deep_view() == assistant_values(msg.deep_view()),
{
    let ghost m = msg.deep_view();
    let mut blocks: Vec<AnthropicContentValue> = Vec::new();
    let ghost mut text_part: Seq<ValueView> = seq![];
    if let Some(text) = extract_text_content(&msg.content) {
        proof {
            text_part = seq![ValueView::Text { text: text@ }];
        }
        blocks.push(AnthropicContentValue::Text { text });
    }
    assert(blocks.deep_view() =~= text_part);
    let ghost mut thinking_part: Seq<ValueView> = seq![];
    if let Some(MessageContent::Blocks(content_blocks)) = &msg.content {
        let ghost all = content_blocks.deep_view();
        let mut i: usize = 0;
        assert(all.take(0) =~= seq![]);
        assert(blocks.deep_view() =~= text_part + thinking_values(all.take(0)));
        while i < content_blocks.len()
            invariant
                all == content_blocks.deep_view(),
                i <= content_blocks@.len(),
                blocks.deep_view() == text_part + thinking_values(all.take(i as int)),
            decreases content_blocks@.len() - i,
        {
            assert(all.take(i + 1).drop_last() =~= all.take(i as int));
            assert(all.take(i + 1).last() == content_blocks@[i as int].deep_view());
            let ghost before = blocks.deep_view();
            if let ContentBlock::Thinking { .. } = &content_blocks[i] {
                let value: AnthropicContentValue = block_value(&content_blocks[i]);
                blocks.push(value);
                assert(blocks.deep_view() =~= before.push(value.deep_view()));
            }
            i = i + 1;
            assert(blocks.deep_view() =~= text_part + thinking_values(all.take(i as int)));
        }
        assert(all.take(all.len() as int) =~= all);
        proof {
            thinking_part = thinking_values(all);
        }
    }
    let ghost front = text_part + thinking_part;
    assert(blocks.deep_view() =~= front);
    if let Some(calls) = &msg.tool_calls {
        let ghost values = call_values(calls.deep_view());
        let mut i: usize = 0;
        assert(blocks.deep_view() =~= front + values.take(0));
        while i < calls.len()
            invariant
                values == call_values(calls.deep_view()),
                i <= calls@.len(),
                blocks.deep_view() == front + values.take(i as int),
            decreases calls@.len() - i,
        {
            let ghost before = blocks.deep_view();
            let call: &ToolCall = &calls[i];
            let input: Json = tool_input(
                parse_json(&call.function.arguments),
                &call.function.arguments,
            );
            let value: AnthropicContentValue = AnthropicContentValue::ToolUse {
                id: call.id.clone(),
                name: call.function.name.clone(),
                input,
            };
            assert(value.deep_view() == values[i as int]);
            blocks.push(value);
            assert(blocks.deep_view() =~= before.push(values[i as int]));
            i = i + 1;
            assert(blocks.deep_view() =~= front + values.take(i as int));
        }
        assert(values.take(values.len() as int) =~= values);
    } else {
        assert(front + Seq::<ValueView>::empty() =~= front);
    }
    blocks
}

fn result_block(msg: &Message) -> (r: AnthropicContentValue)
    ensures
        r.deep_view() == result_value(msg.deep_view()),
{
    let (content, is_error): (String, bool) = match &msg.content {
        Some(MessageContent::Blocks(blocks)) => {
            let ghost all = blocks.deep_view();
            let mut texts: Vec<String> = Vec::new();
            let mut failed: bool = false;
            let mut i: usize = 0;
            assert(all.take(0) =~= seq![]);
            assert(texts.deep_view() =~= seq![]);
            while i < blocks.len()
                invariant
                    all == blocks.deep_view(),
                    i <= blocks@.len(),
                    texts.deep_view() == result_texts(all.take(i as int)),
                    failed == exists|j: int|
                        0 <= j < i && (#[trigger] all[j]) is ToolResult && all[j]->is_error,
                decreases blocks@.len() - i,
            {
                assert(all.take(i + 1).drop_last() =~= all.take(i as int));
                assert(all.take(i + 1).last() == blocks@[i as int].deep_view());
                assert(all[i as int] == blocks@[i as int].deep_view());
                let ghost before = texts.deep_view();
                match &blocks[i] {
                    ContentBlock::ToolResult { content, is_error, .. } => {
                        texts.push(content.clone());
                        assert(texts.deep_view() =~= before.push(content@));
                        if *is_error {
                            assert(all[i as int]->is_error);
                            failed = true;
                        }
                    },
                    ContentBlock::Text { text } => {
                        texts.push(text.clone());
                        assert(texts.deep_view() =~= before.push(text@));
                    },
                    _ => {},
                }
                i = i + 1;
            }
            assert(all.take(all.len() as int) =~= all);
            (join_text(&texts, "\n"), failed)
        },
        Some(MessageContent::Text(text)) => (text.clone(), false),
        None => (String::new(), false),
    };
    let tool_use_id: String = match &msg.tool_call_id {
        Some(id) => id.clone(),
        None => String::new(),
    };
    AnthropicContentValue::ToolResult { tool_use_id, content, is_error }
}

fn push_message(
    result: &mut Vec<AnthropicMessage>,
    role: &str,
    content: Vec<AnthropicContentValue>,
)
    ensures
        final(result).deep_view() == old(result).deep_view().push(
            AnthropicMessageView { role: role@, content: content.deep_view() },
        ),
{
    let ghost before = result.deep_view();
    let message: AnthropicMessage = AnthropicMessage { role: role.to_owned(), content };
    result.push(message);
    assert(result.deep_view() =~= before.push(message.deep_view()));
}

/// Convert messages into Anthropic format.
///
/// Returns `(system_prompt, messages)`: system messages are extracted
/// separately because the Anthropic API takes `system` as a top-level field.
pub fn to_anthropic_messages(messages: &Vec<Message>) -> (r: (
    Option<String>,
    Vec<AnthropicMessage>,
))
    ensures
        r.0.deep_view() == system_prompt_of(messages.deep_view()),
        r.1.deep_view() == request_messages(messages.deep_view()),
{
    let ghost all = messages.deep_view();
    let mut system_parts: Vec<String> = Vec::new();
    let mut result: Vec<AnthropicMessage> = Vec::new();
    let mut i: usize = 0;
    assert(all.take(0) =~= seq![]);
    assert(system_parts.deep_view() =~= seq![]);
    assert(result.deep_view() =~= seq![]);
    while i < messages.len()
        invariant
            all == messages.deep_view(),
            i <= messages@.len(),
            system_parts.deep_view() == system_texts(all.take(i as int)),
            result.deep_view() == request_messages(all.take(i as int)),
        decreases messages@.len() - i,
    {
        assert(all.take(i + 1).drop_last() =~= all.take(i as int));
        assert(all.take(i + 1).last() == messages@[i as int].deep_view());
        let msg: &Message = &messages[i];
        let ghost m = msg.deep_view();
        let ghost before = result.deep_view();
        let ghost parts_before = system_parts.deep_view();
        match msg.role {
            Role::System => {
                if let Some(text) = extract_text_content(&msg.content) {
                    system_parts.push(text);
                    assert(system_parts.deep_view() =~= parts_before.push(text@));
                }
            },
            Role::User => {
                let blocks: Vec<AnthropicContentValue> = content_to_anthropic_blocks(&msg.content);
                if blocks.len() > 0 {
                    push_message(&mut result, "user", blocks);
                }
            },
            Role::Assistant => {
                let blocks: Vec<AnthropicContentValue> = assistant_blocks(msg);
                if blocks.len() > 0 {
                    push_message(&mut result, "assistant", blocks);
                }
            },
            Role::Tool => {
                let mut blocks: Vec<AnthropicContentValue> = Vec::new();
                blocks.push(result_block(msg));
                assert(blocks.deep_view() =~= seq![result_value(m)]);
                push_message(&mut result, "user", blocks);
            },
        }
        assert(result.deep_view() =~= before + request_messages_for(m));
        i = i + 1;
    }
    assert(all.take(all.len() as int) =~= all);
    let system: Option<String> = if system_parts.len() == 0 {
        None
    } else {
        Some(join_text(&system_parts, "\n"))
    };
    (system, result)
}

/// The messages that a request is made of.
pub open spec fn anthropic_conversation(messages: Seq<MessageView>) -> Seq<MessageView> {
    normalized_messages(
        messages,
        seq![ModelInputKind::Text, ModelInputKind::Image],
        Some(AnthropicIds),
        true,
    )
}

/// A request asks a model to go on with a conversation.
pub open spec fn is_request_for(
    r: AnthropicRequest,
    model: Seq<char>,
    messages: Seq<MessageView>,
    tools: Seq<ToolDefinitionView>,
    config: AgentConfig,
    stream: bool,
) -> bool {
    let conversation = anthropic_conversation(messages);
    &&& r.model@ == model
    &&& r.max_tokens == match config.max_tokens {
        Some(n) => n,
        None => 4096,
    }
    &&& r.system.deep_view() == match config.system_prompt {
        Some(prompt) => Some(prompt@),
        None => system_prompt_of(conversation),
    }
    &&& r.messages.deep_view() == request_messages(conversation)
    &&& r.tools.deep_view() == if tools.len() == 0 {
        None
    } else {
        Some(tools)
    }
    &&& r.stream == stream
    &&& r.temperature.deep_view() == config.temperature.deep_view()
}

/// Build an [`AnthropicRequest`].
pub fn build_request(
    model: &str,
    messages: &Vec<Message>,
    tools: &Vec<ToolDefinition>,
    config: &AgentConfig,
    stream: bool,
) -> (r: AnthropicRequest)
    ensures
        is_request_for(r, model@, messages.deep_view(), tools.deep_view(), *config, stream),
{
    let mut input: Vec<ModelInputKind> = Vec::new();
    input.push(ModelInputKind::Text);
    input.push(ModelInputKind::Image);
    assert(input@ =~= seq![ModelInputKind::Text, ModelInputKind::Image]);
    let normalized: Vec<Message> = normalize_messages_with_input(
        messages,
        &input,
        Some(&AnthropicIds),
        true,
    );
    let (system, anthropic_messages): (Option<String>, Vec<AnthropicMessage>) =
        to_anthropic_messages(&normalized);
    let system: Option<String> = match &config.system_prompt {
        Some(prompt) => Some(prompt.clone()),
        None => system,
    };
    let request_tools: Option<Vec<AnthropicTool>> = if tools.len() == 0 {
        None
    } else {
        let ghost all = tools.deep_view();
        let mut converted: Vec<AnthropicTool> = Vec::new();
        let mut i: usize = 0;
        assert(converted.deep_view() =~= all.take(0));
        while i < tools.len()
            invariant
                all == tools.deep_view(),
                i <= tools@.len(),
                converted.deep_view() == all.take(i as int),
            decreases tools@.len() - i,
        {
            let ghost before = converted.deep_view();
            let tool: AnthropicTool = AnthropicTool {
                name: tools[i].name.clone(),
                description: tools[i].description.clone(),
                input_schema: tools[i].parameters.clone(),
            };
            assert(tool.deep_view() == all[i as int]);
            converted.push(tool);
            assert(converted.deep_view() =~= before.push(all[i as int]));
            i = i + 1;
            assert(converted.deep_view() =~= all.take(i as int));
        }
        assert(all.take(all.len() as int) =~= all);
        Some(converted)
    };
    let temperature: Option<Json> = match &config.temperature {
        Some(t) => Some(t.clone()),
        None => None,
    };
    AnthropicRequest {
        model: model.to_owned(),
        max_tokens: match config.max_tokens {
            Some(n) => n,
            None => 4096,
        },
        system,
        messages: anthropic_messages,
        tools: request_tools,
        stream,
        temperature,
    }
}

// ---------------------------------------------------------------------------
// Responses
// ---------------------------------------------------------------------------

/// A whole response of the Messages API.
#[derive(Debug)]
pub struct AnthropicResponse {
    /// Response ID.
    pub id: String,
    /// What the model said.
    pub content: Vec<AnthropicResponseContent>,
    /// Why the model stopped.
    pub stop_reason: Option<String>,
    /// The tokens that were used.
    pub usage: AnthropicUsage,
}

/// A content block of a response.
#[derive(Debug)]
pub enum AnthropicResponseContent {
    /// Text.
    Text {
        /// The text.
        text: String,
    },
    /// A tool use.
    ToolUse {
        /// Tool call ID.
        id: String,
        /// Tool name.
        name: String,
        /// Tool input.
        input: Json,
    },
    /// Thinking.
    Thinking {
        /// The thinking.
        thinking: String,
        /// Its signature.
        signature: Option<String>,
    },
}

/// What a content block of a response holds.
pub enum ResponseBlockView {
    Text { text: Seq<char> },
    ToolUse { id: Seq<char>, name: Seq<char>, input: JsonView },
    Thinking { thinking: Seq<char>, signature: Option<Seq<char>> },
}

impl DeepView for AnthropicResponseContent {
    type V = ResponseBlockView;

    open spec fn deep_view(&self) -> ResponseBlockView {
        match *self {
            AnthropicResponseContent::Text { text } => ResponseBlockView::Text { text: text@ },
            AnthropicResponseContent::ToolUse { id, name, input } => ResponseBlockView::ToolUse {
                id: id@,
                name: name@,
                input: input.deep_view(),
            },
            AnthropicResponseContent::Thinking { thinking, signature } => {
                ResponseBlockView::Thinking {
                    thinking: thinking@,
                    signature: signature.deep_view(),
                }
            },
        }
    }
}

/// The texts of a response.
pub open spec fn response_texts(blocks: Seq<ResponseBlockView>) -> Seq<Seq<char>>
    decreases blocks.len(),
{
    if blocks.len() == 0 {
        seq![]
    } else {
        let front = response_texts(blocks.drop_last());
        match blocks.last() {
            ResponseBlockView::Text { text } => front.push(text),
            _ => front,
        }
    }
}

/// The tool calls of a response.
pub open spec fn response_calls(blocks: Seq<ResponseBlockView>) -> Seq<ToolCallView>
    decreases blocks.len(),
{
    if blocks.len() == 0 {
        seq![]
    } else {
        let front = response_calls(blocks.drop_last());
        match blocks.last() {
            ResponseBlockView::ToolUse { id, name, input } => front.push(
                ToolCallView { id, name, arguments: printed_json(input) },
            ),
            _ => front,
        }
    }
}

/// The message of a response. Thinking is no part of it.
pub open spec fn response_message(blocks: Seq<ResponseBlockView>) -> MessageView {
    MessageView {
        role: Role::Assistant,
        content: if response_texts(blocks).len() == 0 {
            None
        } else {
            Some(ContentView::Text(join(response_texts(blocks), ""@)))
        },
        tool_calls: if response_calls(blocks).len() == 0 {
            None
        } else {
            Some(response_calls(blocks))
        },
        tool_call_id: None,
        name: None,
    }
}

/// Convert a full (non-streaming) Anthropic response into a [`ChatResponse`].
pub fn parse_full_response(resp: &AnthropicResponse) -> (r: ChatResponse)
    requires
        resp.usage.input_tokens + resp.usage.output_tokens <= u32::MAX,
    ensures
        r.message.deep_view() == response_message(resp.content.deep_view()),
        r.finish_reason == match optional_finish_reason(resp.stop_reason.deep_view()) {
            Some(reason) => reason,
            None => FinishReason::Stop,
        },
        r.usage == usage_for(resp.usage),
{
    let ghost all = resp.content.deep_view();
    let mut texts: Vec<String> = Vec::new();
    let mut calls: Vec<ToolCall> = Vec::new();
    let mut i: usize = 0;
    assert(all.take(0) =~= seq![]);
    assert(texts.deep_view() =~= seq![]);
    assert(calls.deep_view() =~= seq![]);
    while i < resp.content.len()
        invariant
            all == resp.content.deep_view(),
            i <= resp.content@.len(),
            texts.deep_view() == response_texts(all.take(i as int)),
            calls.deep_view() == response_calls(all.take(i as int)),
        decreases resp.content@.len() - i,
    {
        assert(all.take(i + 1).drop_last() =~= all.take(i as int));
        assert(all.take(i + 1).last() == resp.content@[i as int].deep_view());
        let ghost texts_before = texts.deep_view();
        let ghost calls_before = calls.deep_view();
        match &resp.content[i] {
            AnthropicResponseContent::Text { text } => {
                texts.push(text.clone());
                assert(texts.deep_view() =~= texts_before.push(text@));
            },
            AnthropicResponseContent::ToolUse { id, name, input } => {
                let call: ToolCall = ToolCall {
                    id: id.clone(),
                    function: FunctionCall { name: name.clone(), arguments: print_json(input) },
                };
                calls.push(call);
                assert(calls.deep_view() =~= calls_before.push(call.deep_view()));
            },
            AnthropicResponseContent::Thinking { .. } => {},
        }
        i = i + 1;
    }
    assert(all.take(all.len() as int) =~= all);
    let content: Option<MessageContent> = if texts.len() == 0 {
        None
    } else {
        Some(MessageContent::Text(join_text(&texts, "")))
    };
    let finish_reason: FinishReason = match &resp.stop_reason {
        Some(reason) => match parse_stop_reason(reason) {
            Some(f) => f,
            None => FinishReason::Stop,
        },
        None => FinishReason::Stop,
    };
    ChatResponse {
        message: Message {
            role: Role::Assistant,
            content,
            tool_calls: if calls.len() == 0 {
                None
            } else {
                Some(calls)
            },
            tool_call_id: None,
            name: None,
        },
        finish_reason,
        usage: Usage {
            prompt_tokens: resp.usage.input_tokens,
            completion_tokens: resp.usage.output_tokens,
            total_tokens: resp.usage.input_tokens + resp.usage.output_tokens,
        },
    }
}

} // verus!
