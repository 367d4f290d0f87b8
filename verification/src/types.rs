//! Core types for the pi agent.

use vstd::prelude::*;

use crate::json::{Json, JsonNumber, JsonNumberView, JsonView};
use crate::text::{chars_of, clone_optional_text, find_char, index_of, lemma_index_of, string_between};

verus! {

/// A message role in the conversation.
#[derive(Debug, Clone, Copy, PartialEq, Eq, Structural)]
pub enum Role {
    /// System prompt messages.
    System,
    /// User input messages.
    User,
    /// Assistant (model) response messages.
    Assistant,
    /// Tool result messages.
    Tool,
}

/// A content block within a message.
#[derive(Debug, PartialEq)]
pub enum ContentBlock {
    /// Plain text content.
    Text {
        /// The text content.
        text: String,
    },
    /// Image content (base64-encoded).
    Image {
        /// Media type (e.g., "image/png").
        media_type: String,
        /// Base64-encoded image data.
        data: String,
    },
    /// Provider reasoning/thinking content.
    Thinking {
        /// Thinking text when the provider exposes it.
        thinking: String,
        /// Provider-specific opaque signature for multi-turn continuity.
        thinking_signature: Option<String>,
        /// Whether the reasoning text was redacted by the provider.
        redacted: bool,
    },
    /// A tool use request from the model.
    ToolUse {
        /// Unique tool call ID.
        id: String,
        /// Tool name.
        name: String,
        /// Tool input arguments as JSON.
        input: Json,
    },
    /// A tool execution result.
    ToolResult {
        /// The tool call ID this result corresponds to.
        tool_use_id: String,
        /// The result content.
        content: String,
        /// Whether the tool execution failed.
        is_error: bool,
    },
}

/// A tool call requested by the model.
#[derive(Debug, PartialEq)]
pub struct ToolCall {
    /// Unique identifier for this tool call.
    pub id: String,
    /// The function to call.
    pub function: FunctionCall,
}

/// Details of a function call within a tool call.
#[derive(Debug, PartialEq)]
pub struct FunctionCall {
    /// Function name.
    pub name: String,
    /// Function arguments as a JSON string.
    pub arguments: String,
}

/// A chat message in the conversation.
#[derive(Debug, PartialEq)]
pub struct Message {
    /// The role of the message author.
    pub role: Role,
    /// Message content: a string or a list of content blocks.
    pub content: Option<MessageContent>,
    /// Tool calls requested by the assistant.
    pub tool_calls: Option<Vec<ToolCall>>,
    /// Tool call ID, required for tool result messages.
    pub tool_call_id: Option<String>,
    /// Name of the tool or participant.
    pub name: Option<String>,
}

/// Message content: either a simple string or structured content blocks.
#[derive(Debug, PartialEq)]
pub enum MessageContent {
    /// Simple text content.
    Text(String),
    /// Structured content blocks (text, images, tool use/result).
    Blocks(Vec<ContentBlock>),
}

/// A tool definition for function calling.
#[derive(Debug, PartialEq)]
pub struct ToolDefinition {
    /// Tool name.
    pub name: String,
    /// Human-readable description.
    pub description: String,
    /// JSON Schema describing the tool's parameters.
    pub parameters: Json,
}

// ---------------------------------------------------------------------------
// What messages hold
// ---------------------------------------------------------------------------

/// What a content block holds.
pub enum BlockView {
    Text { text: Seq<char> },
    Image { media_type: Seq<char>, data: Seq<char> },
    Thinking { thinking: Seq<char>, thinking_signature: Option<Seq<char>>, redacted: bool },
    ToolUse { id: Seq<char>, name: Seq<char>, input: JsonView },
    ToolResult { tool_use_id: Seq<char>, content: Seq<char>, is_error: bool },
}

/// What a tool call holds.
pub struct ToolCallView {
    pub id: Seq<char>,
    pub name: Seq<char>,
    pub arguments: Seq<char>,
}

/// What message content holds.
pub enum ContentView {
    Text(Seq<char>),
    Blocks(Seq<BlockView>),
}

/// What a message holds.
pub struct MessageView {
    pub role: Role,
    pub content: Option<ContentView>,
    pub tool_calls: Option<Seq<ToolCallView>>,
    pub tool_call_id: Option<Seq<char>>,
    pub name: Option<Seq<char>>,
}

/// What a tool definition holds.
pub struct ToolDefinitionView {
    pub name: Seq<char>,
    pub description: Seq<char>,
    pub parameters: JsonView,
}

impl DeepView for ContentBlock {
    type V = BlockView;

    open spec fn deep_view(&self) -> BlockView {
        match *self {
            ContentBlock::Text { text } => BlockView::Text { text: text@ },
            ContentBlock::Image { media_type, data } => BlockView::Image {
                media_type: media_type@,
                data: data@,
            },
            ContentBlock::Thinking { thinking, thinking_signature, redacted } => BlockView::Thinking {
                thinking: thinking@,
                thinking_signature: thinking_signature.deep_view(),
                redacted,
            },
            ContentBlock::ToolUse { id, name, input } => BlockView::ToolUse {
                id: id@,
                name: name@,
                input: input.deep_view(),
            },
            ContentBlock::ToolResult { tool_use_id, content, is_error } => BlockView::ToolResult {
                tool_use_id: tool_use_id@,
                content: content@,
                is_error,
            },
        }
    }
}

impl DeepView for ToolCall {
    type V = ToolCallView;

    open spec fn deep_view(&self) -> ToolCallView {
        ToolCallView {
            id: self.id@,
            name: self.function.name@,
            arguments: self.function.arguments@,
        }
    }
}

impl DeepView for MessageContent {
    type V = ContentView;

    open spec fn deep_view(&self) -> ContentView {
        match *self {
            MessageContent::Text(t) => ContentView::Text(t@),
            MessageContent::Blocks(b) => ContentView::Blocks(b.deep_view()),
        }
    }
}

impl DeepView for Message {
    type V = MessageView;

    open spec fn deep_view(&self) -> MessageView {
        MessageView {
            role: self.role,
            content: self.content.deep_view(),
            tool_calls: self.tool_calls.deep_view(),
            tool_call_id: self.tool_call_id.deep_view(),
            name: self.name.deep_view(),
        }
    }
}

impl DeepView for ToolDefinition {
    type V = ToolDefinitionView;

    open spec fn deep_view(&self) -> ToolDefinitionView {
        ToolDefinitionView {
            name: self.name@,
            description: self.description@,
            parameters: self.parameters.deep_view(),
        }
    }
}

impl Clone for ContentBlock {
    fn clone(&self) -> (r: Self)
        ensures
            r.deep_view() == self.deep_view(),
    {
        match self {
            ContentBlock::Text { text } => ContentBlock::Text { text: text.clone() },
            ContentBlock::Image { media_type, data } => ContentBlock::Image {
                media_type: media_type.clone(),
                data: data.clone(),
            },
            ContentBlock::Thinking { thinking, thinking_signature, redacted } => {
                ContentBlock::Thinking {
                    thinking: thinking.clone(),
                    thinking_signature: clone_optional_text(thinking_signature),
                    redacted: *redacted,
                }
            },
            ContentBlock::ToolUse { id, name, input } => ContentBlock::ToolUse {
                id: id.clone(),
                name: name.clone(),
                input: input.clone(),
            },
            ContentBlock::ToolResult { tool_use_id, content, is_error } => {
                ContentBlock::ToolResult {
                    tool_use_id: tool_use_id.clone(),
                    content: content.clone(),
                    is_error: *is_error,
                }
            },
        }
    }
}

impl Clone for FunctionCall {
    fn clone(&self) -> (r: Self)
        ensures
            r == *self,
    {
        FunctionCall { name: self.name.clone(), arguments: self.arguments.clone() }
    }
}

impl Clone for ToolCall {
    fn clone(&self) -> (r: Self)
        ensures
            r == *self,
    {
        ToolCall { id: self.id.clone(), function: self.function.clone() }
    }
}

impl Clone for MessageContent {
    fn clone(&self) -> (r: Self)
        ensures
            r.deep_view() == self.deep_view(),
    {
        match self {
            MessageContent::Text(t) => MessageContent::Text(t.clone()),
            MessageContent::Blocks(b) => {
                let r: Vec<ContentBlock> = b.clone();
                assert(r.deep_view() =~= b.deep_view());
                MessageContent::Blocks(r)
            },
        }
    }
}

impl Clone for Message {
    fn clone(&self) -> (r: Self)
        ensures
            r.deep_view() == self.deep_view(),
    {
        let content: Option<MessageContent> = match &self.content {
            Some(c) => Some(c.clone()),
            None => None,
        };
        let tool_calls: Option<Vec<ToolCall>> = match &self.tool_calls {
            Some(c) => {
                let r: Vec<ToolCall> = c.clone();
                assert(r.deep_view() =~= c.deep_view());
                Some(r)
            },
            None => None,
        };
        Message {
            role: self.role,
            content,
            tool_calls,
            tool_call_id: clone_optional_text(&self.tool_call_id),
            name: clone_optional_text(&self.name),
        }
    }
}

impl Clone for ToolDefinition {
    fn clone(&self) -> (r: Self)
        ensures
            r.deep_view() == self.deep_view(),
    {
        ToolDefinition {
            name: self.name.clone(),
            description: self.description.clone(),
            parameters: self.parameters.clone(),
        }
    }
}

/// A copy of a list of messages.
pub fn clone_messages(messages: &Vec<Message>) -> (r: Vec<Message>)
    ensures
        r.deep_view() == messages.deep_view(),
{
    let r: Vec<Message> = messages.clone();
    assert(r.deep_view() =~= messages.deep_view());
    r
}

/// What a message that holds only a text holds.
pub open spec fn text_message(role: Role, text: Seq<char>) -> MessageView {
    MessageView {
        role,
        content: Some(ContentView::Text(text)),
        tool_calls: None,
        tool_call_id: None,
        name: None,
    }
}

impl Message {
    /// A message that holds only a text.
    pub fn text(role: Role, text: String) -> (r: Message)
        ensures
            r.deep_view() == text_message(role, text@),
    {
        Message {
            role,
            content: Some(MessageContent::Text(text)),
            tool_calls: None,
            tool_call_id: None,
            name: None,
        }
    }
}

// ---------------------------------------------------------------------------
// Text of messages
// ---------------------------------------------------------------------------

/// The text of the text blocks, one after the other.
pub open spec fn blocks_text(blocks: Seq<BlockView>) -> Seq<char>
    decreases blocks.len(),
{
    if blocks.len() == 0 {
        seq![]
    } else {
        blocks_text(blocks.drop_last()) + match blocks.last() {
            BlockView::Text { text } => text,
            _ => seq![],
        }
    }
}

/// The text of message content.
pub open spec fn content_text(content: Option<ContentView>) -> Seq<char> {
    match content {
        Some(ContentView::Text(t)) => t,
        Some(ContentView::Blocks(b)) => blocks_text(b),
        None => seq![],
    }
}

/// Extract plain text from optional message content.
pub fn extract_text(content: &Option<MessageContent>) -> (r: String)
    ensures
        r@ == content_text(content.deep_view()),
{
    match content {
        Some(MessageContent::Text(t)) => t.clone(),
        Some(MessageContent::Blocks(blocks)) => {
            let ghost all = blocks.deep_view();
            let mut r: String = String::new();
            let mut i: usize = 0;
            assert(all.take(0) =~= seq![]);
            while i < blocks.len()
                invariant
                    all == blocks.deep_view(),
                    i <= blocks@.len(),
                    r@ == blocks_text(all.take(i as int)),
                decreases blocks@.len() - i,
            {
                assert(all.take(i + 1).drop_last() =~= all.take(i as int));
                assert(all.take(i + 1).last() == blocks@[i as int].deep_view());
                let ghost before = r@;
                if let ContentBlock::Text { text } = &blocks[i] {
                    r.push_str(text);
                } else {
                    assert(before + seq![] =~= before);
                }
                i = i + 1;
            }
            assert(all.take(all.len() as int) =~= all);
            r
        },
        None => String::new(),
    }
}

// ---------------------------------------------------------------------------
// Models
// ---------------------------------------------------------------------------

/// Identifies a specific model on a provider.
#[derive(Debug, PartialEq, Eq, Hash)]
pub struct ModelId {
    /// The provider identifier (e.g., "openai", "anthropic").
    pub provider: String,
    /// The model identifier (e.g., "gpt-4o").
    pub model: String,
}

/// The two parts of a `provider/model` text, split at its first slash; neither
/// part may be empty.
pub open spec fn model_parts(s: Seq<char>) -> Option<(Seq<char>, Seq<char>)> {
    match index_of(s, '/') {
        Some(i) => if i > 0 && i + 1 < s.len() {
            Some((s.take(i), s.skip(i + 1)))
        } else {
            None
        },
        None => None,
    }
}

impl DeepView for ModelId {
    type V = (Seq<char>, Seq<char>);

    open spec fn deep_view(&self) -> (Seq<char>, Seq<char>) {
        (self.provider@, self.model@)
    }
}

impl Clone for ModelId {
    fn clone(&self) -> (r: Self)
        ensures
            r == *self,
    {
        ModelId { provider: self.provider.clone(), model: self.model.clone() }
    }
}

impl ModelId {
    /// Create a new `ModelId` from provider and model strings.
    pub fn new(provider: &str, model: &str) -> (r: Self)
        ensures
            r.deep_view() == (provider@, model@),
    {
        ModelId { provider: provider.to_owned(), model: model.to_owned() }
    }

    /// Parse a `provider/model` string into a `ModelId`.
    pub fn parse(s: &str) -> (r: Option<Self>)
        ensures
            r.deep_view() == model_parts(s@),
    {
        let chars: Vec<char> = chars_of(s);
        let i: usize = match find_char(&chars, '/') {
            Some(i) => i,
            None => {
                return None;
            },
        };
        if i == 0 || i == chars.len() - 1 {
            return None;
        }
        let provider: String = string_between(&chars, 0, i);
        let model: String = string_between(&chars, i + 1, chars.len());
        assert(s@.take(i as int) == s@.subrange(0, i as int));
        assert(s@.skip(i + 1) == s@.subrange(i + 1, s@.len() as int));
        Some(ModelId { provider, model })
    }

    /// The `provider/model` text.
    pub fn to_text(&self) -> (r: String)
        ensures
            r@ == self.provider@.push('/') + self.model@,
    {
        let mut r: String = self.provider.clone();
        r.push('/');
        r.push_str(&self.model);
        r
    }
}

/// Writing a model id and parsing it back gives the id, where the provider
/// holds no slash and neither part is empty.
pub proof fn law_model_id_round_trip(provider: Seq<char>, model: Seq<char>)
    requires
        provider.len() > 0,
        model.len() > 0,
        !provider.contains('/'),
    ensures
        model_parts(provider.push('/') + model) == Some((provider, model)),
{
    let s = provider.push('/') + model;
    lemma_index_of(s, '/');
    let n = provider.len() as int;
    assert(s[n] == '/');
    assert forall|j: int| 0 <= j < n implies s[j] != '/' by {
        assert(provider.contains(provider[j]));
    }
    assert(index_of(s, '/') == Some(n));
    assert(s.take(n) =~= provider);
    assert(s.skip(n + 1) =~= model);
}

impl std::str::FromStr for ModelId {
    type Err = &'static str;

    fn from_str(s: &str) -> (r: Result<Self, &'static str>)
        ensures
            match r {
                Ok(id) => model_parts(s@) == Some(id.deep_view()),
                Err(message) => {
                    &&& model_parts(s@) is None
                    &&& message@ == "invalid model id format: expected 'provider/model'"@
                },
            },
    {
        match ModelId::parse(s) {
            Some(id) => Ok(id),
            None => Err("invalid model id format: expected 'provider/model'"),
        }
    }
}

/// Reasoning effort level requested for models that support thinking controls.
#[derive(Debug, Clone, Copy, PartialEq, Eq, PartialOrd, Ord, Hash, Structural)]
pub enum ThinkingLevel {
    /// Disable thinking when the provider supports an explicit off value.
    Off,
    /// Minimal reasoning effort.
    Minimal,
    /// Low reasoning effort.
    Low,
    /// Medium reasoning effort.
    Medium,
    /// High reasoning effort.
    High,
    /// Extra-high reasoning effort.
    XHigh,
}

/// The form in which a provider takes a request for reasoning.
#[derive(Debug, Clone, Copy, PartialEq, Eq, Structural)]
pub enum ThinkingFormat {
    /// A reasoning effort.
    OpenAi,
    /// OpenRouter's reasoning object.
    OpenRouter,
    /// DeepSeek's form.
    DeepSeek,
    /// Together's form.
    Together,
    /// Z.ai's form.
    Zai,
    /// Qwen's switch.
    Qwen,
    /// Qwen's switch among the arguments of the chat template.
    QwenChatTemplate,
    /// No form at all.
    Unsupported,
}

/// Preferred transport for providers that expose multiple streaming transports.
#[derive(Debug, Clone, Copy, PartialEq, Eq, Hash, Structural)]
pub enum Transport {
    /// Server-sent events.
    Sse,
    /// WebSocket transport.
    WebSocket,
    /// WebSocket transport with provider-side caching.
    WebSocketCached,
    /// Provider chooses the best transport.
    Auto,
}

/// Prompt cache retention preference.
#[derive(Debug, Clone, Copy, PartialEq, Eq, Hash, Structural)]
pub enum CacheRetention {
    /// Do not request prompt caching.
    Never,
    /// Short-lived prompt cache.
    Short,
    /// Long-lived prompt cache.
    Long,
}

/// Supported model input modality.
#[derive(Debug, Clone, Copy, PartialEq, Eq, Hash, Structural)]
pub enum ModelInputKind {
    /// Text input.
    Text,
    /// Image input.
    Image,
}

/// Compatibility flags for OpenAI-compatible completions APIs.
#[derive(Debug, PartialEq, Eq)]
pub struct OpenAiCompat {
    /// Whether the provider supports the `store` field.
    pub supports_store: Option<bool>,
    /// Whether the provider supports the `developer` role.
    pub supports_developer_role: Option<bool>,
    /// Whether the provider supports reasoning effort.
    pub supports_reasoning_effort: Option<bool>,
    /// Whether streaming can include usage accounting.
    pub supports_usage_in_streaming: Option<bool>,
    /// Field name used for max-token limits.
    pub max_tokens_field: Option<String>,
    /// Whether tool result messages require the tool name.
    pub requires_tool_result_name: Option<bool>,
    /// Whether a tool result must be followed by an assistant message before user input.
    pub requires_assistant_after_tool_result: Option<bool>,
    /// Whether thinking blocks must be sent as text.
    pub requires_thinking_as_text: Option<bool>,
    /// The form in which the provider takes a request for reasoning.
    pub thinking_format: Option<ThinkingFormat>,
    /// Whether strict tool schema mode is supported.
    pub supports_strict_mode: Option<bool>,
    /// Whether long prompt-cache retention is supported.
    pub supports_long_cache_retention: Option<bool>,
}

/// What the flags of an OpenAI-compatible API hold.
pub struct OpenAiCompatView {
    pub supports_store: Option<bool>,
    pub supports_developer_role: Option<bool>,
    pub supports_reasoning_effort: Option<bool>,
    pub supports_usage_in_streaming: Option<bool>,
    pub max_tokens_field: Option<Seq<char>>,
    pub requires_tool_result_name: Option<bool>,
    pub requires_assistant_after_tool_result: Option<bool>,
    pub requires_thinking_as_text: Option<bool>,
    pub thinking_format: Option<ThinkingFormat>,
    pub supports_strict_mode: Option<bool>,
    pub supports_long_cache_retention: Option<bool>,
}

impl DeepView for OpenAiCompat {
    type V = OpenAiCompatView;

    open spec fn deep_view(&self) -> OpenAiCompatView {
        OpenAiCompatView {
            supports_store: self.supports_store,
            supports_developer_role: self.supports_developer_role,
            supports_reasoning_effort: self.supports_reasoning_effort,
            supports_usage_in_streaming: self.supports_usage_in_streaming,
            max_tokens_field: self.max_tokens_field.deep_view(),
            requires_tool_result_name: self.requires_tool_result_name,
            requires_assistant_after_tool_result: self.requires_assistant_after_tool_result,
            requires_thinking_as_text: self.requires_thinking_as_text,
            thinking_format: self.thinking_format,
            supports_strict_mode: self.supports_strict_mode,
            supports_long_cache_retention: self.supports_long_cache_retention,
        }
    }
}

impl Clone for OpenAiCompat {
    fn clone(&self) -> (r: Self)
        ensures
            r.deep_view() == self.deep_view(),
    {
        OpenAiCompat {
            supports_store: self.supports_store,
            supports_developer_role: self.supports_developer_role,
            supports_reasoning_effort: self.supports_reasoning_effort,
            supports_usage_in_streaming: self.supports_usage_in_streaming,
            max_tokens_field: clone_optional_text(&self.max_tokens_field),
            requires_tool_result_name: self.requires_tool_result_name,
            requires_assistant_after_tool_result: self.requires_assistant_after_tool_result,
            requires_thinking_as_text: self.requires_thinking_as_text,
            thinking_format: self.thinking_format,
            supports_strict_mode: self.supports_strict_mode,
            supports_long_cache_retention: self.supports_long_cache_retention,
        }
    }
}

impl Default for OpenAiCompat {
    fn default() -> (r: Self)
        ensures
            r.deep_view() == (OpenAiCompatView {
                supports_store: None,
                supports_developer_role: None,
                supports_reasoning_effort: None,
                supports_usage_in_streaming: None,
                max_tokens_field: None,
                requires_tool_result_name: None,
                requires_assistant_after_tool_result: None,
                requires_thinking_as_text: None,
                thinking_format: None,
                supports_strict_mode: None,
                supports_long_cache_retention: None,
            }),
    {
        OpenAiCompat {
            supports_store: None,
            supports_developer_role: None,
            supports_reasoning_effort: None,
            supports_usage_in_streaming: None,
            max_tokens_field: None,
            requires_tool_result_name: None,
            requires_assistant_after_tool_result: None,
            requires_thinking_as_text: None,
            thinking_format: None,
            supports_strict_mode: None,
            supports_long_cache_retention: None,
        }
    }
}

/// Compatibility flags for Anthropic Messages-compatible APIs.
#[derive(Debug, Clone, Copy, PartialEq, Eq)]
pub struct AnthropicCompat {
    /// Whether eager tool input streaming is supported.
    pub supports_eager_tool_input_streaming: Option<bool>,
    /// Whether long cache retention is supported.
    pub supports_long_cache_retention: Option<bool>,
    /// Whether session-affinity headers should be sent.
    pub send_session_affinity_headers: Option<bool>,
    /// Whether cache-control markers are supported on tool definitions.
    pub supports_cache_control_on_tools: Option<bool>,
    /// Whether adaptive thinking format should be forced.
    pub force_adaptive_thinking: Option<bool>,
}

/// Compatibility flags for Google-compatible APIs.
#[derive(Debug, Clone, Copy, PartialEq, Eq)]
pub struct GoogleCompat {
    /// Whether thought signatures are supported.
    pub supports_thought_signatures: Option<bool>,
    /// Whether system instructions are supported separately from chat contents.
    pub supports_system_instruction: Option<bool>,
}

/// Provider compatibility overrides grouped by API family.
#[derive(Debug, PartialEq, Eq)]
pub struct CompatFlags {
    /// OpenAI-compatible completions flags.
    pub openai: Option<OpenAiCompat>,
    /// Anthropic Messages-compatible flags.
    pub anthropic: Option<AnthropicCompat>,
    /// Google-compatible flags.
    pub google: Option<GoogleCompat>,
}

/// Provider feature capabilities.
#[derive(Debug, Clone, Copy, PartialEq, Eq)]
pub struct ProviderCapabilities {
    /// Whether the provider supports image inputs.
    pub vision: bool,
    /// Whether the provider supports function/tool calling.
    pub function_calling: bool,
    /// Whether the provider supports JSON response mode.
    pub json_mode: bool,
    /// Whether the provider supports streaming responses.
    pub streaming: bool,
    /// Whether the provider supports thinking/reasoning controls.
    pub thinking: bool,
}

impl Default for ProviderCapabilities {
    fn default() -> (r: Self)
        ensures
            r == (ProviderCapabilities {
                vision: false,
                function_calling: false,
                json_mode: false,
                streaming: false,
                thinking: false,
            }),
    {
        ProviderCapabilities {
            vision: false,
            function_calling: false,
            json_mode: false,
            streaming: false,
            thinking: false,
        }
    }
}

impl Default for CompatFlags {
    fn default() -> (r: Self)
        ensures
            r.openai is None,
            r.anthropic is None,
            r.google is None,
    {
        CompatFlags { openai: None, anthropic: None, google: None }
    }
}

impl Default for AnthropicCompat {
    fn default() -> (r: Self)
        ensures
            r == (AnthropicCompat {
                supports_eager_tool_input_streaming: None,
                supports_long_cache_retention: None,
                send_session_affinity_headers: None,
                supports_cache_control_on_tools: None,
                force_adaptive_thinking: None,
            }),
    {
        AnthropicCompat {
            supports_eager_tool_input_streaming: None,
            supports_long_cache_retention: None,
            send_session_affinity_headers: None,
            supports_cache_control_on_tools: None,
            force_adaptive_thinking: None,
        }
    }
}

/// Provider metadata used by registries and pre-flight checks.
#[derive(Debug, PartialEq, Eq)]
pub struct ProviderMetadata {
    /// Stable provider identifier.
    pub id: String,
    /// Human-readable provider name.
    pub name: String,
    /// Supported API implementation identifiers.
    pub supported_apis: Vec<String>,
    /// Supported feature set.
    pub capabilities: ProviderCapabilities,
    /// Compatibility flags for provider-specific wire behavior.
    pub compat: CompatFlags,
}

impl ProviderMetadata {
    /// Create default metadata for a provider id.
    pub fn new(id: &str) -> (r: Self)
        ensures
            r.id@ == id@,
            r.name@ == id@,
            r.supported_apis@.len() == 0,
            r.capabilities == (ProviderCapabilities {
                vision: false,
                function_calling: false,
                json_mode: false,
                streaming: false,
                thinking: false,
            }),
            r.compat.openai is None,
            r.compat.anthropic is None,
            r.compat.google is None,
    {
        ProviderMetadata {
            id: id.to_owned(),
            name: id.to_owned(),
            supported_apis: Vec::new(),
            capabilities: ProviderCapabilities::default(),
            compat: CompatFlags::default(),
        }
    }
}

/// Token cost metadata in dollars per million tokens.
#[derive(Debug, PartialEq)]
pub struct ModelCost {
    /// Input token cost.
    pub input: JsonNumber,
    /// Output token cost.
    pub output: JsonNumber,
    /// Prompt-cache read token cost.
    pub cache_read: JsonNumber,
    /// Prompt-cache write token cost.
    pub cache_write: JsonNumber,
}

/// Metadata for a model.
#[derive(Debug, PartialEq)]
pub struct Model {
    /// Provider-qualified model identifier.
    pub id: ModelId,
    /// Human-readable model name.
    pub name: String,
    /// API implementation identifier.
    pub api: String,
    /// Provider identifier.
    pub provider: String,
    /// Base URL used for the provider API.
    pub base_url: String,
    /// Whether the model supports reasoning controls.
    pub reasoning: bool,
    /// Map from thinking levels to provider-specific values, each level once.
    pub thinking_level_map: Vec<(ThinkingLevel, Option<String>)>,
    /// Supported input modalities.
    pub input: Vec<ModelInputKind>,
    /// Token cost metadata.
    pub cost: ModelCost,
    /// Context window in tokens.
    pub context_window: u32,
    /// Maximum output tokens.
    pub max_tokens: u32,
    /// Optional headers to apply to requests, each name once.
    pub headers: Option<Vec<(String, String)>>,
    /// Optional provider compatibility flags.
    pub compat: Option<CompatFlags>,
}

/// What compatibility flags hold.
pub struct CompatView {
    pub openai: Option<OpenAiCompatView>,
    pub anthropic: Option<AnthropicCompat>,
    pub google: Option<GoogleCompat>,
}

/// What the metadata of a model hold.
pub struct ModelView {
    pub id: (Seq<char>, Seq<char>),
    pub name: Seq<char>,
    pub api: Seq<char>,
    pub provider: Seq<char>,
    pub base_url: Seq<char>,
    pub reasoning: bool,
    pub thinking_level_map: Seq<(ThinkingLevel, Option<Seq<char>>)>,
    pub input: Seq<ModelInputKind>,
    pub cost: (JsonNumberView, JsonNumberView, JsonNumberView, JsonNumberView),
    pub context_window: u32,
    pub max_tokens: u32,
    pub headers: Option<Seq<(Seq<char>, Seq<char>)>>,
    pub compat: Option<CompatView>,
}

impl DeepView for ThinkingLevel {
    type V = ThinkingLevel;

    open spec fn deep_view(&self) -> ThinkingLevel {
        *self
    }
}

impl DeepView for CompatFlags {
    type V = CompatView;

    open spec fn deep_view(&self) -> CompatView {
        CompatView {
            openai: self.openai.deep_view(),
            anthropic: self.anthropic,
            google: self.google,
        }
    }
}

impl DeepView for Model {
    type V = ModelView;

    open spec fn deep_view(&self) -> ModelView {
        ModelView {
            id: self.id.deep_view(),
            name: self.name@,
            api: self.api@,
            provider: self.provider@,
            base_url: self.base_url@,
            reasoning: self.reasoning,
            thinking_level_map: self.thinking_level_map.deep_view(),
            input: self.input@,
            cost: (
                self.cost.input.deep_view(),
                self.cost.output.deep_view(),
                self.cost.cache_read.deep_view(),
                self.cost.cache_write.deep_view(),
            ),
            context_window: self.context_window,
            max_tokens: self.max_tokens,
            headers: self.headers.deep_view(),
            compat: self.compat.deep_view(),
        }
    }
}

impl Clone for CompatFlags {
    fn clone(&self) -> (r: Self)
        ensures
            r.deep_view() == self.deep_view(),
    {
        CompatFlags {
            openai: match &self.openai {
                Some(openai) => Some(openai.clone()),
                None => None,
            },
            anthropic: self.anthropic,
            google: self.google,
        }
    }
}

impl Clone for Model {
    fn clone(&self) -> (r: Self)
        ensures
            r.deep_view() == self.deep_view(),
    {
        let ghost levels = self.thinking_level_map.deep_view();
        let mut thinking_level_map: Vec<(ThinkingLevel, Option<String>)> = Vec::new();
        let mut i: usize = 0;
        assert(thinking_level_map.deep_view() =~= levels.take(0));
        while i < self.thinking_level_map.len()
            invariant
                levels == self.thinking_level_map.deep_view(),
                i <= self.thinking_level_map@.len(),
                thinking_level_map.deep_view() == levels.take(i as int),
            decreases self.thinking_level_map@.len() - i,
        {
            let ghost before = thinking_level_map.deep_view();
            let value: Option<String> = clone_optional_text(&self.thinking_level_map[i].1);
            thinking_level_map.push((self.thinking_level_map[i].0, value));
            assert(thinking_level_map.deep_view() =~= before.push(levels[i as int]));
            i = i + 1;
            assert(thinking_level_map.deep_view() =~= levels.take(i as int));
        }
        assert(levels.take(levels.len() as int) =~= levels);
        let mut input: Vec<ModelInputKind> = Vec::new();
        let mut j: usize = 0;
        assert(input@ =~= self.input@.take(0));
        while j < self.input.len()
            invariant
                j <= self.input@.len(),
                input@ == self.input@.take(j as int),
            decreases self.input@.len() - j,
        {
            input.push(self.input[j]);
            j = j + 1;
            assert(input@ =~= self.input@.take(j as int));
        }
        assert(self.input@.take(self.input@.len() as int) =~= self.input@);
        Model {
            id: self.id.clone(),
            name: self.name.clone(),
            api: self.api.clone(),
            provider: self.provider.clone(),
            base_url: self.base_url.clone(),
            reasoning: self.reasoning,
            thinking_level_map,
            input,
            cost: ModelCost {
                input: self.cost.input.clone(),
                output: self.cost.output.clone(),
                cache_read: self.cost.cache_read.clone(),
                cache_write: self.cost.cache_write.clone(),
            },
            context_window: self.context_window,
            max_tokens: self.max_tokens,
            headers: match &self.headers {
                Some(headers) => Some(clone_pairs(headers)),
                None => None,
            },
            compat: match &self.compat {
                Some(compat) => Some(compat.clone()),
                None => None,
            },
        }
    }
}

/// A copy of pairs of texts.
pub fn clone_pairs(pairs: &Vec<(String, String)>) -> (r: Vec<(String, String)>)
    ensures
        r.deep_view() == pairs.deep_view(),
{
    let ghost all = pairs.deep_view();
    let mut r: Vec<(String, String)> = Vec::new();
    let mut i: usize = 0;
    assert(r.deep_view() =~= all.take(0));
    while i < pairs.len()
        invariant
            all == pairs.deep_view(),
            i <= pairs@.len(),
            r.deep_view() == all.take(i as int),
        decreases pairs@.len() - i,
    {
        let ghost before = r.deep_view();
        r.push((pairs[i].0.clone(), pairs[i].1.clone()));
        assert(r.deep_view() =~= before.push(all[i as int]));
        i = i + 1;
        assert(r.deep_view() =~= all.take(i as int));
    }
    assert(all.take(all.len() as int) =~= all);
    r
}

/// Configuration for an agent instance.
#[derive(Debug, PartialEq)]
pub struct AgentConfig {
    /// Model to use.
    pub model: ModelId,
    /// Maximum tokens for the response.
    pub max_tokens: Option<u32>,
    /// Sampling temperature, as the JSON value that a request carries.
    pub temperature: Option<Json>,
    /// System prompt override.
    pub system_prompt: Option<String>,
    /// Maximum number of tool-call iterations before stopping.
    pub max_iterations: u32,
}

/// What an agent configuration holds.
pub struct AgentConfigView {
    pub model: ModelId,
    pub max_tokens: Option<u32>,
    pub temperature: Option<JsonView>,
    pub system_prompt: Option<Seq<char>>,
    pub max_iterations: u32,
}

impl DeepView for AgentConfig {
    type V = AgentConfigView;

    open spec fn deep_view(&self) -> AgentConfigView {
        AgentConfigView {
            model: self.model,
            max_tokens: self.max_tokens,
            temperature: self.temperature.deep_view(),
            system_prompt: self.system_prompt.deep_view(),
            max_iterations: self.max_iterations,
        }
    }
}

impl Clone for AgentConfig {
    fn clone(&self) -> (r: Self)
        ensures
            r.deep_view() == self.deep_view(),
    {
        AgentConfig {
            model: self.model.clone(),
            max_tokens: self.max_tokens,
            temperature: match &self.temperature {
                Some(t) => Some(t.clone()),
                None => None,
            },
            system_prompt: clone_optional_text(&self.system_prompt),
            max_iterations: self.max_iterations,
        }
    }
}

/// Provider-specific configuration.
#[allow(inconsistent_fields)]
#[derive(PartialEq, Eq)]
pub enum ProviderConfig {
    /// OpenAI-compatible API configuration.
    OpenAi {
        /// API key.
        api_key: String,
        /// Base URL override (defaults to api.openai.com).
        base_url: Option<String>,
    },
    /// Anthropic API configuration.
    Anthropic {
        /// API key.
        api_key: String,
        /// Base URL override.
        base_url: Option<String>,
    },
    /// Ollama local model configuration.
    Ollama {
        /// Base URL for Ollama API.
        base_url: String,
    },
    /// Gitlawb OpenAI-compatible gateway configuration.
    Gitlawb {
        /// API key.
        api_key: String,
        /// Base URL override.
        base_url: Option<String>,
    },
}

/// Reason the model stopped generating.
#[derive(Debug, Clone, Copy, PartialEq, Eq, Structural)]
pub enum FinishReason {
    /// Natural stop or stop sequence hit.
    Stop,
    /// Hit the token limit.
    Length,
    /// Model wants to call tools.
    ToolCalls,
    /// Content was filtered.
    ContentFilter,
}

/// Terminal reason for the assistant-message event protocol.
#[derive(Debug, Clone, Copy, PartialEq, Eq, Hash, Structural)]
pub enum StopReason {
    /// Natural stop or stop sequence hit.
    Stop,
    /// Hit the token limit.
    Length,
    /// Model wants to call tools.
    ToolUse,
    /// Provider or runtime error.
    Error,
    /// Request was aborted.
    Aborted,
}

/// The terminal reason for a finish reason.
pub open spec fn stop_reason(reason: FinishReason) -> StopReason {
    match reason {
        FinishReason::Stop => StopReason::Stop,
        FinishReason::Length => StopReason::Length,
        FinishReason::ToolCalls => StopReason::ToolUse,
        FinishReason::ContentFilter => StopReason::Error,
    }
}

impl From<FinishReason> for StopReason {
    fn from(reason: FinishReason) -> (r: Self) {
        match reason {
            FinishReason::Stop => StopReason::Stop,
            FinishReason::Length => StopReason::Length,
            FinishReason::ToolCalls => StopReason::ToolUse,
            FinishReason::ContentFilter => StopReason::Error,
        }
    }
}

impl vstd::std_specs::convert::FromSpecImpl<FinishReason> for StopReason {
    open spec fn obeys_from_spec() -> bool {
        true
    }

    open spec fn from_spec(reason: FinishReason) -> StopReason {
        stop_reason(reason)
    }
}

/// Token usage statistics for a request.
#[derive(Debug, Clone, Copy, PartialEq, Eq, Structural)]
pub struct Usage {
    /// Number of tokens in the prompt.
    pub prompt_tokens: u32,
    /// Number of tokens in the completion.
    pub completion_tokens: u32,
    /// Total tokens used.
    pub total_tokens: u32,
}

/// A complete chat response from a provider.
#[derive(Debug, PartialEq)]
pub struct ChatResponse {
    /// The response message.
    pub message: Message,
    /// Why the model stopped generating.
    pub finish_reason: FinishReason,
    /// Token usage for this request.
    pub usage: Usage,
}

// ---------------------------------------------------------------------------
// Escaping
// ---------------------------------------------------------------------------

/// What stands for a character inside a summary container.
pub open spec fn escaped_char(c: char) -> Seq<char> {
    if c == '&' {
        "&amp;"@
    } else if c == '<' {
        "&lt;"@
    } else if c == '>' {
        "&gt;"@
    } else {
        seq![c]
    }
}

/// Text with `&`, `<` and `>` replaced by their entities.
pub open spec fn escaped(s: Seq<char>) -> Seq<char>
    decreases s.len(),
{
    if s.len() == 0 {
        seq![]
    } else {
        escaped(s.drop_last()) + escaped_char(s.last())
    }
}

/// Escape XML tags in text to prevent injection into summary containers.
pub fn escape_xml_tags(text: &str) -> (r: String)
    ensures
        r@ == escaped(text@),
{
    let chars: Vec<char> = chars_of(text);
    let mut r: String = String::new();
    let mut i: usize = 0;
    while i < chars.len()
        invariant
            chars@ == text@,
            i <= chars@.len(),
            r@ == escaped(text@.take(i as int)),
        decreases chars@.len() - i,
    {
        let c: char = chars[i];
        assert(text@.take(i + 1).drop_last() == text@.take(i as int));
        if c == '&' {
            r.push_str("&amp;");
        } else if c == '<' {
            r.push_str("&lt;");
        } else if c == '>' {
            r.push_str("&gt;");
        } else {
            let ghost before = r@;
            r.push(c);
            assert(r@ == before + seq![c]);
        }
        i = i + 1;
    }
    assert(text@.take(text@.len() as int) == text@);
    r
}

/// Escaped text holds no angle bracket.
pub proof fn law_escaped_has_no_tags(s: Seq<char>)
    ensures
        !escaped(s).contains('<'),
        !escaped(s).contains('>'),
    decreases s.len(),
{
    reveal_strlit("&amp;");
    reveal_strlit("&lt;");
    reveal_strlit("&gt;");
    if s.len() > 0 {
        law_escaped_has_no_tags(s.drop_last());
        let front = escaped(s.drop_last());
        let back = escaped_char(s.last());
        assert(!back.contains('<') && !back.contains('>'));
        assert forall|i: int| 0 <= i < (front + back).len() implies (front + back)[i] != '<' && (
        front + back)[i] != '>' by {
            if i < front.len() {
                assert(front.contains(front[i]));
            } else {
                assert(back.contains(back[i - front.len()]));
            }
        }
    }
}

/// Text without `&`, `<` or `>` is left as it is.
pub proof fn law_plain_text_not_escaped(s: Seq<char>)
    requires
        forall|i: int| 0 <= i < s.len() ==> s[i] != '&' && s[i] != '<' && s[i] != '>',
    ensures
        escaped(s) == s,
    decreases s.len(),
{
    if s.len() > 0 {
        law_plain_text_not_escaped(s.drop_last());
        assert(escaped(s) =~= s.drop_last() + seq![s.last()]);
        assert(s =~= s.drop_last() + seq![s.last()]);
    } else {
        assert(escaped(s) =~= s);
    }
}

// ---------------------------------------------------------------------------
// Provider requests
// ---------------------------------------------------------------------------

/// Provider-neutral request stream options.
#[derive(PartialEq)]
pub struct StreamOptions {
    /// Sampling temperature override, as the JSON value that a request carries.
    pub temperature: Option<Json>,
    /// Max output tokens override.
    pub max_tokens: Option<u32>,
    /// API key override.
    pub api_key: Option<String>,
    /// Preferred transport.
    pub transport: Transport,
    /// Prompt-cache retention preference.
    pub cache_retention: CacheRetention,
}

/// The options where nothing is asked for.
pub open spec fn are_default_options(o: StreamOptions) -> bool {
    &&& o.temperature is None
    &&& o.max_tokens is None
    &&& o.api_key is None
    &&& o.transport == Transport::Auto
    &&& o.cache_retention == CacheRetention::Never
}

impl Default for StreamOptions {
    fn default() -> (r: Self)
        ensures
            are_default_options(r),
    {
        StreamOptions {
            temperature: None,
            max_tokens: None,
            api_key: None,
            transport: Transport::Auto,
            cache_retention: CacheRetention::Never,
        }
    }
}

/// Provider request configuration separated from agent-loop behavior.
#[derive(PartialEq)]
pub struct ProviderRequestConfig {
    /// Provider-qualified model id, when known.
    pub model: Option<ModelId>,
    /// Optional context window used for pre-flight validation.
    pub context_window: Option<u32>,
    /// Stream options used by providers.
    pub stream: StreamOptions,
}

impl Default for ProviderRequestConfig {
    fn default() -> (r: Self)
        ensures
            r.model is None,
            r.context_window is None,
            are_default_options(r.stream),
    {
        ProviderRequestConfig {
            model: None,
            context_window: None,
            stream: StreamOptions::default(),
        }
    }
}

// ---------------------------------------------------------------------------
// Assistant messages
// ---------------------------------------------------------------------------

/// Assistant message used by the provider event protocol.
#[derive(Debug, PartialEq)]
pub struct AssistantMessage {
    /// Assistant output content.
    pub content: Vec<ContentBlock>,
    /// API implementation identifier.
    pub api: String,
    /// Provider identifier.
    pub provider: String,
    /// Requested model identifier.
    pub model: String,
    /// Concrete response model when the provider returns one.
    pub response_model: Option<String>,
    /// Provider-specific response identifier.
    pub response_id: Option<String>,
    /// Token usage for this message.
    pub usage: Usage,
    /// Terminal stop reason.
    pub stop_reason: StopReason,
    /// Error text for error and aborted stop reasons.
    pub error_message: Option<String>,
    /// Unix timestamp in milliseconds.
    pub timestamp: u64,
}

/// What an assistant message holds.
pub struct AssistantView {
    pub content: Seq<BlockView>,
    pub api: Seq<char>,
    pub provider: Seq<char>,
    pub model: Seq<char>,
    pub response_model: Option<Seq<char>>,
    pub response_id: Option<Seq<char>>,
    pub usage: Usage,
    pub stop_reason: StopReason,
    pub error_message: Option<Seq<char>>,
    pub timestamp: u64,
}

impl DeepView for AssistantMessage {
    type V = AssistantView;

    open spec fn deep_view(&self) -> AssistantView {
        AssistantView {
            content: self.content.deep_view(),
            api: self.api@,
            provider: self.provider@,
            model: self.model@,
            response_model: self.response_model.deep_view(),
            response_id: self.response_id.deep_view(),
            usage: self.usage,
            stop_reason: self.stop_reason,
            error_message: self.error_message.deep_view(),
            timestamp: self.timestamp,
        }
    }
}

impl Clone for AssistantMessage {
    fn clone(&self) -> (r: Self)
        ensures
            r.deep_view() == self.deep_view(),
    {
        let content: Vec<ContentBlock> = self.content.clone();
        assert(content.deep_view() =~= self.content.deep_view());
        AssistantMessage {
            content,
            api: self.api.clone(),
            provider: self.provider.clone(),
            model: self.model.clone(),
            response_model: clone_optional_text(&self.response_model),
            response_id: clone_optional_text(&self.response_id),
            usage: self.usage,
            stop_reason: self.stop_reason,
            error_message: clone_optional_text(&self.error_message),
            timestamp: self.timestamp,
        }
    }
}

/// Event protocol for assistant message streams.
#[derive(Debug, PartialEq)]
#[allow(inconsistent_fields)]
pub enum AssistantMessageEvent {
    /// Stream started with an initial partial message.
    Start {
        /// Current partial message.
        partial: AssistantMessage,
    },
    /// Text block started.
    TextStart {
        /// Content block index.
        content_index: usize,
        /// Current partial message.
        partial: AssistantMessage,
    },
    /// Text block delta.
    TextDelta {
        /// Content block index.
        content_index: usize,
        /// Delta text.
        delta: String,
        /// Current partial message.
        partial: AssistantMessage,
    },
    /// Text block completed.
    TextEnd {
        /// Content block index.
        content_index: usize,
        /// Final text content.
        content: String,
        /// Current partial message.
        partial: AssistantMessage,
    },
    /// Thinking block started.
    ThinkingStart {
        /// Content block index.
        content_index: usize,
        /// Current partial message.
        partial: AssistantMessage,
    },
    /// Thinking block delta.
    ThinkingDelta {
        /// Content block index.
        content_index: usize,
        /// Delta text.
        delta: String,
        /// Current partial message.
        partial: AssistantMessage,
    },
    /// Thinking block completed.
    ThinkingEnd {
        /// Content block index.
        content_index: usize,
        /// Final thinking content.
        content: String,
        /// Current partial message.
        partial: AssistantMessage,
    },
    /// Tool call block started.
    ToolCallStart {
        /// Content block index.
        content_index: usize,
        /// Current partial message.
        partial: AssistantMessage,
    },
    /// Tool call argument delta.
    ToolCallDelta {
        /// Content block index.
        content_index: usize,
        /// Delta JSON fragment.
        delta: String,
        /// Current partial message.
        partial: AssistantMessage,
    },
    /// Tool call block completed.
    ToolCallEnd {
        /// Content block index.
        content_index: usize,
        /// Completed tool call.
        tool_call: ToolCall,
        /// Current partial message.
        partial: AssistantMessage,
    },
    /// Successful terminal event.
    Done {
        /// Successful terminal reason.
        reason: StopReason,
        /// Final assistant message.
        message: AssistantMessage,
    },
    /// Error terminal event.
    Error {
        /// Error terminal reason.
        reason: StopReason,
        /// Final error message.
        error: AssistantMessage,
    },
}

} // verus!
