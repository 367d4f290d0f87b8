//! OpenAI-compatible API provider.
//!
//! Works with OpenAI and OpenAI-compatible APIs (Azure OpenAI, Ollama, vLLM,
//! etc.).
//!
//! Supports:
//! - Chat completions (streaming and non-streaming)
//! - Function/tool calling
//! - Vision (image content blocks)

use vstd::prelude::*;

use crate::error::{ErrorView, PiError, ProviderError, ProviderErrorView};
use crate::http::{headers_view, invalid_key, invalid_key_error, is_header_text, is_header_value};
use crate::json::{
    json_view, lemma_array_view, lemma_lookup_set, lemma_lookup_set_other, lemma_object_view,
    lookup, set_member, text_of, with_member, Json, JsonNumber, JsonNumberView, JsonView, Members,
};
use crate::message_normalization::{normalize_messages_with_input, normalized_messages, KeepIds};
use crate::streaming::SseEvent;
use crate::text::{
    ascii_lower, ascii_lower_text, clone_optional_text, contains, contains_text, ends_with,
    ends_with_text, same_text, trim_end_char, trimmed, without_trailing,
};
use crate::traits::{ChunkView, DeltaView, StreamChunk, ToolCallDelta};
use crate::types::{
    AgentConfig, BlockView, ChatResponse, CompatFlags, ContentBlock, ContentView, FinishReason,
    FunctionCall, Message, MessageContent, MessageView, ModelInputKind, OpenAiCompat,
    OpenAiCompatView, ProviderCapabilities, ProviderMetadata, Role, ThinkingFormat, ToolCall,
    ToolCallView, ToolDefinition, ToolDefinitionView, Usage,
};

verus! {

broadcast use {lemma_array_view, lemma_object_view};

/// The base URL of the official API.
pub const DEFAULT_BASE_URL: &'static str = "https://api.openai.com";

// ---------------------------------------------------------------------------
// Provider
// ---------------------------------------------------------------------------

/// An OpenAI-compatible chat completion provider.
///
/// Works with the OpenAI API directly as well as any service that has the same
/// wire format (Azure OpenAI, Ollama `/v1/chat/completions`, vLLM, etc.).
pub struct OpenAiProvider {
    /// The key for the API; empty where the service takes none.
    pub api_key: String,
    /// The base URL of the API.
    pub base_url: String,
    /// What the service takes.
    pub compat: OpenAiCompat,
}

/// The form in which a service takes a request for reasoning, by its URL in lower
/// case.
pub open spec fn thinking_format_for(url: Seq<char>) -> ThinkingFormat {
    if contains(url, "deepseek.com"@) {
        ThinkingFormat::DeepSeek
    } else if contains(url, "openrouter.ai"@) {
        ThinkingFormat::OpenRouter
    } else if is_together(url) {
        ThinkingFormat::Together
    } else if contains(url, "api.z.ai"@) {
        ThinkingFormat::Zai
    } else if contains(url, "qwen"@) || contains(url, "dashscope"@) {
        ThinkingFormat::Qwen
    } else if is_official(url) {
        ThinkingFormat::OpenAi
    } else {
        ThinkingFormat::Unsupported
    }
}

/// The service is Together AI.
pub open spec fn is_together(url: Seq<char>) -> bool {
    contains(url, "api.together.ai"@) || contains(url, "api.together.xyz"@)
}

/// The service is OpenAI's own.
pub open spec fn is_official(url: Seq<char>) -> bool {
    contains(url, "api.openai.com"@) || contains(url, "openai.azure.com"@)
}

/// The service departs from OpenAI's own API.
pub open spec fn is_non_standard(url: Seq<char>) -> bool {
    ||| contains(url, "cerebras.ai"@)
    ||| contains(url, "api.x.ai"@)
    ||| is_together(url)
    ||| contains(url, "chutes.ai"@)
    ||| contains(url, "deepseek.com"@)
    ||| contains(url, "api.z.ai"@)
    ||| contains(url, "api.moonshot."@)
    ||| contains(url, "opencode.ai"@)
    ||| contains(url, "api.cloudflare.com"@)
    ||| contains(url, "gateway.ai.cloudflare.com"@)
}

/// The flags of an OpenAI-compatible API, by its base URL.
pub open spec fn openai_compat(base_url: Seq<char>) -> OpenAiCompatView {
    let url = ascii_lower(base_url);
    let moonshot = contains(url, "api.moonshot."@);
    let gateway = contains(url, "gateway.ai.cloudflare.com"@);
    OpenAiCompatView {
        supports_store: Some(!is_non_standard(url)),
        supports_developer_role: Some(!is_non_standard(url)),
        supports_reasoning_effort: Some(
            !contains(url, "api.x.ai"@) && !contains(url, "api.z.ai"@) && !moonshot
                && !is_together(url) && !gateway,
        ),
        supports_usage_in_streaming: Some(is_official(url)),
        max_tokens_field: Some(
            if contains(url, "chutes.ai"@) || moonshot || gateway || is_together(url) {
                "max_tokens"@
            } else {
                "max_completion_tokens"@
            },
        ),
        requires_tool_result_name: Some(false),
        requires_assistant_after_tool_result: Some(false),
        requires_thinking_as_text: Some(false),
        thinking_format: Some(thinking_format_for(url)),
        supports_strict_mode: Some(!moonshot && !is_together(url) && !gateway),
        supports_long_cache_retention: Some(
            !(is_together(url) || contains(url, "api.cloudflare.com"@) || gateway),
        ),
    }
}

/// Detect the flags of an OpenAI-compatible API by its base URL.
pub fn detect_openai_compat(base_url: &str) -> (r: OpenAiCompat)
    ensures
        r.deep_view() == openai_compat(base_url@),
{
    let url: String = ascii_lower_text(base_url);
    let zai: bool = contains_text(&url, "api.z.ai");
    let together: bool = contains_text(&url, "api.together.ai") || contains_text(
        &url,
        "api.together.xyz",
    );
    let moonshot: bool = contains_text(&url, "api.moonshot.");
    let workers: bool = contains_text(&url, "api.cloudflare.com");
    let gateway: bool = contains_text(&url, "gateway.ai.cloudflare.com");
    let grok: bool = contains_text(&url, "api.x.ai");
    let deepseek: bool = contains_text(&url, "deepseek.com");
    let chutes: bool = contains_text(&url, "chutes.ai");
    let official: bool = contains_text(&url, "api.openai.com") || contains_text(
        &url,
        "openai.azure.com",
    );
    let non_standard: bool = contains_text(&url, "cerebras.ai") || grok || together || chutes
        || deepseek || zai || moonshot || contains_text(&url, "opencode.ai") || workers || gateway;
    let thinking_format: ThinkingFormat = if deepseek {
        ThinkingFormat::DeepSeek
    } else if contains_text(&url, "openrouter.ai") {
        ThinkingFormat::OpenRouter
    } else if together {
        ThinkingFormat::Together
    } else if zai {
        ThinkingFormat::Zai
    } else if contains_text(&url, "qwen") || contains_text(&url, "dashscope") {
        ThinkingFormat::Qwen
    } else if official {
        ThinkingFormat::OpenAi
    } else {
        ThinkingFormat::Unsupported
    };
    let max_tokens_field: &str = if chutes || moonshot || gateway || together {
        "max_tokens"
    } else {
        "max_completion_tokens"
    };
    OpenAiCompat {
        supports_store: Some(!non_standard),
        supports_developer_role: Some(!non_standard),
        supports_reasoning_effort: Some(!grok && !zai && !moonshot && !together && !gateway),
        supports_usage_in_streaming: Some(official),
        max_tokens_field: Some(max_tokens_field.to_owned()),
        requires_tool_result_name: Some(false),
        requires_assistant_after_tool_result: Some(false),
        requires_thinking_as_text: Some(false),
        thinking_format: Some(thinking_format),
        supports_strict_mode: Some(!moonshot && !together && !gateway),
        supports_long_cache_retention: Some(!(together || workers || gateway)),
    }
}

/// The URL that requests for a base URL go to.
pub open spec fn completions_address(base_url: Seq<char>) -> Seq<char> {
    if ends_with(base_url, "/v1"@) {
        base_url + "/chat/completions"@
    } else {
        base_url + "/v1/chat/completions"@
    }
}

impl OpenAiProvider {
    /// Create a new provider for the official OpenAI API.
    pub fn new(api_key: &str) -> (r: Self)
        ensures
            r.api_key@ == api_key@,
            r.base_url@ == DEFAULT_BASE_URL@,
            r.compat.deep_view() == openai_compat(DEFAULT_BASE_URL@),
    {
        OpenAiProvider {
            api_key: api_key.to_owned(),
            base_url: DEFAULT_BASE_URL.to_owned(),
            compat: detect_openai_compat(DEFAULT_BASE_URL),
        }
    }

    /// Create a provider pointing at a custom base URL (Azure, Ollama, etc.).
    ///
    /// `api_key` may be `None` for services that don't require authentication.
    pub fn with_base_url(base_url: &str, api_key: Option<&str>) -> (r: Self)
        ensures
            r.api_key@ == match api_key {
                Some(key) => key@,
                None => seq![],
            },
            r.base_url@ == without_trailing(base_url@, '/'),
            r.compat.deep_view() == openai_compat(without_trailing(base_url@, '/')),
    {
        let base_url: String = trim_end_char(base_url, '/');
        let compat: OpenAiCompat = detect_openai_compat(&base_url);
        OpenAiProvider {
            api_key: match api_key {
                Some(key) => key.to_owned(),
                None => String::new(),
            },
            base_url,
            compat,
        }
    }

    /// The provider's identifier.
    pub fn id(&self) -> (r: &str)
        ensures
            r@ == "openai"@,
    {
        "openai"
    }

    /// The URL that requests go to. The base URL may end with the version of the API
    /// or leave it out.
    pub fn completions_url(&self) -> (r: String)
        ensures
            r@ == completions_address(self.base_url@),
    {
        let mut r: String = self.base_url.clone();
        if ends_with_text(&self.base_url, "/v1") {
            r.push_str("/chat/completions");
        } else {
            r.push_str("/v1/chat/completions");
        }
        r
    }

    /// The headers of a request: without a key, it is sent without one. Fails on a
    /// key that no header can hold.
    pub fn build_headers(&self) -> (r: Result<Vec<(String, String)>, PiError>)
        ensures
            headers_view(r) == if self.api_key@.len() == 0 {
                Ok(seq![("content-type"@, "application/json"@)])
            } else if is_header_text(self.api_key@) {
                Ok(
                    seq![
                        ("content-type"@, "application/json"@),
                        ("authorization"@, "Bearer "@ + self.api_key@),
                    ],
                )
            } else {
                Err(invalid_key_error())
            },
    {
        let mut headers: Vec<(String, String)> = Vec::new();
        headers.push(("content-type".to_owned(), "application/json".to_owned()));
        if self.api_key.as_str().is_empty() {
            assert(headers.deep_view() =~= seq![("content-type"@, "application/json"@)]);
            return Ok(headers);
        }
        let mut value: String = "Bearer ".to_owned();
        value.push_str(&self.api_key);
        proof {
            lemma_bearer_is_header_text(self.api_key@);
        }
        if !is_header_value(&value) {
            return Err(invalid_key());
        }
        headers.push(("authorization".to_owned(), value));
        assert(headers.deep_view() =~= seq![
            ("content-type"@, "application/json"@),
            ("authorization"@, "Bearer "@ + self.api_key@),
        ]);
        Ok(headers)
    }

    /// What the provider is and can do.
    pub fn metadata(&self) -> (r: ProviderMetadata)
        ensures
            r.id@ == "openai"@,
            r.name@ == "OpenAI"@,
            r.supported_apis.deep_view() == seq!["openai-completions"@],
            r.capabilities == (ProviderCapabilities {
                vision: true,
                function_calling: true,
                json_mode: true,
                streaming: true,
                thinking: true,
            }),
            r.compat.openai.deep_view() == Some(openai_compat(self.base_url@)),
            r.compat.anthropic is None,
            r.compat.google is None,
    {
        let mut apis: Vec<String> = Vec::new();
        apis.push("openai-completions".to_owned());
        assert(apis.deep_view() =~= seq!["openai-completions"@]);
        ProviderMetadata {
            id: "openai".to_owned(),
            name: "OpenAI".to_owned(),
            supported_apis: apis,
            capabilities: ProviderCapabilities {
                vision: true,
                function_calling: true,
                json_mode: true,
                streaming: true,
                thinking: true,
            },
            compat: CompatFlags {
                openai: Some(detect_openai_compat(&self.base_url)),
                anthropic: None,
                google: None,
            },
        }
    }
}

proof fn lemma_bearer_is_header_text(key: Seq<char>)
    ensures
        is_header_text("Bearer "@ + key) == is_header_text(key),
{
    reveal_strlit("Bearer ");
    let value = "Bearer "@ + key;
    if is_header_text(value) {
        assert forall|i: int| 0 <= i < key.len() implies crate::http::is_header_char(
            #[trigger] key[i],
        ) by {
            assert(value[7 + i] == key[i]);
        }
    }
    if is_header_text(key) {
        assert forall|i: int| 0 <= i < value.len() implies crate::http::is_header_char(
            #[trigger] value[i],
        ) by {
            if i >= 7 {
                assert(value[i] == key[i - 7]);
            }
        }
    }
}

// ---------------------------------------------------------------------------
// Requests
// ---------------------------------------------------------------------------

/// Members with one more, where there is one.
pub open spec fn with_optional(
    members: Members,
    name: Seq<char>,
    value: Option<JsonView>,
) -> Members {
    match value {
        Some(value) => with_member(members, name, value),
        None => members,
    }
}

/// An object with one member.
pub open spec fn single(name: Seq<char>, value: JsonView) -> JsonView {
    JsonView::Object(with_member(seq![], name, value))
}

/// An object with two members.
pub open spec fn double(
    first: Seq<char>,
    first_value: JsonView,
    second: Seq<char>,
    second_value: JsonView,
) -> JsonView {
    JsonView::Object(with_member(with_member(seq![], first, first_value), second, second_value))
}

fn set_optional(entries: &mut Vec<(String, Json)>, name: &str, value: Option<Json>)
    ensures
        final(entries).deep_view() == with_optional(
            old(entries).deep_view(),
            name@,
            value.deep_view(),
        ),
{
    if let Some(value) = value {
        set_member(entries, name.to_owned(), value);
    }
}

fn single_object(name: &str, value: Json) -> (r: Json)
    ensures
        json_view(r) == single(name@, json_view(value)),
{
    let mut entries: Vec<(String, Json)> = Vec::new();
    assert(entries.deep_view() =~= seq![]);
    set_member(&mut entries, name.to_owned(), value);
    Json::Object(entries)
}

fn double_object(first: &str, first_value: Json, second: &str, second_value: Json) -> (r: Json)
    ensures
        json_view(r) == double(
            first@,
            json_view(first_value),
            second@,
            json_view(second_value),
        ),
{
    let mut entries: Vec<(String, Json)> = Vec::new();
    assert(entries.deep_view() =~= seq![]);
    set_member(&mut entries, first.to_owned(), first_value);
    set_member(&mut entries, second.to_owned(), second_value);
    Json::Object(entries)
}

/// The part of a message for a content block. Tool uses and results have their
/// place elsewhere in a message.
pub open spec fn openai_part(block: BlockView) -> Option<JsonView> {
    match block {
        BlockView::Text { text } => Some(
            double("type"@, JsonView::Text("text"@), "text"@, JsonView::Text(text)),
        ),
        BlockView::Thinking { thinking, .. } => Some(
            double(
                "type"@,
                JsonView::Text("text"@),
                "text"@,
                JsonView::Text("<thinking>"@ + thinking + "</thinking>"@),
            ),
        ),
        BlockView::Image { media_type, data } => Some(
            double(
                "type"@,
                JsonView::Text("image_url"@),
                "image_url"@,
                single("url"@, JsonView::Text("data:"@ + media_type + ";base64,"@ + data)),
            ),
        ),
        BlockView::ToolUse { .. } => None,
        BlockView::ToolResult { .. } => None,
    }
}

/// The parts of a message for content blocks.
pub open spec fn openai_parts(blocks: Seq<BlockView>) -> Seq<JsonView>
    decreases blocks.len(),
{
    if blocks.len() == 0 {
        seq![]
    } else {
        let front = openai_parts(blocks.drop_last());
        match openai_part(blocks.last()) {
            Some(part) => front.push(part),
            None => front,
        }
    }
}

/// The content of a message, where it has any.
pub open spec fn openai_content(content: Option<ContentView>) -> Option<JsonView> {
    match content {
        None => None,
        Some(ContentView::Text(text)) => Some(JsonView::Text(text)),
        Some(ContentView::Blocks(blocks)) => if openai_parts(blocks).len() == 0 {
            None
        } else {
            Some(JsonView::Array(openai_parts(blocks)))
        },
    }
}

fn block_part(block: &ContentBlock) -> (r: Option<Json>)
    ensures
        r.deep_view() == openai_part(block.deep_view()),
{
    match block {
        ContentBlock::Text { text } => Some(
            double_object(
                "type",
                Json::Text("text".to_owned()),
                "text",
                Json::Text(text.clone()),
            ),
        ),
        ContentBlock::Thinking { thinking, .. } => {
            let mut text: String = "<thinking>".to_owned();
            text.push_str(thinking);
            text.push_str("</thinking>");
            Some(double_object("type", Json::Text("text".to_owned()), "text", Json::Text(text)))
        },
        ContentBlock::Image { media_type, data } => {
            let mut url: String = "data:".to_owned();
            url.push_str(media_type);
            url.push_str(";base64,");
            url.push_str(data);
            Some(
                double_object(
                    "type",
                    Json::Text("image_url".to_owned()),
                    "image_url",
                    single_object("url", Json::Text(url)),
                ),
            )
        },
        ContentBlock::ToolUse { .. } => None,
        ContentBlock::ToolResult { .. } => None,
    }
}

/// Convert [`MessageContent`] to an OpenAI-compatible JSON value.
pub fn content_to_openai_json(content: &Option<MessageContent>) -> (r: Option<Json>)
    ensures
        r.deep_view() == openai_content(content.deep_view()),
{
    match content {
        None => None,
        Some(MessageContent::Text(text)) => Some(Json::Text(text.clone())),
        Some(MessageContent::Blocks(blocks)) => {
            let ghost all = blocks.deep_view();
            let mut parts: Vec<Json> = Vec::new();
            let mut i: usize = 0;
            assert(all.take(0) =~= seq![]);
            assert(parts.deep_view() =~= seq![]);
            while i < blocks.len()
                invariant
                    all == blocks.deep_view(),
                    i <= blocks@.len(),
                    parts.deep_view() == openai_parts(all.take(i as int)),
                decreases blocks@.len() - i,
            {
                assert(all.take(i + 1).drop_last() =~= all.take(i as int));
                assert(all.take(i + 1).last() == blocks@[i as int].deep_view());
                let ghost before = parts.deep_view();
                if let Some(part) = block_part(&blocks[i]) {
                    let ghost v = json_view(part);
                    parts.push(part);
                    assert(parts.deep_view() =~= before.push(v));
                }
                i = i + 1;
            }
            assert(all.take(all.len() as int) =~= all);
            if parts.len() == 0 {
                None
            } else {
                Some(Json::Array(parts))
            }
        },
    }
}

/// How a request names who speaks.
pub open spec fn role_text(role: Role) -> Seq<char> {
    match role {
        Role::System => "system"@,
        Role::User => "user"@,
        Role::Assistant => "assistant"@,
        Role::Tool => "tool"@,
    }
}

/// A tool call of a message.
pub open spec fn openai_call(call: ToolCallView) -> JsonView {
    JsonView::Object(
        with_member(
            with_member(
                with_member(seq![], "id"@, JsonView::Text(call.id)),
                "type"@,
                JsonView::Text("function"@),
            ),
            "function"@,
            double(
                "name"@,
                JsonView::Text(call.name),
                "arguments"@,
                JsonView::Text(call.arguments),
            ),
        ),
    )
}

/// The tool calls of a message.
pub open spec fn openai_calls(calls: Option<Seq<ToolCallView>>) -> Option<JsonView> {
    match calls {
        Some(calls) => Some(
            JsonView::Array(calls.map_values(|call: ToolCallView| openai_call(call))),
        ),
        None => None,
    }
}

/// A message of a request.
pub open spec fn openai_message(m: MessageView) -> JsonView {
    JsonView::Object(
        with_optional(
            with_optional(
                with_optional(
                    with_member(seq![], "role"@, JsonView::Text(role_text(m.role))),
                    "content"@,
                    openai_content(m.content),
                ),
                "tool_calls"@,
                openai_calls(m.tool_calls),
            ),
            "tool_call_id"@,
            match m.tool_call_id {
                Some(id) => Some(JsonView::Text(id)),
                None => None,
            },
        ),
    )
}

/// The messages of a request.
pub open spec fn openai_messages(messages: Seq<MessageView>) -> Seq<JsonView> {
    messages.map_values(|m: MessageView| openai_message(m))
}

fn call_object(call: &ToolCall) -> (r: Json)
    ensures
        json_view(r) == openai_call(call.deep_view()),
{
    let mut entries: Vec<(String, Json)> = Vec::new();
    assert(entries.deep_view() =~= seq![]);
    set_member(&mut entries, "id".to_owned(), Json::Text(call.id.clone()));
    set_member(&mut entries, "type".to_owned(), Json::Text("function".to_owned()));
    set_member(
        &mut entries,
        "function".to_owned(),
        double_object(
            "name",
            Json::Text(call.function.name.clone()),
            "arguments",
            Json::Text(call.function.arguments.clone()),
        ),
    );
    Json::Object(entries)
}

fn message_object(msg: &Message) -> (r: Json)
    ensures
        json_view(r) == openai_message(msg.deep_view()),
{
    let role: &str = match msg.role {
        Role::System => "system",
        Role::User => "user",
        Role::Assistant => "assistant",
        Role::Tool => "tool",
    };
    let calls: Option<Json> = match &msg.tool_calls {
        Some(calls) => {
            let ghost objects = calls.deep_view().map_values(
                |call: ToolCallView| openai_call(call),
            );
            let mut list: Vec<Json> = Vec::new();
            let mut i: usize = 0;
            assert(list.deep_view() =~= objects.take(0));
            while i < calls.len()
                invariant
                    objects == calls.deep_view().map_values(
                        |call: ToolCallView| openai_call(call),
                    ),
                    i <= calls@.len(),
                    list.deep_view() == objects.take(i as int),
                decreases calls@.len() - i,
            {
                let ghost before = list.deep_view();
                let object: Json = call_object(&calls[i]);
                assert(json_view(object) == objects[i as int]);
                list.push(object);
                assert(list.deep_view() =~= before.push(objects[i as int]));
                i = i + 1;
                assert(list.deep_view() =~= objects.take(i as int));
            }
            assert(objects.take(objects.len() as int) =~= objects);
            Some(Json::Array(list))
        },
        None => None,
    };
    let call_id: Option<Json> = match &msg.tool_call_id {
        Some(id) => Some(Json::Text(id.clone())),
        None => None,
    };
    let mut entries: Vec<(String, Json)> = Vec::new();
    assert(entries.deep_view() =~= seq![]);
    set_member(&mut entries, "role".to_owned(), Json::Text(role.to_owned()));
    set_optional(&mut entries, "content", content_to_openai_json(&msg.content));
    set_optional(&mut entries, "tool_calls", calls);
    set_optional(&mut entries, "tool_call_id", call_id);
    Json::Object(entries)
}

/// Convert [`Message`]s to OpenAI message format.
pub fn to_openai_messages(messages: &Vec<Message>) -> (r: Vec<Json>)
    ensures
        r.deep_view() == openai_messages(messages.deep_view()),
{
    let ghost objects = openai_messages(messages.deep_view());
    let mut r: Vec<Json> = Vec::new();
    let mut i: usize = 0;
    assert(r.deep_view() =~= objects.take(0));
    while i < messages.len()
        invariant
            objects == openai_messages(messages.deep_view()),
            i <= messages@.len(),
            r.deep_view() == objects.take(i as int),
        decreases messages@.len() - i,
    {
        let ghost before = r.deep_view();
        let object: Json = message_object(&messages[i]);
        assert(json_view(object) == objects[i as int]);
        r.push(object);
        assert(r.deep_view() =~= before.push(objects[i as int]));
        i = i + 1;
        assert(r.deep_view() =~= objects.take(i as int));
    }
    assert(objects.take(objects.len() as int) =~= objects);
    r
}

/// A tool of a request.
pub open spec fn openai_tool(tool: ToolDefinitionView) -> JsonView {
    double(
        "type"@,
        JsonView::Text("function"@),
        "function"@,
        JsonView::Object(
            with_member(
                with_member(
                    with_member(seq![], "name"@, JsonView::Text(tool.name)),
                    "description"@,
                    JsonView::Text(tool.description),
                ),
                "parameters"@,
                tool.parameters,
            ),
        ),
    )
}

/// The tools of a request, where there are any.
pub open spec fn openai_tools(tools: Seq<ToolDefinitionView>) -> Option<JsonView> {
    if tools.len() == 0 {
        None
    } else {
        Some(JsonView::Array(tools.map_values(|tool: ToolDefinitionView| openai_tool(tool))))
    }
}

fn tool_object(tool: &ToolDefinition) -> (r: Json)
    ensures
        json_view(r) == openai_tool(tool.deep_view()),
{
    let mut entries: Vec<(String, Json)> = Vec::new();
    assert(entries.deep_view() =~= seq![]);
    set_member(&mut entries, "name".to_owned(), Json::Text(tool.name.clone()));
    set_member(&mut entries, "description".to_owned(), Json::Text(tool.description.clone()));
    set_member(&mut entries, "parameters".to_owned(), tool.parameters.clone());
    double_object("type", Json::Text("function".to_owned()), "function", Json::Object(entries))
}

fn tool_objects(tools: &Vec<ToolDefinition>) -> (r: Option<Json>)
    ensures
        r.deep_view() == openai_tools(tools.deep_view()),
{
    if tools.len() == 0 {
        return None;
    }
    let ghost objects = tools.deep_view().map_values(
        |tool: ToolDefinitionView| openai_tool(tool),
    );
    let mut list: Vec<Json> = Vec::new();
    let mut i: usize = 0;
    assert(list.deep_view() =~= objects.take(0));
    while i < tools.len()
        invariant
            objects == tools.deep_view().map_values(
                |tool: ToolDefinitionView| openai_tool(tool),
            ),
            i <= tools@.len(),
            list.deep_view() == objects.take(i as int),
        decreases tools@.len() - i,
    {
        let ghost before = list.deep_view();
        let object: Json = tool_object(&tools[i]);
        assert(json_view(object) == objects[i as int]);
        list.push(object);
        assert(list.deep_view() =~= before.push(objects[i as int]));
        i = i + 1;
        assert(list.deep_view() =~= objects.take(i as int));
    }
    assert(objects.take(objects.len() as int) =~= objects);
    Some(Json::Array(list))
}

/// The member by which a request asks for reasoning, in the form that the service
/// takes.
pub open spec fn thinking_member(format: Option<ThinkingFormat>) -> Option<
    (Seq<char>, JsonView),
> {
    match format {
        None => None,
        Some(ThinkingFormat::OpenAi) => Some(
            ("reasoning_effort"@, JsonView::Text("medium"@)),
        ),
        Some(ThinkingFormat::OpenRouter) => Some(
            ("reasoning"@, single("effort"@, JsonView::Text("medium"@))),
        ),
        Some(ThinkingFormat::DeepSeek) => Some(
            ("thinking"@, single("type"@, JsonView::Text("enabled"@))),
        ),
        Some(ThinkingFormat::Together) => Some(
            ("reasoning"@, single("enabled"@, JsonView::Bool(true))),
        ),
        Some(ThinkingFormat::Zai) | Some(ThinkingFormat::Qwen) => Some(
            ("enable_thinking"@, JsonView::Bool(true)),
        ),
        Some(ThinkingFormat::QwenChatTemplate) => Some(
            ("chat_template_kwargs"@, single("enable_thinking"@, JsonView::Bool(true))),
        ),
        Some(ThinkingFormat::Unsupported) => None,
    }
}

/// The members of a request without those that differ between services.
pub open spec fn common_members(
    model: Seq<char>,
    conversation: Seq<MessageView>,
    tools: Seq<ToolDefinitionView>,
    temperature: Option<JsonView>,
    stream: bool,
) -> Members {
    with_optional(
        with_optional(
            with_optional(
                with_member(
                    with_member(
                        with_member(seq![], "model"@, JsonView::Text(model)),
                        "messages"@,
                        JsonView::Array(openai_messages(conversation)),
                    ),
                    "stream"@,
                    JsonView::Bool(stream),
                ),
                "tools"@,
                openai_tools(tools),
            ),
            "temperature"@,
            temperature,
        ),
        "stream_options"@,
        if stream {
            Some(single("include_usage"@, JsonView::Bool(true)))
        } else {
            None
        },
    )
}

/// The name by which a service takes the limit on tokens.
pub open spec fn tokens_field(compat: OpenAiCompatView) -> Seq<char> {
    match compat.max_tokens_field {
        Some(name) => name,
        None => "max_tokens"@,
    }
}

/// The members of a request.
pub open spec fn request_members(
    common: Members,
    max_tokens: Option<u32>,
    compat: OpenAiCompatView,
) -> Members {
    let limited = match max_tokens {
        Some(n) => with_member(
            common,
            tokens_field(compat),
            JsonView::Number(JsonNumberView::Unsigned(n as u64)),
        ),
        None => common,
    };
    match thinking_member(compat.thinking_format) {
        Some((name, value)) => with_member(limited, name, value),
        None => limited,
    }
}

/// The messages that a request is made of.
pub open spec fn openai_conversation(messages: Seq<MessageView>) -> Seq<MessageView> {
    normalized_messages(
        messages,
        seq![ModelInputKind::Text, ModelInputKind::Image],
        None::<KeepIds>,
        false,
    )
}

/// Build the body of a request.
pub fn build_request(
    model: &str,
    messages: &Vec<Message>,
    tools: &Vec<ToolDefinition>,
    config: &AgentConfig,
    stream: bool,
    compat: &OpenAiCompat,
) -> (r: Json)
    ensures
        json_view(r) == JsonView::Object(
            request_members(
                common_members(
                    model@,
                    openai_conversation(messages.deep_view()),
                    tools.deep_view(),
                    config.temperature.deep_view(),
                    stream,
                ),
                config.max_tokens,
                compat.deep_view(),
            ),
        ),
{
    let mut input: Vec<ModelInputKind> = Vec::new();
    input.push(ModelInputKind::Text);
    input.push(ModelInputKind::Image);
    assert(input@ =~= seq![ModelInputKind::Text, ModelInputKind::Image]);
    let normalized: Vec<Message> = normalize_messages_with_input(
        messages,
        &input,
        None::<&KeepIds>,
        false,
    );
    let temperature: Option<Json> = match &config.temperature {
        Some(t) => Some(t.clone()),
        None => None,
    };
    let mut entries: Vec<(String, Json)> = Vec::new();
    assert(entries.deep_view() =~= seq![]);
    set_member(&mut entries, "model".to_owned(), Json::Text(model.to_owned()));
    set_member(&mut entries, "messages".to_owned(), Json::Array(to_openai_messages(&normalized)));
    set_member(&mut entries, "stream".to_owned(), Json::Bool(stream));
    set_optional(&mut entries, "tools", tool_objects(tools));
    set_optional(&mut entries, "temperature", temperature);
    if stream {
        set_member(
            &mut entries,
            "stream_options".to_owned(),
            single_object("include_usage", Json::Bool(true)),
        );
    }
    if let Some(n) = config.max_tokens {
        let name: String = match &compat.max_tokens_field {
            Some(name) => name.clone(),
            None => "max_tokens".to_owned(),
        };
        set_member(&mut entries, name, Json::Number(JsonNumber::Unsigned(n as u64)));
    }
    if let Some(format) = &compat.thinking_format {
        match format {
            ThinkingFormat::OpenAi => {
                set_member(
                    &mut entries,
                    "reasoning_effort".to_owned(),
                    Json::Text("medium".to_owned()),
                );
            },
            ThinkingFormat::OpenRouter => {
                set_member(
                    &mut entries,
                    "reasoning".to_owned(),
                    single_object("effort", Json::Text("medium".to_owned())),
                );
            },
            ThinkingFormat::DeepSeek => {
                set_member(
                    &mut entries,
                    "thinking".to_owned(),
                    single_object("type", Json::Text("enabled".to_owned())),
                );
            },
            ThinkingFormat::Together => {
                set_member(
                    &mut entries,
                    "reasoning".to_owned(),
                    single_object("enabled", Json::Bool(true)),
                );
            },
            ThinkingFormat::Zai | ThinkingFormat::Qwen => {
                set_member(&mut entries, "enable_thinking".to_owned(), Json::Bool(true));
            },
            ThinkingFormat::QwenChatTemplate => {
                set_member(
                    &mut entries,
                    "chat_template_kwargs".to_owned(),
                    single_object("enable_thinking", Json::Bool(true)),
                );
            },
            ThinkingFormat::Unsupported => {},
        }
    }
    Json::Object(entries)
}

proof fn lemma_lookup_optional(
    members: Members,
    name: Seq<char>,
    value: Option<JsonView>,
    other: Seq<char>,
)
    requires
        other != name,
    ensures
        lookup(with_optional(members, name, value), other) == lookup(members, other),
{
    if let Some(value) = value {
        lemma_lookup_set_other(members, name, value, other);
    }
}

/// A request carries the limit on tokens under the name that the service takes,
/// and under no other, unless the request for reasoning has that very name.
pub proof fn law_limit_under_service_name(
    model: Seq<char>,
    conversation: Seq<MessageView>,
    tools: Seq<ToolDefinitionView>,
    temperature: Option<JsonView>,
    stream: bool,
    limit: u32,
    compat: OpenAiCompatView,
)
    requires
        thinking_member(compat.thinking_format) matches Some(member) ==> member.0 != tokens_field(
            compat,
        ),
    ensures
        lookup(
            request_members(
                common_members(model, conversation, tools, temperature, stream),
                Some(limit),
                compat,
            ),
            tokens_field(compat),
        ) == Some(JsonView::Number(JsonNumberView::Unsigned(limit as u64))),
        tokens_field(compat) != "max_tokens"@ ==> lookup(
            request_members(
                common_members(model, conversation, tools, temperature, stream),
                Some(limit),
                compat,
            ),
            "max_tokens"@,
        ) is None,
{
    let common = common_members(model, conversation, tools, temperature, stream);
    let value = JsonView::Number(JsonNumberView::Unsigned(limit as u64));
    let name = tokens_field(compat);
    let old_name = "max_tokens"@;
    lemma_lookup_set(common, name, value);
    reveal_strlit("max_tokens");
    reveal_strlit("reasoning_effort");
    reveal_strlit("reasoning");
    reveal_strlit("thinking");
    reveal_strlit("enable_thinking");
    reveal_strlit("chat_template_kwargs");
    reveal_strlit("model");
    reveal_strlit("messages");
    reveal_strlit("stream");
    reveal_strlit("tools");
    reveal_strlit("temperature");
    reveal_strlit("stream_options");
    let limited = with_member(common, name, value);
    if let Some((member, asked)) = thinking_member(compat.thinking_format) {
        assert(member[0] != 'm');
        lemma_lookup_set_other(limited, member, asked, name);
        lemma_lookup_set_other(limited, member, asked, old_name);
    }
    if name != old_name {
        lemma_lookup_set_other(common, name, value, old_name);
        let m1 = with_member(seq![], "model"@, JsonView::Text(model));
        let m2 = with_member(m1, "messages"@, JsonView::Array(openai_messages(conversation)));
        let m3 = with_member(m2, "stream"@, JsonView::Bool(stream));
        let m4 = with_optional(m3, "tools"@, openai_tools(tools));
        let m5 = with_optional(m4, "temperature"@, temperature);
        let options = if stream {
            Some(single("include_usage"@, JsonView::Bool(true)))
        } else {
            None
        };
        assert("model"@ != old_name && "messages"@ != old_name) by {
            assert("model"@[1] != old_name[1] && "messages"@[1] != old_name[1]);
        }
        assert("stream"@[0] != old_name[0] && "tools"@[0] != old_name[0]);
        assert("temperature"@[0] != old_name[0] && "stream_options"@[0] != old_name[0]);
        lemma_lookup_set_other(seq![], "model"@, JsonView::Text(model), old_name);
        lemma_lookup_set_other(
            m1,
            "messages"@,
            JsonView::Array(openai_messages(conversation)),
            old_name,
        );
        lemma_lookup_set_other(m2, "stream"@, JsonView::Bool(stream), old_name);
        lemma_lookup_optional(m3, "tools"@, openai_tools(tools), old_name);
        lemma_lookup_optional(m4, "temperature"@, temperature, old_name);
        lemma_lookup_optional(m5, "stream_options"@, options, old_name);
    }
}

// ---------------------------------------------------------------------------
// Responses
// ---------------------------------------------------------------------------

/// A whole response.
#[derive(Debug)]
pub struct OpenAiResponse {
    /// Response ID.
    pub id: String,
    /// What the model offers to say.
    pub choices: Vec<OpenAiChoice>,
    /// The tokens that were used.
    pub usage: Option<OpenAiUsage>,
}

/// One choice of a response.
#[derive(Debug)]
pub struct OpenAiChoice {
    /// What the model says.
    pub message: Option<OpenAiMessageResponse>,
    /// Why the model stopped.
    pub finish_reason: Option<String>,
}

/// The message of a choice.
#[derive(Debug)]
pub struct OpenAiMessageResponse {
    /// Who speaks.
    pub role: String,
    /// The text.
    pub content: Option<String>,
    /// The tool calls.
    pub tool_calls: Option<Vec<OpenAiToolCall>>,
}

/// A tool call of a response.
#[derive(Debug)]
pub struct OpenAiToolCall {
    /// Tool call ID.
    pub id: String,
    /// The kind of call: "function".
    pub call_type: String,
    /// The function to call.
    pub function: OpenAiFunctionCall,
}

/// The function of a tool call.
#[derive(Debug)]
pub struct OpenAiFunctionCall {
    /// Name of the function.
    pub name: String,
    /// Its arguments, as a JSON text.
    pub arguments: String,
}

/// Token counts.
#[derive(Debug, Clone, Copy, PartialEq, Eq)]
pub struct OpenAiUsage {
    /// Tokens of the prompt.
    pub prompt_tokens: u32,
    /// Tokens of the response.
    pub completion_tokens: u32,
    /// All tokens.
    pub total_tokens: u32,
}

impl DeepView for OpenAiToolCall {
    type V = ToolCallView;

    open spec fn deep_view(&self) -> ToolCallView {
        ToolCallView {
            id: self.id@,
            name: self.function.name@,
            arguments: self.function.arguments@,
        }
    }
}

/// Why a response ended, by the reason that it gives.
pub open spec fn finish_reason_for(reason: Seq<char>) -> Option<FinishReason> {
    if reason == "stop"@ {
        Some(FinishReason::Stop)
    } else if reason == "length"@ {
        Some(FinishReason::Length)
    } else if reason == "tool_calls"@ || reason == "function_call"@ {
        Some(FinishReason::ToolCalls)
    } else if reason == "content_filter"@ {
        Some(FinishReason::ContentFilter)
    } else {
        None
    }
}

/// Map a finish-reason string to our enum.
pub fn parse_finish_reason(reason: &str) -> (r: Option<FinishReason>)
    ensures
        r == finish_reason_for(reason@),
{
    if same_text(reason, "stop") {
        Some(FinishReason::Stop)
    } else if same_text(reason, "length") {
        Some(FinishReason::Length)
    } else if same_text(reason, "tool_calls") || same_text(reason, "function_call") {
        Some(FinishReason::ToolCalls)
    } else if same_text(reason, "content_filter") {
        Some(FinishReason::ContentFilter)
    } else {
        None
    }
}

/// Why a response ended, where it gives a reason that is known.
pub open spec fn optional_finish_reason(reason: Option<Seq<char>>) -> Option<FinishReason> {
    match reason {
        Some(reason) => finish_reason_for(reason),
        None => None,
    }
}

fn parse_optional_reason(reason: &Option<String>) -> (r: Option<FinishReason>)
    ensures
        r == optional_finish_reason(reason.deep_view()),
{
    match reason {
        Some(reason) => parse_finish_reason(reason),
        None => None,
    }
}

/// The counts of a response.
pub open spec fn counts_for(usage: OpenAiUsage) -> Usage {
    Usage {
        prompt_tokens: usage.prompt_tokens,
        completion_tokens: usage.completion_tokens,
        total_tokens: usage.total_tokens,
    }
}

fn to_usage(usage: OpenAiUsage) -> (r: Usage)
    ensures
        r == counts_for(usage),
{
    Usage {
        prompt_tokens: usage.prompt_tokens,
        completion_tokens: usage.completion_tokens,
        total_tokens: usage.total_tokens,
    }
}

/// The message of a response. An empty text is none.
pub open spec fn response_message(m: OpenAiMessageResponse) -> MessageView {
    MessageView {
        role: Role::Assistant,
        content: match m.content {
            Some(text) => if text@.len() == 0 {
                None
            } else {
                Some(ContentView::Text(text@))
            },
            None => None,
        },
        tool_calls: m.tool_calls.deep_view(),
        tool_call_id: None,
        name: None,
    }
}

/// A response holds what its first choice says.
pub open spec fn is_response_of(r: ChatResponse, resp: OpenAiResponse) -> bool {
    let choice = resp.choices@[0];
    &&& r.message.deep_view() == response_message(choice.message->0)
    &&& r.finish_reason == match optional_finish_reason(choice.finish_reason.deep_view()) {
        Some(reason) => reason,
        None => FinishReason::Stop,
    }
    &&& r.usage == match resp.usage {
        Some(usage) => counts_for(usage),
        None => Usage { prompt_tokens: 0, completion_tokens: 0, total_tokens: 0 },
    }
}

/// The error on a response that lacks something.
pub open spec fn malformed(message: Seq<char>) -> ErrorView {
    ErrorView::Provider(ProviderErrorView::MalformedResponse { message })
}

/// Convert a full (non-streaming) OpenAI response into a [`ChatResponse`].
pub fn parse_full_response(resp: &OpenAiResponse) -> (r: Result<ChatResponse, PiError>)
    ensures
        match r {
            Ok(response) => {
                &&& resp.choices@.len() > 0
                &&& resp.choices@[0].message is Some
                &&& is_response_of(response, *resp)
            },
            Err(e) => if resp.choices@.len() == 0 {
                e.deep_view() == malformed("OpenAI response contained no choices"@)
            } else {
                &&& resp.choices@[0].message is None
                &&& e.deep_view() == malformed("OpenAI choice had no message"@)
            },
        },
{
    if resp.choices.len() == 0 {
        return Err(
            PiError::Provider(
                ProviderError::MalformedResponse {
                    message: "OpenAI response contained no choices".to_owned(),
                },
            ),
        );
    }
    let choice: &OpenAiChoice = &resp.choices[0];
    let message: &OpenAiMessageResponse = match &choice.message {
        Some(message) => message,
        None => {
            return Err(
                PiError::Provider(
                    ProviderError::MalformedResponse {
                        message: "OpenAI choice had no message".to_owned(),
                    },
                ),
            );
        },
    };
    let finish_reason: FinishReason = match parse_optional_reason(&choice.finish_reason) {
        Some(reason) => reason,
        None => FinishReason::Stop,
    };
    let tool_calls: Option<Vec<ToolCall>> = match &message.tool_calls {
        Some(calls) => {
            let ghost all = calls.deep_view();
            let mut list: Vec<ToolCall> = Vec::new();
            let mut i: usize = 0;
            assert(list.deep_view() =~= all.take(0));
            while i < calls.len()
                invariant
                    all == calls.deep_view(),
                    i <= calls@.len(),
                    list.deep_view() == all.take(i as int),
                decreases calls@.len() - i,
            {
                let ghost before = list.deep_view();
                let call: ToolCall = ToolCall {
                    id: calls[i].id.clone(),
                    function: FunctionCall {
                        name: calls[i].function.name.clone(),
                        arguments: calls[i].function.arguments.clone(),
                    },
                };
                assert(call.deep_view() == all[i as int]);
                list.push(call);
                assert(list.deep_view() =~= before.push(all[i as int]));
                i = i + 1;
                assert(list.deep_view() =~= all.take(i as int));
            }
            assert(all.take(all.len() as int) =~= all);
            Some(list)
        },
        None => None,
    };
    let content: Option<MessageContent> = match &message.content {
        Some(text) => if text.as_str().is_empty() {
            None
        } else {
            Some(MessageContent::Text(text.clone()))
        },
        None => None,
    };
    let usage: Usage = match resp.usage {
        Some(usage) => to_usage(usage),
        None => Usage { prompt_tokens: 0, completion_tokens: 0, total_tokens: 0 },
    };
    Ok(
        ChatResponse {
            message: Message {
                role: Role::Assistant,
                content,
                tool_calls,
                tool_call_id: None,
                name: None,
            },
            finish_reason,
            usage,
        },
    )
}

// ---------------------------------------------------------------------------
// Streamed responses
// ---------------------------------------------------------------------------

/// A piece of a streamed response.
#[derive(Debug)]
pub struct OpenAiStreamChunk {
    /// Response ID.
    pub id: String,
    /// What the model offers to say.
    pub choices: Vec<OpenAiStreamChoice>,
    /// The tokens that were used.
    pub usage: Option<OpenAiUsage>,
}

/// One choice of a piece.
#[derive(Debug)]
pub struct OpenAiStreamChoice {
    /// What is added.
    pub delta: Option<OpenAiDelta>,
    /// Why the model stopped.
    pub finish_reason: Option<String>,
}

/// What a piece adds.
#[derive(Debug)]
pub struct OpenAiDelta {
    /// Who speaks.
    pub role: Option<String>,
    /// More text.
    pub content: Option<String>,
    /// More of tool calls.
    pub tool_calls: Option<Vec<OpenAiToolCallDelta>>,
    /// More reasoning, as DeepSeek sends it.
    pub reasoning_content: Option<String>,
    /// More reasoning, as some providers send it.
    pub reasoning: Option<Json>,
    /// More reasoning, as other providers send it.
    pub reasoning_text: Option<String>,
}

/// What a piece adds to a tool call.
#[derive(Debug)]
pub struct OpenAiToolCallDelta {
    /// Index of the tool call.
    pub index: u32,
    /// Tool call ID.
    pub id: Option<String>,
    /// What is added to the function.
    pub function: Option<OpenAiFunctionDelta>,
}

/// What a piece adds to the function of a tool call.
#[derive(Debug)]
pub struct OpenAiFunctionDelta {
    /// Name of the function.
    pub name: Option<String>,
    /// More of its arguments.
    pub arguments: Option<String>,
}

impl DeepView for OpenAiToolCallDelta {
    type V = DeltaView;

    open spec fn deep_view(&self) -> DeltaView {
        DeltaView {
            index: self.index,
            id: self.id.deep_view(),
            name: match self.function {
                Some(function) => function.name.deep_view(),
                None => None,
            },
            arguments_delta: match self.function {
                Some(function) => function.arguments.deep_view(),
                None => None,
            },
        }
    }
}

/// A chunk that adds nothing.
pub open spec fn blank_chunk() -> ChunkView {
    ChunkView { delta: None, tool_calls: seq![], finish_reason: None, usage: None }
}

/// The text that a piece adds: its content, or else its reasoning, in whichever
/// field the provider sends it.
pub open spec fn added_text(d: OpenAiDelta) -> Option<Seq<char>> {
    match (d.content, d.reasoning_content, d.reasoning_text) {
        (Some(text), _, _) => Some(text@),
        (None, Some(text), _) => Some(text@),
        (None, None, Some(text)) => Some(text@),
        (None, None, None) => text_of(d.reasoning.deep_view()),
    }
}

/// The chunk for a piece: what its first choice adds.
pub open spec fn chunk_for(chunk: OpenAiStreamChunk) -> ChunkView {
    if chunk.choices@.len() == 0 {
        blank_chunk()
    } else {
        let choice = chunk.choices@[0];
        ChunkView {
            delta: match choice.delta {
                Some(d) => added_text(d),
                None => None,
            },
            tool_calls: match choice.delta {
                Some(d) => match d.tool_calls {
                    Some(calls) => calls.deep_view(),
                    None => seq![],
                },
                None => seq![],
            },
            finish_reason: optional_finish_reason(choice.finish_reason.deep_view()),
            usage: match chunk.usage {
                Some(usage) => Some(counts_for(usage)),
                None => None,
            },
        }
    }
}

/// The chunk for a piece of a streamed response.
pub fn to_stream_chunk(chunk: &OpenAiStreamChunk) -> (r: StreamChunk)
    ensures
        r.deep_view() == chunk_for(*chunk),
{
    let mut tool_calls: Vec<ToolCallDelta> = Vec::new();
    assert(tool_calls.deep_view() =~= seq![]);
    if chunk.choices.len() == 0 {
        return StreamChunk { delta: None, tool_calls, finish_reason: None, usage: None };
    }
    let choice: &OpenAiStreamChoice = &chunk.choices[0];
    let mut delta: Option<String> = None;
    if let Some(d) = &choice.delta {
        delta =
        match &d.content {
            Some(text) => Some(text.clone()),
            None => match &d.reasoning_content {
                Some(text) => Some(text.clone()),
                None => match &d.reasoning_text {
                    Some(text) => Some(text.clone()),
                    None => match &d.reasoning {
                        Some(Json::Text(text)) => Some(text.clone()),
                        _ => None,
                    },
                },
            },
        };
        if let Some(calls) = &d.tool_calls {
            let ghost all = calls.deep_view();
            let mut i: usize = 0;
            assert(tool_calls.deep_view() =~= all.take(0));
            while i < calls.len()
                invariant
                    all == calls.deep_view(),
                    i <= calls@.len(),
                    tool_calls.deep_view() == all.take(i as int),
                decreases calls@.len() - i,
            {
                let ghost before = tool_calls.deep_view();
                let (name, arguments_delta): (Option<String>, Option<String>) =
                    match &calls[i].function {
                    Some(function) => (
                        clone_optional_text(&function.name),
                        clone_optional_text(&function.arguments),
                    ),
                    None => (None, None),
                };
                let call: ToolCallDelta = ToolCallDelta {
                    index: calls[i].index,
                    id: clone_optional_text(&calls[i].id),
                    name,
                    arguments_delta,
                };
                assert(call.deep_view() == all[i as int]);
                tool_calls.push(call);
                assert(tool_calls.deep_view() =~= before.push(all[i as int]));
                i = i + 1;
                assert(tool_calls.deep_view() =~= all.take(i as int));
            }
            assert(all.take(all.len() as int) =~= all);
        }
    }
    StreamChunk {
        delta,
        tool_calls,
        finish_reason: parse_optional_reason(&choice.finish_reason),
        usage: match chunk.usage {
            Some(usage) => Some(to_usage(usage)),
            None => None,
        },
    }
}

/// What comes next in a stream of events.
#[derive(Debug)]
pub enum OpenAiInput {
    /// An event, with its data read as a piece of a response, or the message of
    /// the error.
    Event {
        /// The event.
        event: SseEvent,
        /// Its data.
        data: Result<OpenAiStreamChunk, String>,
    },
    /// The stream failed.
    Failed {
        /// The message of the error.
        message: String,
    },
}

/// The event says that the response is complete.
pub open spec fn is_done_input(input: OpenAiInput) -> bool {
    match input {
        OpenAiInput::Event { event, .. } => trimmed(event.data@) == "[DONE]"@,
        OpenAiInput::Failed { .. } => false,
    }
}

/// What a part of a stream gives.
pub open spec fn chunk_result(r: Result<StreamChunk, PiError>) -> Result<ChunkView, ErrorView> {
    match r {
        Ok(chunk) => Ok(chunk.deep_view()),
        Err(e) => Err(e.deep_view()),
    }
}

/// An error of the provider.
pub open spec fn stream_error(message: Seq<char>) -> ErrorView {
    ErrorView::Provider(ProviderErrorView::Other { message })
}

/// What the next part of a stream gives. A stream ends with its first error.
pub open spec fn input_chunk(input: OpenAiInput) -> Result<ChunkView, ErrorView> {
    match input {
        OpenAiInput::Failed { message } => Err(stream_error("SSE error: "@ + message@)),
        OpenAiInput::Event { event, data } => if is_done_input(input) {
            Ok(blank_chunk())
        } else {
            match data {
                Ok(chunk) => Ok(chunk_for(chunk)),
                Err(message) => Err(
                    stream_error("Failed to parse stream chunk: "@ + message@),
                ),
            }
        },
    }
}

/// The error at the end of a stream, where it was cut off.
pub open spec fn cut_off_error() -> ErrorView {
    stream_error("OpenAI stream ended before [DONE]"@)
}

/// What a stream gives from here on, where it has or has not said before that the
/// response is complete.
pub open spec fn stream_chunks(inputs: Seq<OpenAiInput>, seen_done: bool) -> Seq<
    Result<ChunkView, ErrorView>,
>
    decreases inputs.len(),
{
    if inputs.len() == 0 {
        if seen_done {
            seq![]
        } else {
            seq![Err(cut_off_error())]
        }
    } else if input_chunk(inputs[0]) is Err {
        seq![input_chunk(inputs[0])]
    } else {
        seq![input_chunk(inputs[0])] + stream_chunks(
            inputs.skip(1),
            seen_done || is_done_input(inputs[0]),
        )
    }
}

/// Take the next part of a stream.
pub fn process_openai_event(input: &OpenAiInput, seen_done: &mut bool) -> (r: Result<
    StreamChunk,
    PiError,
>)
    ensures
        chunk_result(r) == input_chunk(*input),
        *final(seen_done) == (*old(seen_done) || is_done_input(*input)),
{
    match input {
        OpenAiInput::Failed { message } => {
            let mut text: String = "SSE error: ".to_owned();
            text.push_str(message);
            Err(PiError::provider(&text))
        },
        OpenAiInput::Event { event, data } => {
            if event.is_done() {
                *seen_done = true;
                let tool_calls: Vec<ToolCallDelta> = Vec::new();
                assert(tool_calls.deep_view() =~= seq![]);
                return Ok(
                    StreamChunk { delta: None, tool_calls, finish_reason: None, usage: None },
                );
            }
            match data {
                Ok(chunk) => Ok(to_stream_chunk(chunk)),
                Err(message) => {
                    let mut text: String = "Failed to parse stream chunk: ".to_owned();
                    text.push_str(message);
                    Err(PiError::provider(&text))
                },
            }
        },
    }
}

/// The error at the end of a stream that was cut off before its response was
/// complete.
pub fn finish_openai_stream(seen_done: bool) -> (r: Option<PiError>)
    ensures
        r.deep_view() == if seen_done {
            None
        } else {
            Some(cut_off_error())
        },
{
    if seen_done {
        None
    } else {
        Some(PiError::provider("OpenAI stream ended before [DONE]"))
    }
}

/// What a list of results holds.
pub open spec fn chunk_results(list: Seq<Result<StreamChunk, PiError>>) -> Seq<
    Result<ChunkView, ErrorView>,
> {
    list.map_values(|r: Result<StreamChunk, PiError>| chunk_result(r))
}

/// Convert a whole stream of events.
pub fn openai_sse_to_chunks(inputs: &Vec<OpenAiInput>) -> (r: Vec<Result<StreamChunk, PiError>>)
    ensures
        chunk_results(r@) == stream_chunks(inputs@, false),
{
    let mut seen_done: bool = false;
    let mut results: Vec<Result<StreamChunk, PiError>> = Vec::new();
    let ghost whole = stream_chunks(inputs@, false);
    let mut i: usize = 0;
    assert(inputs@.skip(0) =~= inputs@);
    assert(chunk_results(results@) + whole =~= whole);
    while i < inputs.len()
        invariant
            i <= inputs@.len(),
            whole == stream_chunks(inputs@, false),
            chunk_results(results@) + stream_chunks(inputs@.skip(i as int), seen_done) == whole,
        decreases inputs@.len() - i,
    {
        let ghost rest = inputs@.skip(i as int);
        assert(rest[0] == inputs@[i as int]);
        assert(rest.skip(1) =~= inputs@.skip(i + 1));
        let ghost before = results@;
        let result: Result<StreamChunk, PiError> = process_openai_event(
            &inputs[i],
            &mut seen_done,
        );
        let failed: bool = result.is_err();
        results.push(result);
        assert(chunk_results(results@) =~= chunk_results(before) + seq![
            input_chunk(inputs@[i as int]),
        ]);
        if failed {
            return results;
        }
        i = i + 1;
        assert(chunk_results(results@) + stream_chunks(inputs@.skip(i as int), seen_done) =~= whole);
    }
    if let Some(e) = finish_openai_stream(seen_done) {
        let ghost before = results@;
        results.push(Err(e));
        assert(chunk_results(results@) =~= chunk_results(before) + seq![Err(cut_off_error())]);
    } else {
        assert(chunk_results(results@) + Seq::<Result<ChunkView, ErrorView>>::empty()
            =~= chunk_results(results@));
    }
    results
}

/// A stream whose parts can all be read gives one chunk for each of them. It ends
/// with an error, and with no other, if and only if none of them says that the
/// response is complete.
pub proof fn law_stream_needs_its_end(inputs: Seq<OpenAiInput>)
    requires
        forall|i: int| 0 <= i < inputs.len() ==> input_chunk(#[trigger] inputs[i]) is Ok,
    ensures
        (exists|i: int| 0 <= i < inputs.len() && is_done_input(#[trigger] inputs[i])) ==> (
        stream_chunks(inputs, false) == inputs.map_values(|x: OpenAiInput| input_chunk(x))),
        !(exists|i: int| 0 <= i < inputs.len() && is_done_input(#[trigger] inputs[i])) ==> (
        stream_chunks(inputs, false) == inputs.map_values(|x: OpenAiInput| input_chunk(x)).push(
            Err(cut_off_error()),
        )),
{
    lemma_stream_chunks(inputs, false);
}

proof fn lemma_stream_chunks(inputs: Seq<OpenAiInput>, seen_done: bool)
    requires
        forall|i: int| 0 <= i < inputs.len() ==> input_chunk(#[trigger] inputs[i]) is Ok,
    ensures
        (seen_done || exists|i: int|
            0 <= i < inputs.len() && is_done_input(#[trigger] inputs[i])) ==> stream_chunks(
            inputs,
            seen_done,
        ) == inputs.map_values(|x: OpenAiInput| input_chunk(x)),
        !(seen_done || exists|i: int|
            0 <= i < inputs.len() && is_done_input(#[trigger] inputs[i])) ==> stream_chunks(
            inputs,
            seen_done,
        ) == inputs.map_values(|x: OpenAiInput| input_chunk(x)).push(Err(cut_off_error())),
    decreases inputs.len(),
{
    let f = |x: OpenAiInput| input_chunk(x);
    if inputs.len() == 0 {
        assert(inputs.map_values(f) =~= seq![]);
        assert(inputs.map_values(f).push(Err(cut_off_error())) =~= seq![Err(cut_off_error())]);
    } else {
        let rest = inputs.skip(1);
        let seen = seen_done || is_done_input(inputs[0]);
        assert forall|i: int| 0 <= i < rest.len() implies input_chunk(
            #[trigger] rest[i],
        ) is Ok by {
            assert(rest[i] == inputs[i + 1]);
        }
        lemma_stream_chunks(rest, seen);
        let later = exists|i: int| 0 <= i < rest.len() && is_done_input(#[trigger] rest[i]);
        let any = exists|i: int| 0 <= i < inputs.len() && is_done_input(#[trigger] inputs[i]);
        assert((seen_done || any) == (seen || later)) by {
            if later {
                let i = choose|i: int| 0 <= i < rest.len() && is_done_input(#[trigger] rest[i]);
                assert(inputs[i + 1] == rest[i]);
            }
            if any {
                let i = choose|i: int|
                    0 <= i < inputs.len() && is_done_input(#[trigger] inputs[i]);
                if i > 0 {
                    assert(rest[i - 1] == inputs[i]);
                }
            }
        }
        assert(inputs.map_values(f) =~= seq![input_chunk(inputs[0])] + rest.map_values(f));
        assert(inputs.map_values(f).push(Err(cut_off_error())) =~= seq![input_chunk(inputs[0])]
            + rest.map_values(f).push(Err(cut_off_error())));
    }
}

} // verus!
