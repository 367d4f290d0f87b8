//! What holds of requests to OpenAI-compatible services, and of their responses.

use vstd::prelude::*;

use crate::error::ErrorView;
use crate::json::{field, lookup, with_member, JsonNumberView, JsonView, Members};
use crate::json_laws::law_with_member;
use crate::listing::{law_selected, selected};
use crate::message_normalization::KeepIds;
use crate::openai::{
    added_text, chunk_for, common_members, cut_off_error, double, finish_reason_for, input_chunk,
    is_done_input, is_response_of, openai_call, openai_calls, openai_content, openai_conversation, openai_message,
    openai_messages, openai_part, openai_parts, openai_tool, openai_tools, request_members,
    response_message, single, stream_chunks, thinking_member, tokens_field, with_optional,
    OpenAiDelta, OpenAiInput, OpenAiMessageResponse, OpenAiResponse, OpenAiStreamChunk,
};
use crate::renaming_laws::{all_adapted, law_normalized_messages};
use crate::text::trimmed;
use crate::traits::ChunkView;
use crate::types::{
    BlockView, ChatResponse, ContentView, FinishReason, MessageView, ModelInputKind, OpenAiCompatView, Role,
    ThinkingFormat, ToolCallView, ToolDefinitionView,
};

verus! {

// ---------------------------------------------------------------------------
// Objects
// ---------------------------------------------------------------------------

proof fn lemma_single(name: Seq<char>, value: JsonView)
    ensures
        field(single(name, value), name) == Some(value),
{
    law_with_member(seq![], name, value, name);
}

proof fn lemma_double(a: Seq<char>, x: JsonView, b: Seq<char>, y: JsonView)
    requires
        a != b,
    ensures
        field(double(a, x, b, y), a) == Some(x),
        field(double(a, x, b, y), b) == Some(y),
{
    law_with_member(seq![], a, x, a);
    law_with_member(with_member(seq![], a, x), b, y, a);
}

proof fn lemma_optional(
    members: Members,
    name: Seq<char>,
    value: Option<JsonView>,
    other: Seq<char>,
)
    ensures
        value is Some ==> lookup(with_optional(members, name, value), name) == value,
        value is None ==> lookup(with_optional(members, name, value), name) == lookup(
            members,
            name,
        ),
        other != name ==> lookup(with_optional(members, name, value), other) == lookup(
            members,
            other,
        ),
{
    if let Some(value) = value {
        law_with_member(members, name, value, other);
    }
}

proof fn lemma_names()
    ensures
        "type"@ != "text"@,
        "type"@ != "image_url"@,
        "type"@ != "function"@,
        "id"@ != "type"@,
        "id"@ != "function"@,
        "name"@ != "arguments"@,
        "name"@ != "description"@,
        "name"@ != "parameters"@,
        "description"@ != "parameters"@,
        "role"@ != "content"@,
        "role"@ != "tool_calls"@,
        "role"@ != "tool_call_id"@,
        "content"@ != "tool_calls"@,
        "content"@ != "tool_call_id"@,
        "tool_calls"@ != "tool_call_id"@,
        "model"@ != "messages"@,
        "model"@ != "stream"@,
        "model"@ != "tools"@,
        "model"@ != "temperature"@,
        "model"@ != "stream_options"@,
        "messages"@ != "stream"@,
        "messages"@ != "tools"@,
        "messages"@ != "temperature"@,
        "messages"@ != "stream_options"@,
        "stream"@ != "tools"@,
        "stream"@ != "temperature"@,
        "stream"@ != "stream_options"@,
        "tools"@ != "temperature"@,
        "tools"@ != "stream_options"@,
        "temperature"@ != "stream_options"@,
{
    reveal_strlit("type");
    reveal_strlit("text");
    reveal_strlit("image_url");
    reveal_strlit("function");
    reveal_strlit("id");
    reveal_strlit("name");
    reveal_strlit("arguments");
    reveal_strlit("description");
    reveal_strlit("parameters");
    reveal_strlit("role");
    reveal_strlit("content");
    reveal_strlit("tool_calls");
    reveal_strlit("tool_call_id");
    reveal_strlit("model");
    reveal_strlit("messages");
    reveal_strlit("stream");
    reveal_strlit("tools");
    reveal_strlit("temperature");
    reveal_strlit("stream_options");
    assert("type"@[1] == 'y' && "text"@[1] == 'e');
    assert("image_url"@[0] == 'i' && "type"@[0] == 't' && "function"@[0] == 'f' && "id"@[0] == 'i');
    assert("name"@[0] == 'n' && "arguments"@[0] == 'a' && "description"@[0] == 'd');
    assert("parameters"@[0] == 'p');
    assert("role"@[0] == 'r' && "content"@[0] == 'c' && "tool_calls"@[0] == 't');
    assert("tool_call_id"@[0] == 't');
    assert("tool_calls"@.len() == 10 && "tool_call_id"@.len() == 12);
    assert("model"@[1] == 'o' && "messages"@[1] == 'e' && "stream"@[0] == 's');
    assert("model"@[0] == 'm' && "messages"@[0] == 'm' && "tools"@[0] == 't');
    assert("temperature"@[0] == 't' && "tools"@[1] == 'o' && "temperature"@[1] == 'e');
    assert("stream"@.len() == 6 && "stream_options"@.len() == 14 && "stream_options"@[0] == 's');
}

// ---------------------------------------------------------------------------
// Messages
// ---------------------------------------------------------------------------

/// A block has a part of a message of its own: tool uses and results have none.
pub open spec fn has_part(block: BlockView) -> bool {
    block is Text || block is Thinking || block is Image
}

/// A part of a message says what a block does: its text, its thinking between tags, or
/// its image as a URL.
pub open spec fn is_part_for(part: JsonView, block: BlockView) -> bool {
    match block {
        BlockView::Text { text } => {
            &&& field(part, "type"@) == Some(JsonView::Text("text"@))
            &&& field(part, "text"@) == Some(JsonView::Text(text))
        },
        BlockView::Thinking { thinking, .. } => {
            &&& field(part, "type"@) == Some(JsonView::Text("text"@))
            &&& field(part, "text"@) == Some(
                JsonView::Text("<thinking>"@ + thinking + "</thinking>"@),
            )
        },
        BlockView::Image { media_type, data } => {
            &&& field(part, "type"@) == Some(JsonView::Text("image_url"@))
            &&& field(part, "image_url"@) matches Some(image) && field(image, "url"@) == Some(
                JsonView::Text("data:"@ + media_type + ";base64,"@ + data),
            )
        },
        _ => false,
    }
}

/// Parts say what the blocks do that have any, in their order.
pub open spec fn are_parts_for(parts: Seq<JsonView>, blocks: Seq<BlockView>, at: Seq<int>) -> bool {
    &&& at.len() == parts.len()
    &&& forall|i: int|
        0 <= i < at.len() ==> 0 <= #[trigger] at[i] < blocks.len() && is_part_for(
            parts[i],
            blocks[at[i]],
        )
    &&& forall|i: int, j: int| 0 <= i < j < at.len() ==> (#[trigger] at[i]) < (#[trigger] at[j])
    &&& forall|k: int|
        0 <= k < blocks.len() && has_part(#[trigger] blocks[k]) ==> at.contains(k)
}

/// The content of a message is told in full: a text as it is, blocks by their parts.
/// There is none exactly where nothing is said.
pub open spec fn is_content_for(told: Option<JsonView>, content: Option<ContentView>) -> bool {
    match content {
        None => told is None,
        Some(ContentView::Text(text)) => told == Some(JsonView::Text(text)),
        Some(ContentView::Blocks(blocks)) => match told {
            None => forall|k: int| 0 <= k < blocks.len() ==> !has_part(#[trigger] blocks[k]),
            Some(JsonView::Array(parts)) => parts.len() > 0 && exists|at: Seq<int>| #[trigger]
                are_parts_for(parts, blocks, at),
            _ => false,
        },
    }
}

/// A call of a message of a request is a call: its identifier, its name and its
/// arguments as they are.
pub open spec fn is_call_for(told: JsonView, call: ToolCallView) -> bool {
    &&& field(told, "id"@) == Some(JsonView::Text(call.id))
    &&& field(told, "type"@) == Some(JsonView::Text("function"@))
    &&& field(told, "function"@) matches Some(function) && field(function, "name"@) == Some(
        JsonView::Text(call.name),
    ) && field(function, "arguments"@) == Some(JsonView::Text(call.arguments))
}

/// A message of a request says what a message does.
pub open spec fn is_message_for(told: JsonView, m: MessageView) -> bool {
    &&& field(told, "role"@) == Some(
        JsonView::Text(
            match m.role {
                Role::System => "system"@,
                Role::User => "user"@,
                Role::Assistant => "assistant"@,
                Role::Tool => "tool"@,
            },
        ),
    )
    &&& is_content_for(field(told, "content"@), m.content)
    &&& match m.tool_calls {
        None => field(told, "tool_calls"@) is None,
        Some(calls) => field(told, "tool_calls"@) matches Some(JsonView::Array(list)) && list.len()
            == calls.len() && forall|i: int|
            0 <= i < calls.len() ==> is_call_for(list[i], #[trigger] calls[i]),
    }
    &&& match m.tool_call_id {
        None => field(told, "tool_call_id"@) is None,
        Some(id) => field(told, "tool_call_id"@) == Some(JsonView::Text(id)),
    }
}

proof fn lemma_part(block: BlockView)
    ensures
        has_part(block) == openai_part(block) is Some,
        openai_part(block) matches Some(part) ==> is_part_for(part, block),
{
    lemma_names();
    match block {
        BlockView::Text { text } => {
            lemma_double("type"@, JsonView::Text("text"@), "text"@, JsonView::Text(text));
        },
        BlockView::Thinking { thinking, .. } => {
            lemma_double(
                "type"@,
                JsonView::Text("text"@),
                "text"@,
                JsonView::Text("<thinking>"@ + thinking + "</thinking>"@),
            );
        },
        BlockView::Image { media_type, data } => {
            let url = JsonView::Text("data:"@ + media_type + ";base64,"@ + data);
            lemma_single("url"@, url);
            lemma_double(
                "type"@,
                JsonView::Text("image_url"@),
                "image_url"@,
                single("url"@, url),
            );
        },
        _ => {},
    }
}

proof fn lemma_parts_selected(blocks: Seq<BlockView>)
    ensures
        openai_parts(blocks) == selected(blocks, |b: BlockView| openai_part(b)),
    decreases blocks.len(),
{
    if blocks.len() > 0 {
        lemma_parts_selected(blocks.drop_last());
    }
}

proof fn lemma_content(content: Option<ContentView>)
    ensures
        is_content_for(openai_content(content), content),
{
    if let Some(ContentView::Blocks(blocks)) = content {
        let give = |b: BlockView| openai_part(b);
        let parts = openai_parts(blocks);
        lemma_parts_selected(blocks);
        let at = law_selected(blocks, give);
        assert forall|i: int| 0 <= i < at.len() implies 0 <= #[trigger] at[i] < blocks.len()
            && is_part_for(parts[i], blocks[at[i]]) by {
            assert(give(blocks[at[i]]) == Some(parts[i]));
            lemma_part(blocks[at[i]]);
        }
        assert forall|k: int| 0 <= k < blocks.len() && has_part(
            #[trigger] blocks[k],
        ) implies at.contains(k) by {
            lemma_part(blocks[k]);
            assert(give(blocks[k]) is Some);
        }
        assert(are_parts_for(parts, blocks, at));
    }
}

proof fn lemma_call(call: ToolCallView)
    ensures
        is_call_for(openai_call(call), call),
{
    lemma_names();
    let function = double(
        "name"@,
        JsonView::Text(call.name),
        "arguments"@,
        JsonView::Text(call.arguments),
    );
    lemma_double("name"@, JsonView::Text(call.name), "arguments"@, JsonView::Text(call.arguments));
    let a = with_member(seq![], "id"@, JsonView::Text(call.id));
    let b = with_member(a, "type"@, JsonView::Text("function"@));
    law_with_member(seq![], "id"@, JsonView::Text(call.id), "id"@);
    law_with_member(a, "type"@, JsonView::Text("function"@), "id"@);
    law_with_member(b, "function"@, function, "id"@);
    law_with_member(b, "function"@, function, "type"@);
}

/// Each message of a conversation is told in full: who speaks, what is said, the calls
/// with their identifiers, names and arguments, and whose result it is.
pub proof fn law_message_is_told(m: MessageView)
    ensures
        is_message_for(openai_message(m), m),
{
    lemma_names();
    lemma_content(m.content);
    let role = JsonView::Text(crate::openai::role_text(m.role));
    let content = openai_content(m.content);
    let calls = openai_calls(m.tool_calls);
    let id = match m.tool_call_id {
        Some(id) => Some(JsonView::Text(id)),
        None => None,
    };
    let none: Members = seq![];
    let a = with_member(none, "role"@, role);
    let b = with_optional(a, "content"@, content);
    let c = with_optional(b, "tool_calls"@, calls);
    law_with_member(none, "role"@, role, "content"@);
    law_with_member(none, "role"@, role, "tool_calls"@);
    law_with_member(none, "role"@, role, "tool_call_id"@);
    lemma_optional(a, "content"@, content, "role"@);
    lemma_optional(a, "content"@, content, "tool_calls"@);
    lemma_optional(a, "content"@, content, "tool_call_id"@);
    lemma_optional(b, "tool_calls"@, calls, "role"@);
    lemma_optional(b, "tool_calls"@, calls, "content"@);
    lemma_optional(b, "tool_calls"@, calls, "tool_call_id"@);
    lemma_optional(c, "tool_call_id"@, id, "role"@);
    lemma_optional(c, "tool_call_id"@, id, "content"@);
    lemma_optional(c, "tool_call_id"@, id, "tool_calls"@);
    assert(lookup(none, "content"@) is None);
    assert(lookup(none, "tool_calls"@) is None);
    assert(lookup(none, "tool_call_id"@) is None);
    if let Some(list) = m.tool_calls {
        assert forall|i: int| 0 <= i < list.len() implies is_call_for(
            calls->0->Array_0[i],
            #[trigger] list[i],
        ) by {
            lemma_call(list[i]);
        }
    }
}

// ---------------------------------------------------------------------------
// Requests
// ---------------------------------------------------------------------------

/// A tool of a request is a tool: its name, its description and its schema.
pub open spec fn is_tool_for(told: JsonView, tool: ToolDefinitionView) -> bool {
    &&& field(told, "type"@) == Some(JsonView::Text("function"@))
    &&& field(told, "function"@) matches Some(function) && field(function, "name"@) == Some(
        JsonView::Text(tool.name),
    ) && field(function, "description"@) == Some(JsonView::Text(tool.description)) && field(
        function,
        "parameters"@,
    ) == Some(tool.parameters)
}

proof fn lemma_tool(tool: ToolDefinitionView)
    ensures
        is_tool_for(openai_tool(tool), tool),
{
    lemma_names();
    let a = with_member(seq![], "name"@, JsonView::Text(tool.name));
    let b = with_member(a, "description"@, JsonView::Text(tool.description));
    let c = with_member(b, "parameters"@, tool.parameters);
    law_with_member(seq![], "name"@, JsonView::Text(tool.name), "name"@);
    law_with_member(a, "description"@, JsonView::Text(tool.description), "name"@);
    law_with_member(b, "parameters"@, tool.parameters, "name"@);
    law_with_member(b, "parameters"@, tool.parameters, "description"@);
    lemma_double("type"@, JsonView::Text("function"@), "function"@, JsonView::Object(c));
}

/// The members that every service takes under the same name.
pub open spec fn is_common_name(name: Seq<char>) -> bool {
    ||| name == "model"@
    ||| name == "messages"@
    ||| name == "stream"@
    ||| name == "tools"@
    ||| name == "temperature"@
    ||| name == "stream_options"@
}

/// A request names the model, holds the whole conversation, message by message, and
/// the tools, and asks for a stream together with its usage or for neither.
pub open spec fn is_asked(
    members: Members,
    model: Seq<char>,
    conversation: Seq<MessageView>,
    tools: Seq<ToolDefinitionView>,
    temperature: Option<JsonView>,
    stream: bool,
) -> bool {
    &&& lookup(members, "model"@) == Some(JsonView::Text(model))
    &&& lookup(members, "messages"@) matches Some(JsonView::Array(list)) && list.len()
        == conversation.len() && forall|i: int|
        0 <= i < list.len() ==> is_message_for(#[trigger] list[i], conversation[i])
    &&& lookup(members, "stream"@) == Some(JsonView::Bool(stream))
    &&& if tools.len() == 0 {
        lookup(members, "tools"@) is None
    } else {
        lookup(members, "tools"@) matches Some(JsonView::Array(list)) && list.len() == tools.len()
            && forall|i: int| 0 <= i < list.len() ==> is_tool_for(#[trigger] list[i], tools[i])
    }
    &&& lookup(members, "temperature"@) == temperature
    &&& if stream {
        lookup(members, "stream_options"@) matches Some(options) && field(
            options,
            "include_usage"@,
        ) == Some(JsonView::Bool(true))
    } else {
        lookup(members, "stream_options"@) is None
    }
}

proof fn lemma_common(
    model: Seq<char>,
    conversation: Seq<MessageView>,
    tools: Seq<ToolDefinitionView>,
    temperature: Option<JsonView>,
    stream: bool,
)
    ensures
        is_asked(
            common_members(model, conversation, tools, temperature, stream),
            model,
            conversation,
            tools,
            temperature,
            stream,
        ),
{
    lemma_names();
    let none: Members = seq![];
    let list = JsonView::Array(openai_messages(conversation));
    let told = openai_tools(tools);
    let options = if stream {
        Some(single("include_usage"@, JsonView::Bool(true)))
    } else {
        None
    };
    lemma_single("include_usage"@, JsonView::Bool(true));
    let a = with_member(none, "model"@, JsonView::Text(model));
    let b = with_member(a, "messages"@, list);
    let c = with_member(b, "stream"@, JsonView::Bool(stream));
    let d = with_optional(c, "tools"@, told);
    let e = with_optional(d, "temperature"@, temperature);
    lemma_common_lookup(none, a, b, c, d, e, model, list, stream, told, temperature, options, "model"@);
    lemma_common_lookup(none, a, b, c, d, e, model, list, stream, told, temperature, options, "messages"@);
    lemma_common_lookup(none, a, b, c, d, e, model, list, stream, told, temperature, options, "stream"@);
    lemma_common_lookup(none, a, b, c, d, e, model, list, stream, told, temperature, options, "tools"@);
    lemma_common_lookup(none, a, b, c, d, e, model, list, stream, told, temperature, options, "temperature"@);
    lemma_common_lookup(none, a, b, c, d, e, model, list, stream, told, temperature, options, "stream_options"@);
    assert forall|i: int| 0 <= i < openai_messages(conversation).len() implies is_message_for(
        #[trigger] openai_messages(conversation)[i],
        conversation[i],
    ) by {
        law_message_is_told(conversation[i]);
    }
    if tools.len() > 0 {
        let objects = told->0->Array_0;
        assert forall|i: int| 0 <= i < objects.len() implies is_tool_for(
            #[trigger] objects[i],
            tools[i],
        ) by {
            lemma_tool(tools[i]);
        }
    }
}

proof fn lemma_common_lookup(
    none: Members,
    a: Members,
    b: Members,
    c: Members,
    d: Members,
    e: Members,
    model: Seq<char>,
    list: JsonView,
    stream: bool,
    told: Option<JsonView>,
    temperature: Option<JsonView>,
    options: Option<JsonView>,
    name: Seq<char>,
)
    requires
        none.len() == 0,
        a == with_member(none, "model"@, JsonView::Text(model)),
        b == with_member(a, "messages"@, list),
        c == with_member(b, "stream"@, JsonView::Bool(stream)),
        d == with_optional(c, "tools"@, told),
        e == with_optional(d, "temperature"@, temperature),
        is_common_name(name),
    ensures
        lookup(with_optional(e, "stream_options"@, options), name) == if name == "model"@ {
            Some(JsonView::Text(model))
        } else if name == "messages"@ {
            Some(list)
        } else if name == "stream"@ {
            Some(JsonView::Bool(stream))
        } else if name == "tools"@ {
            told
        } else if name == "temperature"@ {
            temperature
        } else {
            options
        },
{
    lemma_names();
    law_with_member(none, "model"@, JsonView::Text(model), name);
    law_with_member(a, "messages"@, list, name);
    law_with_member(b, "stream"@, JsonView::Bool(stream), name);
    lemma_optional(c, "tools"@, told, name);
    lemma_optional(d, "temperature"@, temperature, name);
    lemma_optional(e, "stream_options"@, options, name);
}

/// A request asks for what it should, also with what differs between services: the
/// limit on tokens, unless it goes by the name of something else, and the request for
/// reasoning.
pub proof fn law_request_asks(
    model: Seq<char>,
    conversation: Seq<MessageView>,
    tools: Seq<ToolDefinitionView>,
    temperature: Option<JsonView>,
    stream: bool,
    max_tokens: Option<u32>,
    compat: OpenAiCompatView,
)
    requires
        !is_common_name(tokens_field(compat)),
    ensures
        ({
            let members = request_members(
                common_members(model, conversation, tools, temperature, stream),
                max_tokens,
                compat,
            );
            &&& is_asked(members, model, conversation, tools, temperature, stream)
            &&& thinking_member(compat.thinking_format) matches Some(member) ==> lookup(
                members,
                member.0,
            ) == Some(member.1)
        }),
{
    let common = common_members(model, conversation, tools, temperature, stream);
    lemma_common(model, conversation, tools, temperature, stream);
    let limited = match max_tokens {
        Some(n) => with_member(
            common,
            tokens_field(compat),
            JsonView::Number(JsonNumberView::Unsigned(n as u64)),
        ),
        None => common,
    };
    let members = request_members(common, max_tokens, compat);
    lemma_other_names(common, limited, members, max_tokens, compat, "model"@);
    lemma_other_names(common, limited, members, max_tokens, compat, "messages"@);
    lemma_other_names(common, limited, members, max_tokens, compat, "stream"@);
    lemma_other_names(common, limited, members, max_tokens, compat, "tools"@);
    lemma_other_names(common, limited, members, max_tokens, compat, "temperature"@);
    lemma_other_names(common, limited, members, max_tokens, compat, "stream_options"@);
    if let Some((name, value)) = thinking_member(compat.thinking_format) {
        law_with_member(limited, name, value, name);
    }
}

/// Reasoning is asked for as the service takes it: at medium effort, or by switching it
/// on. Where it cannot be asked for, the request stays as it is.
pub proof fn law_reasoning_is_asked_for(common: Members, compat: OpenAiCompatView)
    ensures
        ({
            let members = request_members(common, None, compat);
            match compat.thinking_format {
                Some(ThinkingFormat::OpenAi) => lookup(members, "reasoning_effort"@) == Some(
                    JsonView::Text("medium"@),
                ),
                Some(ThinkingFormat::OpenRouter) => lookup(members, "reasoning"@) matches Some(
                    reasoning,
                ) && field(reasoning, "effort"@) == Some(JsonView::Text("medium"@)),
                Some(ThinkingFormat::DeepSeek) => lookup(members, "thinking"@) matches Some(
                    thinking,
                ) && field(thinking, "type"@) == Some(JsonView::Text("enabled"@)),
                Some(ThinkingFormat::Together) => lookup(members, "reasoning"@) matches Some(
                    reasoning,
                ) && field(reasoning, "enabled"@) == Some(JsonView::Bool(true)),
                Some(ThinkingFormat::Zai) | Some(ThinkingFormat::Qwen) => lookup(
                    members,
                    "enable_thinking"@,
                ) == Some(JsonView::Bool(true)),
                Some(ThinkingFormat::QwenChatTemplate) => lookup(
                    members,
                    "chat_template_kwargs"@,
                ) matches Some(kwargs) && field(kwargs, "enable_thinking"@) == Some(
                    JsonView::Bool(true),
                ),
                Some(ThinkingFormat::Unsupported) | None => members == common,
            }
        }),
        compat.max_tokens_field is None ==> tokens_field(compat) == "max_tokens"@,
        compat.max_tokens_field matches Some(name) ==> tokens_field(compat) == name,
{
    if let Some((name, value)) = thinking_member(compat.thinking_format) {
        law_with_member(common, name, value, name);
    }
    lemma_single("effort"@, JsonView::Text("medium"@));
    lemma_single("type"@, JsonView::Text("enabled"@));
    lemma_single("enabled"@, JsonView::Bool(true));
    lemma_single("enable_thinking"@, JsonView::Bool(true));
}

proof fn lemma_other_names(
    common: Members,
    limited: Members,
    members: Members,
    max_tokens: Option<u32>,
    compat: OpenAiCompatView,
    name: Seq<char>,
)
    requires
        is_common_name(name),
        !is_common_name(tokens_field(compat)),
        limited == match max_tokens {
            Some(n) => with_member(
                common,
                tokens_field(compat),
                JsonView::Number(JsonNumberView::Unsigned(n as u64)),
            ),
            None => common,
        },
        members == request_members(common, max_tokens, compat),
    ensures
        lookup(members, name) == lookup(common, name),
{
    if let Some(n) = max_tokens {
        law_with_member(
            common,
            tokens_field(compat),
            JsonView::Number(JsonNumberView::Unsigned(n as u64)),
            name,
        );
    }
    if let Some((own, value)) = thinking_member(compat.thinking_format) {
        lemma_thinking_names(compat);
        law_with_member(limited, own, value, name);
    }
}

proof fn lemma_thinking_names(compat: OpenAiCompatView)
    ensures
        thinking_member(compat.thinking_format) matches Some(member) ==> !is_common_name(member.0),
{
    reveal_strlit("reasoning_effort");
    reveal_strlit("reasoning");
    reveal_strlit("thinking");
    reveal_strlit("enable_thinking");
    reveal_strlit("chat_template_kwargs");
    reveal_strlit("model");
    reveal_strlit("messages");
    reveal_strlit("stream");
    reveal_strlit("tools");
    reveal_strlit("temperature");
    reveal_strlit("stream_options");
    assert("reasoning_effort"@[0] == 'r' && "reasoning"@[0] == 'r' && "thinking"@[0] == 't'
        && "thinking"@[1] == 'h' && "enable_thinking"@[0] == 'e' && "chat_template_kwargs"@[0]
        == 'c');
    assert("model"@[0] == 'm' && "messages"@[0] == 'm' && "stream"@[0] == 's');
    assert("tools"@[0] == 't' && "tools"@[1] == 'o' && "temperature"@[0] == 't');
    assert("temperature"@[1] == 'e' && "stream_options"@[0] == 's');
}

/// A message of the conversation whose content is a text, or that has none, is among
/// those that a request is made of, as it is, and so is its place among the others.
pub proof fn law_conversation_is_kept(messages: Seq<MessageView>) -> (places: Seq<int>)
    ensures
        ({
            let out = openai_conversation(messages);
            &&& places.len() == messages.len()
            &&& forall|i: int|
                0 <= i < messages.len() ==> {
                    &&& 0 <= #[trigger] places[i] < out.len()
                    &&& out[places[i]].role == messages[i].role
                    &&& out[places[i]].tool_calls == messages[i].tool_calls
                    &&& out[places[i]].tool_call_id == messages[i].tool_call_id
                    &&& (messages[i].role != Role::Assistant || !(
                    messages[i].content matches Some(ContentView::Blocks(_))))
                        ==> out[places[i]].content == messages[i].content
                }
            &&& forall|i: int, j: int|
                0 <= i < j < places.len() ==> (#[trigger] places[i]) < (#[trigger] places[j])
        }),
{
    let input = seq![ModelInputKind::Text, ModelInputKind::Image];
    assert(input[1] == ModelInputKind::Image);
    assert(input.contains(ModelInputKind::Image));
    let all = all_adapted(messages, true, false);
    let places = law_normalized_messages(messages, input, None::<KeepIds>, false);
    let out = openai_conversation(messages);
    assert forall|i: int| 0 <= i < messages.len() implies {
        &&& 0 <= #[trigger] places[i] < out.len()
        &&& out[places[i]].role == messages[i].role
        &&& out[places[i]].tool_calls == messages[i].tool_calls
        &&& out[places[i]].tool_call_id == messages[i].tool_call_id
        &&& (messages[i].role != Role::Assistant || !(
        messages[i].content matches Some(ContentView::Blocks(_)))) ==> out[places[i]].content
            == messages[i].content
    } by {
        assert(out[places[i]] == all[i]);
    }
    places
}

// ---------------------------------------------------------------------------
// Responses
// ---------------------------------------------------------------------------

/// The message of a response holds its text, where that is not empty, and its calls.
pub proof fn law_response_message(m: OpenAiMessageResponse)
    ensures
        response_message(m).role == Role::Assistant,
        response_message(m).tool_calls == m.tool_calls.deep_view(),
        response_message(m).tool_call_id is None,
        m.content matches Some(text) ==> (text@.len() > 0 ==> response_message(m).content == Some(
            ContentView::Text(text@),
        )),
        m.content matches Some(text) ==> (text@.len() == 0 ==> response_message(m).content is None),
        m.content is None ==> response_message(m).content is None,
{
}

/// A response says what its first choice does. Where it gives no reason that has a
/// meaning, the model has stopped of its own, and where it counts no tokens, none were
/// used.
pub proof fn law_response_says_its_first_choice(r: ChatResponse, resp: OpenAiResponse)
    requires
        resp.choices@.len() > 0,
        resp.choices@[0].message is Some,
        is_response_of(r, resp),
    ensures
        ({
            let choice = resp.choices@[0];
            &&& r.message.deep_view().role == Role::Assistant
            &&& r.message.deep_view() == response_message(choice.message->0)
            &&& choice.finish_reason is Some && finish_reason_for(choice.finish_reason->0@) is Some
                ==> Some(r.finish_reason) == finish_reason_for(choice.finish_reason->0@)
            &&& choice.finish_reason is None || finish_reason_for(choice.finish_reason->0@) is None
                ==> r.finish_reason == FinishReason::Stop
            &&& resp.usage matches Some(usage) ==> r.usage.prompt_tokens == usage.prompt_tokens
                && r.usage.completion_tokens == usage.completion_tokens && r.usage.total_tokens
                == usage.total_tokens
            &&& resp.usage is None ==> r.usage.prompt_tokens == 0 && r.usage.completion_tokens == 0
                && r.usage.total_tokens == 0
        }),
{
}

/// Each reason that a response gives has its meaning, and no other has one.
pub proof fn law_finish_reasons(reason: Seq<char>)
    ensures
        finish_reason_for(reason) == Some(FinishReason::Stop) <==> reason == "stop"@,
        finish_reason_for(reason) == Some(FinishReason::Length) <==> reason == "length"@,
        finish_reason_for(reason) == Some(FinishReason::ToolCalls) <==> reason == "tool_calls"@
            || reason == "function_call"@,
        finish_reason_for(reason) == Some(FinishReason::ContentFilter) <==> reason
            == "content_filter"@,
{
    reveal_strlit("stop");
    reveal_strlit("length");
    reveal_strlit("tool_calls");
    reveal_strlit("function_call");
    reveal_strlit("content_filter");
    assert("stop"@[0] == 's' && "length"@[0] == 'l' && "tool_calls"@[0] == 't');
    assert("function_call"@[0] == 'f' && "content_filter"@[0] == 'c');
}

/// A piece of a stream adds what its first choice does: a text, which is reasoning only
/// where there is no content, and fragments of calls. A piece without choices adds
/// nothing.
pub proof fn law_piece_adds_its_choice(chunk: OpenAiStreamChunk)
    ensures
        chunk.choices@.len() == 0 ==> {
            &&& chunk_for(chunk).delta is None
            &&& chunk_for(chunk).tool_calls.len() == 0
            &&& chunk_for(chunk).finish_reason is None
            &&& chunk_for(chunk).usage is None
        },
        chunk.choices@.len() > 0 ==> {
            let choice = chunk.choices@[0];
            &&& choice.delta is None ==> chunk_for(chunk).delta is None && chunk_for(
                chunk,
            ).tool_calls.len() == 0
            &&& choice.delta matches Some(d) ==> {
                &&& chunk_for(chunk).delta == added_text(d)
                &&& d.content matches Some(text) ==> chunk_for(chunk).delta == Some(text@)
                &&& d.tool_calls matches Some(calls) ==> chunk_for(chunk).tool_calls
                    == calls.deep_view()
                &&& d.tool_calls is None ==> chunk_for(chunk).tool_calls.len() == 0
            }
            &&& choice.finish_reason matches Some(reason) ==> chunk_for(chunk).finish_reason
                == finish_reason_for(reason@)
            &&& choice.finish_reason is None ==> chunk_for(chunk).finish_reason is None
            &&& chunk.usage matches Some(usage) ==> (chunk_for(chunk).usage matches Some(counts)
                && counts.prompt_tokens == usage.prompt_tokens && counts.completion_tokens
                == usage.completion_tokens && counts.total_tokens == usage.total_tokens)
            &&& chunk.usage is None ==> chunk_for(chunk).usage is None
        },
{
}

/// The text that is added is the first there is of the content, the reasoning content,
/// the reasoning text and the reasoning.
pub proof fn law_added_text(d: OpenAiDelta)
    ensures
        d.content matches Some(text) ==> added_text(d) == Some(text@),
        d.content is None ==> (d.reasoning_content matches Some(text) ==> added_text(d) == Some(
            text@,
        )),
        d.content is None && d.reasoning_content is None ==> (d.reasoning_text matches Some(text)
            ==> added_text(d) == Some(text@)),
        d.content is None && d.reasoning_content is None && d.reasoning_text is None ==> (
        added_text(d) matches Some(text) ==> d.reasoning.deep_view() == Some(JsonView::Text(text))),
        d.content is None && d.reasoning_content is None && d.reasoning_text is None ==> (
        d.reasoning.deep_view() matches Some(JsonView::Text(text)) ==> added_text(d) == Some(text)),
{
}

/// What a part of a stream gives: the chunk for what was read, nothing for the mark at
/// the end, and an error where the stream failed or could not be read.
pub proof fn law_stream_part(input: OpenAiInput)
    ensures
        match input {
            OpenAiInput::Failed { .. } => input_chunk(input) is Err,
            OpenAiInput::Event { event, data } => if trimmed(event.data@) == "[DONE]"@ {
                &&& is_done_input(input)
                &&& input_chunk(input) matches Ok(chunk) && chunk.delta is None
                    && chunk.tool_calls.len() == 0 && chunk.finish_reason is None
                    && chunk.usage is None
            } else {
                &&& !is_done_input(input)
                &&& data matches Ok(chunk) ==> input_chunk(input) == Ok::<ChunkView, ErrorView>(
                    chunk_for(chunk),
                )
                &&& data is Err ==> input_chunk(input) is Err
            },
        },
{
}

/// A stream gives what its parts do, in order, up to and with the first error. Where
/// there is none, it ends with one of its own exactly where no part said that the
/// response is complete.
pub proof fn law_stream_gives_its_parts(inputs: Seq<OpenAiInput>, seen_done: bool)
    ensures
        ({
            let chunks = stream_chunks(inputs, seen_done);
            &&& forall|i: int|
                0 <= i < chunks.len() && i < inputs.len() ==> #[trigger] chunks[i] == input_chunk(
                    inputs[i],
                )
            &&& forall|i: int|
                0 <= i < chunks.len() - 1 && i < inputs.len() ==> #[trigger] chunks[i] is Ok
            &&& chunks.len() > inputs.len() ==> {
                &&& chunks.len() == inputs.len() + 1
                &&& chunks.last() == Err::<ChunkView, ErrorView>(cut_off_error())
                &&& !seen_done
                &&& forall|i: int|
                    0 <= i < inputs.len() ==> !is_done_input(#[trigger] inputs[i])
            }
            &&& chunks.len() == inputs.len() && (inputs.len() == 0 || chunks.last() is Ok) ==> {
                ||| seen_done
                ||| exists|i: int| 0 <= i < inputs.len() && is_done_input(#[trigger] inputs[i])
            }
            &&& chunks.len() < inputs.len() ==> chunks.len() > 0 && chunks.last() is Err
        }),
    decreases inputs.len(),
{
    let chunks = stream_chunks(inputs, seen_done);
    if inputs.len() > 0 && input_chunk(inputs[0]) is Ok {
        let rest = inputs.skip(1);
        let done = seen_done || is_done_input(inputs[0]);
        let later = stream_chunks(rest, done);
        law_stream_gives_its_parts(rest, done);
        assert(forall|i: int| 0 < i < inputs.len() ==> #[trigger] inputs[i] == rest[i - 1]);
        assert(forall|i: int| 0 < i < chunks.len() ==> #[trigger] chunks[i] == later[i - 1]);
        assert(chunks.len() == later.len() + 1);
        if later.len() > 0 {
            assert(chunks.last() == later.last());
        }
        if chunks.len() == inputs.len() && chunks.last() is Ok && !done {
            let i = choose|i: int| 0 <= i < rest.len() && is_done_input(#[trigger] rest[i]);
            assert(is_done_input(inputs[i + 1]));
        }
        assert forall|i: int| 0 <= i < chunks.len() - 1 && i < inputs.len() implies
            #[trigger] chunks[i] is Ok by {
            if i > 0 {
                assert(later[i - 1] is Ok);
            }
        }
    }
}

} // verus!
