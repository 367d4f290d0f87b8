//! What holds of requests to the Anthropic API, and of its responses.

use vstd::prelude::*;

use crate::anthropic::{
    anthropic_conversation, anthropic_id, assistant_values, block_texts, call_values, is_request_for, plain_text,
    request_messages, request_messages_for, response_calls, response_message, response_texts,
    result_texts, result_value, system_prompt_of, system_texts, thinking_values, value_for,
    AnthropicIds, AnthropicMessageView, AnthropicRequest, ResponseBlockView, ValueView,
};
use crate::json::{parsed_json, printed_json, JsonView};
use crate::listing::{is_taken_from, law_selected, selected};
use crate::renaming_laws::{all_adapted, has_normal_ids, law_normalized_messages};
use crate::text::{contains, join};
use crate::text_laws::{lemma_contains_part, lemma_join_contains};
use crate::types::{
    AgentConfig, BlockView, ContentView, MessageView, ModelInputKind, Role, ToolCallView,
    ToolDefinitionView,
};

verus! {

// ---------------------------------------------------------------------------
// What a message of a request says
// ---------------------------------------------------------------------------

/// The text of a text block.
pub open spec fn text_in(block: BlockView) -> Option<Seq<char>> {
    match block {
        BlockView::Text { text } => Some(text),
        _ => None,
    }
}

/// The text of a text block, or the result of a tool in a block of that kind.
pub open spec fn result_in(block: BlockView) -> Option<Seq<char>> {
    match block {
        BlockView::Text { text } => Some(text),
        BlockView::ToolResult { content, .. } => Some(content),
        _ => None,
    }
}

/// A block of a request holds all that a block of a message does.
pub open spec fn holds_block(value: ValueView, block: BlockView) -> bool {
    match (block, value) {
        (BlockView::Text { text: a }, ValueView::Text { text: b }) => a == b,
        (
            BlockView::Thinking { thinking: a, thinking_signature: s, .. },
            ValueView::Thinking { thinking: b, signature: t },
        ) => a == b && s == t,
        (
            BlockView::Image { media_type: a, data: d },
            ValueView::Image { source_type, media_type: b, data: e },
        ) => source_type == "base64"@ && a == b && d == e,
        (
            BlockView::ToolUse { id: a, name: n, input: x },
            ValueView::ToolUse { id: b, name: o, input: y },
        ) => a == b && n == o && x == y,
        (
            BlockView::ToolResult { tool_use_id: a, content: c, is_error: e },
            ValueView::ToolResult { tool_use_id: b, content: d, is_error: f },
        ) => a == b && c == d && e == f,
        _ => false,
    }
}

/// A block of a request is the use of a tool that a call asks for: its input is what
/// the arguments hold, or their text where that is no JSON.
pub open spec fn holds_call(value: ValueView, call: ToolCallView) -> bool {
    value matches ValueView::ToolUse { id, name, input } && id == call.id && name == call.name
        && match parsed_json(call.arguments) {
        Ok(read) => input == read,
        Err(_) => input == JsonView::Text(call.arguments),
    }
}

/// Texts are those of the text blocks, in order.
pub open spec fn are_texts_of(texts: Seq<Seq<char>>, blocks: Seq<BlockView>, at: Seq<int>) -> bool {
    is_taken_from(texts, blocks, |b: BlockView| text_in(b), at)
}

/// Texts are those of the text blocks and the tool results, in order.
pub open spec fn are_results_of(
    texts: Seq<Seq<char>>,
    blocks: Seq<BlockView>,
    at: Seq<int>,
) -> bool {
    is_taken_from(texts, blocks, |b: BlockView| result_in(b), at)
}

/// A text is that of content: a text is itself, and the texts of blocks are joined by
/// line ends.
pub open spec fn is_text_of(content: ContentView, text: Seq<char>, at: Seq<int>) -> bool {
    match content {
        ContentView::Text(own) => text == own,
        ContentView::Blocks(blocks) => exists|texts: Seq<Seq<char>>| #[trigger]
            are_texts_of(texts, blocks, at) && texts.len() > 0 && text
                == join(texts, "\n"@),
    }
}

/// Content has no text.
pub open spec fn has_no_text(content: Option<ContentView>) -> bool {
    match content {
        None => true,
        Some(ContentView::Text(_)) => false,
        Some(ContentView::Blocks(blocks)) => forall|i: int|
            0 <= i < blocks.len() ==> !((#[trigger] blocks[i]) is Text),
    }
}

/// Content has no thinking.
pub open spec fn has_no_thinking(content: Option<ContentView>) -> bool {
    content matches Some(ContentView::Blocks(blocks)) ==> forall|i: int|
        0 <= i < blocks.len() ==> !((#[trigger] blocks[i]) is Thinking)
}

/// A message has nothing that a request has room for among its messages.
pub open spec fn has_nothing_to_say(m: MessageView) -> bool {
    match m.role {
        Role::System => true,
        Role::User => m.content is None || m.content == Some(
            ContentView::Blocks(Seq::<BlockView>::empty()),
        ),
        Role::Assistant => has_no_text(m.content) && has_no_thinking(m.content) && (
        m.tool_calls matches Some(calls) ==> calls.len() == 0),
        Role::Tool => false,
    }
}

/// What the assistant said: a text where there is any, then the thinking, then the
/// tool calls. `at` and `thought` tell which blocks the text and the thinking are of.
pub open spec fn is_said_by_assistant(
    m: MessageView,
    said: Seq<ValueView>,
    text: Option<Seq<char>>,
    thinking: Seq<ValueView>,
    at: Seq<int>,
    thought: Seq<int>,
) -> bool {
    let calls = match m.tool_calls {
        Some(calls) => calls,
        None => seq![],
    };
    let first: int = if text is Some {
        1
    } else {
        0
    };
    &&& said.len() == first + thinking.len() + calls.len()
    &&& match text {
        Some(text) => said[0] == ValueView::Text { text } && m.content is Some && is_text_of(
            m.content->0,
            text,
            at,
        ),
        None => has_no_text(m.content),
    }
    &&& forall|i: int|
        0 <= i < thinking.len() ==> said[first + i] == #[trigger] thinking[i]
    &&& match m.content {
        Some(ContentView::Blocks(blocks)) => {
            &&& thought.len() == thinking.len()
            &&& forall|i: int|
                0 <= i < thought.len() ==> 0 <= #[trigger] thought[i] < blocks.len()
                    && blocks[thought[i]] is Thinking && holds_block(
                    thinking[i],
                    blocks[thought[i]],
                )
            &&& forall|i: int, j: int|
                0 <= i < j < thought.len() ==> (#[trigger] thought[i]) < (#[trigger] thought[j])
            &&& forall|k: int|
                0 <= k < blocks.len() && (#[trigger] blocks[k]) is Thinking ==> thought.contains(k)
        },
        _ => thinking.len() == 0,
    }
    &&& forall|c: int|
        0 <= c < calls.len() ==> holds_call(
            said[first + thinking.len() + c],
            #[trigger] calls[c],
        )
}

/// A text is what a tool gave, and it failed or did not.
pub open spec fn is_result_of(m: MessageView, text: Seq<char>, is_error: bool) -> bool {
    match m.content {
        None => text.len() == 0 && !is_error,
        Some(ContentView::Text(own)) => text == own && !is_error,
        Some(ContentView::Blocks(blocks)) => {
            &&& is_error == exists|i: int|
                0 <= i < blocks.len() && ((#[trigger] blocks[i]) matches BlockView::ToolResult {
                    is_error,
                    ..
                } && is_error)
            &&& exists|texts: Seq<Seq<char>>, at: Seq<int>| #[trigger]
                are_results_of(texts, blocks, at) && text == join(texts, "\n"@)
        },
    }
}

/// A message of a request says what a message of a conversation does.
pub open spec fn says(r: AnthropicMessageView, m: MessageView) -> bool {
    match m.role {
        Role::System => false,
        Role::User => {
            &&& r.role == "user"@
            &&& match m.content {
                None => false,
                Some(ContentView::Text(text)) => r.content.len() == 1 && r.content[0]
                    == (ValueView::Text { text }),
                Some(ContentView::Blocks(blocks)) => {
                    &&& r.content.len() == blocks.len()
                    &&& forall|i: int|
                        0 <= i < blocks.len() ==> holds_block(r.content[i], #[trigger] blocks[i])
                },
            }
        },
        Role::Assistant => {
            &&& r.role == "assistant"@
            &&& exists|
                text: Option<Seq<char>>,
                thinking: Seq<ValueView>,
                at: Seq<int>,
                thought: Seq<int>,
            | #[trigger]
                is_said_by_assistant(m, r.content, text, thinking, at, thought)
        },
        Role::Tool => {
            &&& r.role == "user"@
            &&& r.content.len() == 1
            &&& r.content[0] matches ValueView::ToolResult { tool_use_id, content, is_error }
                && tool_use_id == (match m.tool_call_id {
                Some(id) => id,
                None => seq![],
            }) && is_result_of(m, content, is_error)
        },
    }
}

proof fn lemma_block_texts(blocks: Seq<BlockView>)
    ensures
        block_texts(blocks) == selected(blocks, |b: BlockView| text_in(b)),
    decreases blocks.len(),
{
    if blocks.len() > 0 {
        lemma_block_texts(blocks.drop_last());
    }
}

proof fn lemma_result_texts(blocks: Seq<BlockView>)
    ensures
        result_texts(blocks) == selected(blocks, |b: BlockView| result_in(b)),
    decreases blocks.len(),
{
    if blocks.len() > 0 {
        lemma_result_texts(blocks.drop_last());
    }
}

/// The texts of the text blocks, in order, are what the text of blocks is made of;
/// there is none exactly where no block is a text.
pub proof fn law_plain_text(content: ContentView) -> (at: Seq<int>)
    ensures
        match plain_text(Some(content)) {
            Some(text) => is_text_of(content, text, at),
            None => has_no_text(Some(content)),
        },
{
    match content {
        ContentView::Text(_) => seq![],
        ContentView::Blocks(blocks) => {
            let give = |b: BlockView| text_in(b);
            lemma_block_texts(blocks);
            let at = law_selected(blocks, give);
            let texts = block_texts(blocks);
            assert(are_texts_of(texts, blocks, at));
            if texts.len() == 0 {
                assert forall|i: int| 0 <= i < blocks.len() implies !((
                #[trigger] blocks[i]) is Text) by {
                    if blocks[i] is Text {
                        assert(give(blocks[i]) is Some);
                        assert(at.contains(i));
                    }
                }
            }
            at
        },
    }
}

proof fn lemma_thinking_values(blocks: Seq<BlockView>) -> (thought: Seq<int>)
    ensures
        thought.len() == thinking_values(blocks).len(),
        forall|i: int|
            0 <= i < thought.len() ==> 0 <= #[trigger] thought[i] < blocks.len()
                && blocks[thought[i]] is Thinking && holds_block(
                thinking_values(blocks)[i],
                blocks[thought[i]],
            ),
        forall|i: int, j: int|
            0 <= i < j < thought.len() ==> (#[trigger] thought[i]) < (#[trigger] thought[j]),
        forall|k: int|
            0 <= k < blocks.len() && (#[trigger] blocks[k]) is Thinking ==> thought.contains(k),
    decreases blocks.len(),
{
    let give = |b: BlockView|
        if b is Thinking {
            Some(value_for(b))
        } else {
            None
        };
    lemma_thinking_selected(blocks, give);
    let thought = law_selected(blocks, give);
    assert forall|i: int| 0 <= i < thought.len() implies 0 <= #[trigger] thought[i] < blocks.len()
        && blocks[thought[i]] is Thinking && holds_block(
        thinking_values(blocks)[i],
        blocks[thought[i]],
    ) by {
        assert(give(blocks[thought[i]]) == Some(thinking_values(blocks)[i]));
    }
    assert forall|k: int| 0 <= k < blocks.len() && (
    #[trigger] blocks[k]) is Thinking implies thought.contains(k) by {
        assert(give(blocks[k]) is Some);
    }
    thought
}

proof fn lemma_thinking_selected(
    blocks: Seq<BlockView>,
    give: spec_fn(BlockView) -> Option<ValueView>,
)
    requires
        forall|b: BlockView| #[trigger]
            give(b) == if b is Thinking {
                Some(value_for(b))
            } else {
                None
            },
    ensures
        thinking_values(blocks) == selected(blocks, give),
    decreases blocks.len(),
{
    if blocks.len() > 0 {
        lemma_thinking_selected(blocks.drop_last(), give);
    }
}

proof fn lemma_assistant_says(m: MessageView)
    requires
        m.role == Role::Assistant,
    ensures
        exists|
            text: Option<Seq<char>>,
            thinking: Seq<ValueView>,
            at: Seq<int>,
            thought: Seq<int>,
        | #[trigger]
            is_said_by_assistant(m, assistant_values(m), text, thinking, at, thought),
        assistant_values(m).len() == 0 <==> has_nothing_to_say(m),
{
    let said = assistant_values(m);
    let text = plain_text(m.content);
    let at = match m.content {
        Some(content) => law_plain_text(content),
        None => seq![],
    };
    let thinking = match m.content {
        Some(ContentView::Blocks(blocks)) => thinking_values(blocks),
        _ => seq![],
    };
    let thought = match m.content {
        Some(ContentView::Blocks(blocks)) => lemma_thinking_values(blocks),
        _ => seq![],
    };
    let calls = match m.tool_calls {
        Some(calls) => calls,
        None => seq![],
    };
    let first: int = if text is Some {
        1
    } else {
        0
    };
    assert(said.len() == first + thinking.len() + calls.len());
    assert forall|c: int| 0 <= c < calls.len() implies holds_call(
        said[first + thinking.len() + c],
        #[trigger] calls[c],
    ) by {
        assert(said[first + thinking.len() + c] == call_values(calls)[c]);
    }
    assert(is_said_by_assistant(m, said, text, thinking, at, thought));
    match m.content {
        Some(ContentView::Blocks(blocks)) => {
            if has_no_text(m.content) && text is Some {
                let give = |b: BlockView| text_in(b);
                let texts = choose|texts: Seq<Seq<char>>| #[trigger]
                    are_texts_of(texts, blocks, at) && texts.len() > 0 && text->0 == join(
                        texts,
                        "\n"@,
                    );
                assert(0 <= at[0] < blocks.len());
                assert(give(blocks[at[0]]) == Some(texts[0]));
                assert(false);
            }
            if has_no_thinking(m.content) && thinking.len() > 0 {
                assert(blocks[thought[0]] is Thinking);
            }
            if thinking.len() == 0 {
                assert(has_no_thinking(m.content));
            }
        },
        _ => {},
    }
}

proof fn lemma_tool_says(m: MessageView)
    requires
        m.role == Role::Tool,
    ensures
        says(AnthropicMessageView { role: "user"@, content: seq![result_value(m)] }, m),
{
    if let Some(ContentView::Blocks(blocks)) = m.content {
        let give = |b: BlockView| result_in(b);
        lemma_result_texts(blocks);
        let at = law_selected(blocks, give);
        assert(are_results_of(result_texts(blocks), blocks, at));
    }
}

proof fn lemma_message_says(m: MessageView)
    ensures
        if has_nothing_to_say(m) {
            request_messages_for(m).len() == 0
        } else {
            request_messages_for(m).len() == 1 && says(request_messages_for(m)[0], m)
        },
{
    match m.role {
        Role::Assistant => {
            lemma_assistant_says(m);
        },
        Role::Tool => {
            lemma_tool_says(m);
        },
        Role::User => {
            if let Some(ContentView::Blocks(blocks)) = m.content {
                assert(blocks.len() == 0 ==> blocks =~= Seq::<BlockView>::empty());
            }
        },
        Role::System => {},
    }
}

/// The messages of a request say what those of the conversation do, in their order,
/// and none is left out but those that have nothing to say there.
pub open spec fn tells(
    request: Seq<AnthropicMessageView>,
    messages: Seq<MessageView>,
    places: Seq<int>,
) -> bool {
    &&& places.len() == request.len()
    &&& forall|k: int|
        0 <= k < places.len() ==> 0 <= #[trigger] places[k] < messages.len() && says(
            request[k],
            messages[places[k]],
        )
    &&& forall|i: int, j: int|
        0 <= i < j < places.len() ==> (#[trigger] places[i]) < (#[trigger] places[j])
    &&& forall|i: int|
        0 <= i < messages.len() && !has_nothing_to_say(#[trigger] messages[i])
            ==> places.contains(i)
}

/// A request tells the whole conversation: each message of it says what one of the
/// conversation does. A tool result is told by the user, in one block under the
/// identifier of its call: a text stands there as it is, and the texts and results
/// of blocks are joined.
pub proof fn law_request_tells_the_conversation(messages: Seq<MessageView>) -> (places: Seq<int>)
    ensures
        tells(request_messages(messages), messages, places),
    decreases messages.len(),
{
    if messages.len() == 0 {
        seq![]
    } else {
        let front = messages.drop_last();
        let m = messages.last();
        let n = messages.len() - 1;
        let before = law_request_tells_the_conversation(front);
        let done = request_messages(front);
        let request = request_messages(messages);
        lemma_message_says(m);
        let places = if has_nothing_to_say(m) {
            before
        } else {
            before.push(n)
        };
        assert forall|k: int| 0 <= k < places.len() implies 0 <= #[trigger] places[k]
            < messages.len() && says(request[k], messages[places[k]]) by {
            if k < before.len() {
                assert(places[k] == before[k]);
                assert(request[k] == done[k]);
                assert(front[before[k]] == messages[before[k]]);
            } else {
                assert(request[k] == request_messages_for(m)[0]);
            }
        }
        assert forall|i: int, j: int| 0 <= i < j < places.len() implies (#[trigger] places[i]) < (
        #[trigger] places[j]) by {
            assert(places[i] == before[i]);
            if j < before.len() {
                assert(places[j] == before[j]);
            }
        }
        assert forall|i: int|
            0 <= i < messages.len() && !has_nothing_to_say(
                #[trigger] messages[i],
            ) implies places.contains(i) by {
            if i < n {
                assert(front[i] == messages[i]);
                let a = choose|a: int| 0 <= a < before.len() && before[a] == i;
                assert(places[a] == i);
            } else {
                assert(places[before.len() as int] == i);
            }
        }
        places
    }
}

/// The result of a tool is one block of a request, under the identifier of the call,
/// and where it is a text, that text and no error.
pub proof fn law_text_result_is_told(m: MessageView, id: Seq<char>, text: Seq<char>)
    requires
        m.role == Role::Tool,
        m.tool_call_id == Some(id),
        m.content == Some(ContentView::Text(text)),
    ensures
        request_messages(seq![m]).len() == 1,
        request_messages(seq![m])[0].role == "user"@,
        request_messages(seq![m])[0].content == seq![
            ValueView::ToolResult { tool_use_id: id, content: text, is_error: false },
        ],
{
    let places = law_request_tells_the_conversation(seq![m]);
    assert(seq![m][0] == m);
    assert(places.contains(0));
    let request = request_messages(seq![m]);
    assert(forall|k: int| 0 <= k < places.len() ==> #[trigger] places[k] == 0);
    if places.len() > 1 {
        assert(places[0] < places[1]);
    }
    assert(places[0] == 0);
    assert(says(request[0], m));
    assert(request[0].content =~= seq![
        ValueView::ToolResult { tool_use_id: id, content: text, is_error: false },
    ]);
}

// ---------------------------------------------------------------------------
// The whole request
// ---------------------------------------------------------------------------

/// Some block of a request holds a text: as a text, as thinking, or as the result of
/// a tool.
pub open spec fn holds_text(
    request: Seq<AnthropicMessageView>,
    k: int,
    v: int,
    text: Seq<char>,
) -> bool {
    &&& 0 <= k < request.len()
    &&& 0 <= v < request[k].content.len()
    &&& match request[k].content[v] {
        ValueView::Text { text: own } => contains(own, text),
        ValueView::Thinking { thinking, .. } => contains(thinking, text),
        ValueView::ToolResult { content, .. } => contains(content, text),
        _ => false,
    }
}

/// A text is one of content: its text, or that of a text block.
pub open spec fn is_in_content(content: Option<ContentView>, text: Seq<char>) -> bool {
    match content {
        None => false,
        Some(ContentView::Text(own)) => own == text,
        Some(ContentView::Blocks(blocks)) => exists|i: int|
            0 <= i < blocks.len() && #[trigger] blocks[i] == (BlockView::Text { text }),
    }
}

proof fn lemma_contains_itself(text: Seq<char>)
    ensures
        contains(text, text),
{
    lemma_contains_part(seq![], text, seq![]);
    assert(Seq::<char>::empty() + text + Seq::<char>::empty() =~= text);
}

proof fn lemma_says_text(request: Seq<AnthropicMessageView>, k: int, m: MessageView, text: Seq<char>)
    requires
        0 <= k < request.len(),
        says(request[k], m),
        is_in_content(m.content, text),
    ensures
        exists|v: int| #[trigger] holds_text(request, k, v, text),
{
    let r = request[k];
    lemma_contains_itself(text);
    match m.content {
        None => {},
        Some(ContentView::Text(_)) => {
            if m.role == Role::Assistant {
                let (said, thinking, at, thought) = choose|
                    said: Option<Seq<char>>,
                    thinking: Seq<ValueView>,
                    at: Seq<int>,
                    thought: Seq<int>,
                | #[trigger]
                    is_said_by_assistant(m, r.content, said, thinking, at, thought);
                assert(said is Some);
            }
            assert(holds_text(request, k, 0, text));
        },
        Some(ContentView::Blocks(blocks)) => {
            let i = choose|i: int|
                0 <= i < blocks.len() && #[trigger] blocks[i] == (BlockView::Text { text });
            match m.role {
                Role::User => {
                    assert(holds_block(r.content[i], blocks[i]));
                    assert(holds_text(request, k, i, text));
                },
                Role::Assistant => {
                    let (said, thinking, at, thought) = choose|
                        said: Option<Seq<char>>,
                        thinking: Seq<ValueView>,
                        at: Seq<int>,
                        thought: Seq<int>,
                    | #[trigger]
                        is_said_by_assistant(m, r.content, said, thinking, at, thought);
                    assert(blocks[i] is Text);
                    assert(said is Some);
                    let give = |b: BlockView| text_in(b);
                    let texts = choose|texts: Seq<Seq<char>>| #[trigger]
                        are_texts_of(texts, blocks, at) && texts.len() > 0 && said->0
                            == join(texts, "\n"@);
                    assert(give(blocks[i]) == Some(text));
                    let a = choose|a: int| 0 <= a < at.len() && at[a] == i;
                    assert(give(blocks[at[a]]) == Some(texts[a]));
                    lemma_join_contains(texts, "\n"@, a);
                    assert(holds_text(request, k, 0, text));
                },
                Role::Tool => {
                    let give = |b: BlockView| result_in(b);
                    let content = r.content[0]->ToolResult_content;
                    let (texts, at) = choose|texts: Seq<Seq<char>>, at: Seq<int>| #[trigger]
                        are_results_of(texts, blocks, at) && content == join(texts, "\n"@);
                    assert(give(blocks[i]) == Some(text));
                    let a = choose|a: int| 0 <= a < at.len() && at[a] == i;
                    assert(give(blocks[at[a]]) == Some(texts[a]));
                    lemma_join_contains(texts, "\n"@, a);
                    assert(holds_text(request, k, 0, text));
                },
                Role::System => {},
            }
        },
    }
}

/// Every text that the user, the assistant or a tool says in a conversation stands in
/// the request that is made of it.
pub proof fn law_texts_stand_in_the_request(
    r: AnthropicRequest,
    model: Seq<char>,
    messages: Seq<MessageView>,
    tools: Seq<ToolDefinitionView>,
    config: AgentConfig,
    stream: bool,
    i: int,
    text: Seq<char>,
)
    requires
        is_request_for(r, model, messages, tools, config, stream),
        0 <= i < messages.len(),
        messages[i].role != Role::System,
        is_in_content(messages[i].content, text),
    ensures
        exists|k: int, v: int| #[trigger] holds_text(r.messages.deep_view(), k, v, text),
{
    let input = seq![ModelInputKind::Text, ModelInputKind::Image];
    let conversation = anthropic_conversation(messages);
    let at = law_normalized_messages(messages, input, Some(AnthropicIds), true);
    assert(input[1] == ModelInputKind::Image);
    assert(input.contains(ModelInputKind::Image));
    let all = all_adapted(messages, true, true);
    assert(all[i] == messages[i]);
    let p = at[i];
    let m = conversation[p];
    assert(has_normal_ids(AnthropicIds, all, i, m));
    let request = r.messages.deep_view();
    let places = law_request_tells_the_conversation(conversation);
    match m.content {
        Some(ContentView::Blocks(blocks)) => {
            let b = choose|b: int|
                0 <= b < blocks.len() && #[trigger] blocks[b] == (BlockView::Text { text });
            assert(blocks[b] is Text);
            assert(blocks != Seq::<BlockView>::empty());
        },
        _ => {},
    }
    assert(!has_nothing_to_say(m));
    let k = choose|k: int| 0 <= k < places.len() && places[k] == p;
    assert(says(request[k], conversation[places[k]]));
    lemma_says_text(request, k, m, text);
}

proof fn lemma_system_texts(messages: Seq<MessageView>)
    ensures
        system_texts(messages) == selected(
            messages,
            |m: MessageView|
                if m.role == Role::System {
                    plain_text(m.content)
                } else {
                    None
                },
        ),
    decreases messages.len(),
{
    if messages.len() > 0 {
        lemma_system_texts(messages.drop_last());
    }
}

/// The system prompt is made of what the system says in a conversation, and of all of
/// it, in order; there is none exactly where the system says nothing.
pub proof fn law_system_prompt(messages: Seq<MessageView>) -> (r: (Seq<Seq<char>>, Seq<int>))
    ensures
        is_taken_from(
            r.0,
            messages,
            |m: MessageView|
                if m.role == Role::System {
                    plain_text(m.content)
                } else {
                    None
                },
            r.1,
        ),
        system_prompt_of(messages) == if r.0.len() == 0 {
            None
        } else {
            Some(join(r.0, "\n"@))
        },
{
    let give = |m: MessageView|
        if m.role == Role::System {
            plain_text(m.content)
        } else {
            None
        };
    lemma_system_texts(messages);
    (system_texts(messages), law_selected(messages, give))
}

/// What a request asks for besides: the model, the tools, how much may come back, and
/// the system prompt of the settings before that of the conversation.
pub proof fn law_request_settings(
    r: AnthropicRequest,
    model: Seq<char>,
    messages: Seq<MessageView>,
    tools: Seq<ToolDefinitionView>,
    config: AgentConfig,
    stream: bool,
)
    requires
        is_request_for(r, model, messages, tools, config, stream),
    ensures
        r.model@ == model,
        r.stream == stream,
        config.max_tokens matches Some(n) ==> r.max_tokens == n,
        config.max_tokens is None ==> r.max_tokens == 4096,
        config.system_prompt matches Some(prompt) ==> r.system.deep_view() == Some(prompt@),
        config.system_prompt is None ==> r.system.deep_view() == system_prompt_of(
            anthropic_conversation(messages),
        ),
        tools.len() == 0 <==> r.tools is None,
        r.tools matches Some(own) ==> own.deep_view() == tools,
        r.temperature.deep_view() == config.temperature.deep_view(),
{
}

// ---------------------------------------------------------------------------
// Responses
// ---------------------------------------------------------------------------

/// The text of a block of a response.
pub open spec fn response_text_in(block: ResponseBlockView) -> Option<Seq<char>> {
    match block {
        ResponseBlockView::Text { text } => Some(text),
        _ => None,
    }
}

/// The call in a block of a response: its arguments are the printed input.
pub open spec fn response_call_in(block: ResponseBlockView) -> Option<ToolCallView> {
    match block {
        ResponseBlockView::ToolUse { id, name, input } => Some(
            ToolCallView { id, name, arguments: printed_json(input) },
        ),
        _ => None,
    }
}

proof fn lemma_response_selected(blocks: Seq<ResponseBlockView>)
    ensures
        response_texts(blocks) == selected(blocks, |b: ResponseBlockView| response_text_in(b)),
        response_calls(blocks) == selected(blocks, |b: ResponseBlockView| response_call_in(b)),
    decreases blocks.len(),
{
    if blocks.len() > 0 {
        lemma_response_selected(blocks.drop_last());
    }
}

/// The message of a response is the assistant's. It holds the texts of the response,
/// put together, and its tool uses as calls, all of them and in order; where there is
/// none of the one or the other, it holds none.
pub proof fn law_response_message(blocks: Seq<ResponseBlockView>) -> (r: (
    Seq<Seq<char>>,
    Seq<int>,
    Seq<ToolCallView>,
    Seq<int>,
))
    ensures
        is_taken_from(r.0, blocks, |b: ResponseBlockView| response_text_in(b), r.1),
        is_taken_from(r.2, blocks, |b: ResponseBlockView| response_call_in(b), r.3),
        response_message(blocks).role == Role::Assistant,
        response_message(blocks).tool_call_id is None,
        response_message(blocks).content == if r.0.len() == 0 {
            None
        } else {
            Some(ContentView::Text(r.0.flatten()))
        },
        response_message(blocks).tool_calls == if r.2.len() == 0 {
            None
        } else {
            Some(r.2)
        },
{
    lemma_response_selected(blocks);
    let texts = response_texts(blocks);
    let calls = response_calls(blocks);
    let at = law_selected(blocks, |b: ResponseBlockView| response_text_in(b));
    let places = law_selected(blocks, |b: ResponseBlockView| response_call_in(b));
    lemma_join_nothing(texts);
    (texts, at, calls, places)
}

/// An identifier for the API is as long as the one that it stands for, up to 64
/// characters, and each of its characters is the one in the same place, or an underscore
/// where that is no letter, digit, underscore or hyphen.
pub proof fn law_identifier_keeps_its_characters(id: Seq<char>, i: int)
    requires
        0 <= i < id.len(),
        i < 64,
    ensures
        ({
            let made = anthropic_id(id);
            let c = id[i];
            &&& id.len() <= 64 ==> made.len() == id.len()
            &&& id.len() > 64 ==> made.len() == 64
            &&& ('a' <= c <= 'z') || ('A' <= c <= 'Z') || ('0' <= c <= '9') || c == '-' || c == '_'
                ==> made[i] == c
            &&& made[i] == c || made[i] == '_'
        }),
{
}

proof fn lemma_join_nothing(texts: Seq<Seq<char>>)
    ensures
        join(texts, ""@) == texts.flatten(),
    decreases texts.len(),
{
    reveal_strlit("");
    texts.lemma_flatten_and_flatten_alt_are_equivalent();
    if texts.len() > 0 {
        lemma_join_nothing(texts.drop_last());
        texts.drop_last().lemma_flatten_and_flatten_alt_are_equivalent();
        assert(join(texts, ""@) =~= texts.drop_last().flatten() + texts.last());
    } else {
        assert(join(texts, ""@) =~= texts.flatten());
    }
}

} // verus!
