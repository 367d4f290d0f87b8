//! Provider-facing message normalization helpers.

use vstd::prelude::*;

use crate::text::{same_text, trim, trimmed};
use crate::types::{
    BlockView, ContentBlock, ContentView, Message, MessageContent, MessageView, Model,
    ModelInputKind, Role, ToolCall, ToolCallView,
};

verus! {

/// What stands for images in user messages.
pub const NON_VISION_USER_IMAGE_PLACEHOLDER: &'static str = "(image omitted: model does not support images)";

/// What stands for images in tool results.
pub const NON_VISION_TOOL_IMAGE_PLACEHOLDER: &'static str = "(tool image omitted: model does not support images)";

/// The text of a result that no tool gave.
pub const SYNTHETIC_TOOL_RESULT_TEXT: &'static str = "No result provided";

/// Normalizes provider-specific tool call identifiers.
pub trait ToolCallIdNormalizer {
    /// The identifier that takes the place of one in a message.
    spec fn normalized(&self, id: Seq<char>, message: MessageView) -> Seq<char>;

    /// Normalize an identifier in a message.
    fn normalize(&self, id: &str, message: &Message) -> (r: String)
        ensures
            r@ == self.normalized(id@, message.deep_view()),
    ;
}

/// Leaves identifiers as they are.
pub struct KeepIds;

impl ToolCallIdNormalizer for KeepIds {
    open spec fn normalized(&self, id: Seq<char>, message: MessageView) -> Seq<char> {
        id
    }

    fn normalize(&self, id: &str, message: &Message) -> (r: String) {
        id.to_owned()
    }
}

// ---------------------------------------------------------------------------
// Images
// ---------------------------------------------------------------------------

/// Blocks end with an image, or with the text that stands for images.
pub open spec fn ends_with_image(blocks: Seq<BlockView>, placeholder: Seq<char>) -> bool {
    blocks.len() > 0 && (blocks.last() is Image || blocks.last() == BlockView::Text {
        text: placeholder,
    })
}

/// Blocks with each run of images replaced by one placeholder.
pub open spec fn images_replaced(blocks: Seq<BlockView>, placeholder: Seq<char>) -> Seq<BlockView>
    decreases blocks.len(),
{
    if blocks.len() == 0 {
        seq![]
    } else {
        let front = images_replaced(blocks.drop_last(), placeholder);
        if !(blocks.last() is Image) {
            front.push(blocks.last())
        } else if ends_with_image(blocks.drop_last(), placeholder) {
            front
        } else {
            front.push(BlockView::Text { text: placeholder })
        }
    }
}

/// What stands for images in the messages of a role.
pub open spec fn image_placeholder(role: Role) -> Option<Seq<char>> {
    match role {
        Role::User => Some(NON_VISION_USER_IMAGE_PLACEHOLDER@),
        Role::Tool => Some(NON_VISION_TOOL_IMAGE_PLACEHOLDER@),
        _ => None,
    }
}

/// A message for a model that takes no images.
pub open spec fn without_images(m: MessageView) -> MessageView {
    match (image_placeholder(m.role), m.content) {
        (Some(placeholder), Some(ContentView::Blocks(blocks))) => MessageView {
            content: Some(ContentView::Blocks(images_replaced(blocks, placeholder))),
            ..m
        },
        _ => m,
    }
}

fn replace_images_with_placeholder(blocks: &Vec<ContentBlock>, placeholder: &str) -> (r: Vec<
    ContentBlock,
>)
    ensures
        r.deep_view() == images_replaced(blocks.deep_view(), placeholder@),
{
    let ghost all = blocks.deep_view();
    let mut result: Vec<ContentBlock> = Vec::new();
    let mut previous_was_placeholder: bool = false;
    let mut i: usize = 0;
    assert(all.take(0) =~= seq![]);
    assert(result.deep_view() =~= seq![]);
    while i < blocks.len()
        invariant
            all == blocks.deep_view(),
            i <= blocks@.len(),
            previous_was_placeholder == ends_with_image(all.take(i as int), placeholder@),
            result.deep_view() == images_replaced(all.take(i as int), placeholder@),
        decreases blocks@.len() - i,
    {
        assert(all.take(i + 1).drop_last() =~= all.take(i as int));
        assert(all.take(i + 1).last() == blocks@[i as int].deep_view());
        let ghost before = result.deep_view();
        match &blocks[i] {
            ContentBlock::Image { .. } => {
                if !previous_was_placeholder {
                    result.push(ContentBlock::Text { text: placeholder.to_owned() });
                    assert(result.deep_view() =~= before.push(
                        BlockView::Text { text: placeholder@ },
                    ));
                }
                previous_was_placeholder = true;
            },
            ContentBlock::Text { text } => {
                previous_was_placeholder = same_text(text, placeholder);
                let copy: ContentBlock = blocks[i].clone();
                result.push(copy);
                assert(result.deep_view() =~= before.push(all[i as int]));
            },
            _ => {
                previous_was_placeholder = false;
                let copy: ContentBlock = blocks[i].clone();
                result.push(copy);
                assert(result.deep_view() =~= before.push(all[i as int]));
            },
        }
        i = i + 1;
    }
    assert(all.take(all.len() as int) =~= all);
    result
}

/// A message for a model that takes no images.
fn downgrade_message(message: &Message) -> (r: Message)
    ensures
        r.deep_view() == without_images(message.deep_view()),
{
    let placeholder: &str = match message.role {
        Role::User => NON_VISION_USER_IMAGE_PLACEHOLDER,
        Role::Tool => NON_VISION_TOOL_IMAGE_PLACEHOLDER,
        _ => {
            return message.clone();
        },
    };
    let mut normalized: Message = message.clone();
    if let Some(MessageContent::Blocks(blocks)) = &message.content {
        normalized.content =
        Some(MessageContent::Blocks(replace_images_with_placeholder(blocks, placeholder)));
    }
    normalized
}

// ---------------------------------------------------------------------------
// Thinking
// ---------------------------------------------------------------------------

/// What stands for a thinking block where the provider takes none: its text, or
/// nothing where it was redacted or is blank.
pub open spec fn thinking_as_text(block: BlockView) -> Seq<BlockView> {
    match block {
        BlockView::Thinking { thinking, redacted, .. } => if redacted || trimmed(thinking).len()
            == 0 {
            seq![]
        } else {
            seq![BlockView::Text { text: thinking }]
        },
        _ => seq![block],
    }
}

/// Blocks with text in place of thinking.
pub open spec fn thinking_replaced(blocks: Seq<BlockView>) -> Seq<BlockView>
    decreases blocks.len(),
{
    if blocks.len() == 0 {
        seq![]
    } else {
        thinking_replaced(blocks.drop_last()) + thinking_as_text(blocks.last())
    }
}

/// A message for a provider that takes no thinking blocks.
pub open spec fn without_thinking(m: MessageView) -> MessageView {
    match m.content {
        Some(ContentView::Blocks(blocks)) => if m.role == Role::Assistant {
            MessageView {
                content: Some(ContentView::Blocks(thinking_replaced(blocks))),
                ..m
            }
        } else {
            m
        },
        _ => m,
    }
}

fn normalize_message_thinking_blocks(message: &Message) -> (r: Message)
    ensures
        r.deep_view() == without_thinking(message.deep_view()),
{
    let mut normalized: Message = message.clone();
    if message.role != Role::Assistant {
        return normalized;
    }
    if let Some(MessageContent::Blocks(blocks)) = &message.content {
        let ghost all = blocks.deep_view();
        let mut kept: Vec<ContentBlock> = Vec::new();
        let mut i: usize = 0;
        assert(all.take(0) =~= seq![]);
        assert(kept.deep_view() =~= seq![]);
        while i < blocks.len()
            invariant
                all == blocks.deep_view(),
                i <= blocks@.len(),
                kept.deep_view() == thinking_replaced(all.take(i as int)),
            decreases blocks@.len() - i,
        {
            assert(all.take(i + 1).drop_last() =~= all.take(i as int));
            assert(all.take(i + 1).last() == blocks@[i as int].deep_view());
            let ghost before = kept.deep_view();
            match &blocks[i] {
                ContentBlock::Thinking { thinking, redacted, .. } => {
                    if !*redacted && !trim(thinking).as_str().is_empty() {
                        kept.push(ContentBlock::Text { text: thinking.clone() });
                    }
                },
                other => {
                    let copy: ContentBlock = other.clone();
                    kept.push(copy);
                },
            }
            i = i + 1;
            assert(kept.deep_view() =~= before + thinking_as_text(all[i - 1]));
        }
        assert(all.take(all.len() as int) =~= all);
        normalized.content = Some(MessageContent::Blocks(kept));
    }
    normalized
}

// ---------------------------------------------------------------------------
// Tool call identifiers
// ---------------------------------------------------------------------------

/// Identifiers that were replaced, each with the one that took its place.
pub type Renames = Seq<(Seq<char>, Seq<char>)>;

/// What took the place of an identifier last.
pub open spec fn renamed(renames: Renames, id: Seq<char>) -> Option<Seq<char>>
    decreases renames.len(),
{
    if renames.len() == 0 {
        None
    } else if renames.last().0 == id {
        Some(renames.last().1)
    } else {
        renamed(renames.drop_last(), id)
    }
}

/// A tool call under its normalized identifier.
pub open spec fn call_normalized<N: ToolCallIdNormalizer>(
    n: N,
    call: ToolCallView,
    m: MessageView,
) -> ToolCallView {
    ToolCallView { id: n.normalized(call.id, m), ..call }
}

/// The renames after a tool call.
pub open spec fn renames_after_call<N: ToolCallIdNormalizer>(
    n: N,
    renames: Renames,
    call: ToolCallView,
    m: MessageView,
) -> Renames {
    if n.normalized(call.id, m) == call.id {
        renames
    } else {
        renames.push((call.id, n.normalized(call.id, m)))
    }
}

/// The renames after tool calls, one after the other.
pub open spec fn renames_after_calls<N: ToolCallIdNormalizer>(
    n: N,
    renames: Renames,
    calls: Seq<ToolCallView>,
    m: MessageView,
) -> Renames
    decreases calls.len(),
{
    if calls.len() == 0 {
        renames
    } else {
        renames_after_call(
            n,
            renames_after_calls(n, renames, calls.drop_last(), m),
            calls.last(),
            m,
        )
    }
}

/// A message with normalized identifiers: those of an assistant's calls are
/// normalized, and that of a tool result follows its call.
pub open spec fn ids_normalized<N: ToolCallIdNormalizer>(
    n: Option<N>,
    renames: Renames,
    m: MessageView,
) -> MessageView {
    match n {
        None => m,
        Some(n) => match m.role {
            Role::Assistant => MessageView {
                tool_calls: match m.tool_calls {
                    Some(calls) => Some(
                        calls.map_values(|call: ToolCallView| call_normalized(n, call, m)),
                    ),
                    None => None,
                },
                ..m
            },
            Role::Tool => match m.tool_call_id {
                Some(id) => match renamed(renames, id) {
                    Some(new_id) => MessageView { tool_call_id: Some(new_id), ..m },
                    None => m,
                },
                None => m,
            },
            _ => m,
        },
    }
}

/// The renames after a message.
pub open spec fn renames_after<N: ToolCallIdNormalizer>(
    n: Option<N>,
    renames: Renames,
    m: MessageView,
) -> Renames {
    match (n, m.tool_calls) {
        (Some(n), Some(calls)) => if m.role == Role::Assistant {
            renames_after_calls(n, renames, calls, m)
        } else {
            renames
        },
        _ => renames,
    }
}

fn normalize_tool_call<N: ToolCallIdNormalizer>(
    call: &ToolCall,
    source: &Message,
    normalizer: &N,
    renames: &mut Vec<(String, String)>,
) -> (r: ToolCall)
    ensures
        r.deep_view() == call_normalized(*normalizer, call.deep_view(), source.deep_view()),
        final(renames).deep_view() == renames_after_call(
            *normalizer,
            old(renames).deep_view(),
            call.deep_view(),
            source.deep_view(),
        ),
{
    let id: String = normalizer.normalize(&call.id, source);
    if same_text(&id, &call.id) {
        return call.clone();
    }
    let ghost before = renames.deep_view();
    renames.push((call.id.clone(), id.clone()));
    assert(renames.deep_view() =~= before.push((call.id@, id@)));
    ToolCall { id, function: call.function.clone() }
}

fn find_rename(renames: &Vec<(String, String)>, id: &str) -> (r: Option<String>)
    ensures
        r.deep_view() == renamed(renames.deep_view(), id@),
{
    let ghost all = renames.deep_view();
    let mut i: usize = renames.len();
    assert(all.take(all.len() as int) =~= all);
    while i > 0
        invariant
            all == renames.deep_view(),
            i <= renames@.len(),
            renamed(all.take(i as int), id@) == renamed(all, id@),
        decreases i,
    {
        i = i - 1;
        assert(all.take(i + 1).drop_last() =~= all.take(i as int));
        assert(all.take(i + 1).last() == renames@[i as int].deep_view());
        if same_text(&renames[i].0, id) {
            return Some(renames[i].1.clone());
        }
    }
    None
}

fn transform_message_tool_ids<N: ToolCallIdNormalizer>(
    message: &Message,
    normalizer: Option<&N>,
    renames: &mut Vec<(String, String)>,
) -> (r: Message)
    ensures
        r.deep_view() == ids_normalized(
            owned(normalizer),
            old(renames).deep_view(),
            message.deep_view(),
        ),
        final(renames).deep_view() == renames_after(
            owned(normalizer),
            old(renames).deep_view(),
            message.deep_view(),
        ),
{
    let mut normalized: Message = message.clone();
    let n: &N = match normalizer {
        Some(n) => n,
        None => {
            return normalized;
        },
    };
    match message.role {
        Role::Assistant => {
            if let Some(calls) = &message.tool_calls {
                let ghost all = calls.deep_view();
                let ghost m = message.deep_view();
                let ghost start = renames.deep_view();
                let ghost mapped = all.map_values(
                    |call: ToolCallView| call_normalized(*n, call, m),
                );
                let mut new_calls: Vec<ToolCall> = Vec::new();
                let mut i: usize = 0;
                assert(all.take(0) =~= seq![]);
                assert(new_calls.deep_view() =~= mapped.take(0));
                while i < calls.len()
                    invariant
                        all == calls.deep_view(),
                        m == message.deep_view(),
                        mapped == all.map_values(
                            |call: ToolCallView| call_normalized(*n, call, m),
                        ),
                        i <= calls@.len(),
                        new_calls.deep_view() == mapped.take(i as int),
                        renames.deep_view() == renames_after_calls(
                            *n,
                            start,
                            all.take(i as int),
                            m,
                        ),
                    decreases calls@.len() - i,
                {
                    assert(all.take(i + 1).drop_last() =~= all.take(i as int));
                    assert(all.take(i + 1).last() == calls@[i as int].deep_view());
                    let ghost before = new_calls.deep_view();
                    let call: ToolCall = normalize_tool_call(&calls[i], message, n, renames);
                    new_calls.push(call);
                    assert(new_calls.deep_view() =~= before.push(mapped[i as int]));
                    i = i + 1;
                    assert(new_calls.deep_view() =~= mapped.take(i as int));
                }
                assert(all.take(all.len() as int) =~= all);
                assert(mapped.take(mapped.len() as int) =~= mapped);
                normalized.tool_calls = Some(new_calls);
            }
            normalized
        },
        Role::Tool => {
            if let Some(id) = &message.tool_call_id {
                if let Some(new_id) = find_rename(renames, id) {
                    normalized.tool_call_id = Some(new_id);
                }
            }
            normalized
        },
        _ => normalized,
    }
}

/// A value behind an optional reference.
pub open spec fn owned<N>(n: Option<&N>) -> Option<N> {
    match n {
        Some(n) => Some(*n),
        None => None,
    }
}

// ---------------------------------------------------------------------------
// Missing tool results
// ---------------------------------------------------------------------------

/// The result of a tool call that no tool gave.
pub open spec fn synthetic_result(call: ToolCallView) -> MessageView {
    MessageView {
        role: Role::Tool,
        content: Some(ContentView::Text(SYNTHETIC_TOOL_RESULT_TEXT@)),
        tool_calls: None,
        tool_call_id: Some(call.id),
        name: Some(call.name),
    }
}

/// The results that are missing of calls, given those that are there.
pub open spec fn missing_results(calls: Seq<ToolCallView>, there: Seq<Seq<char>>) -> Seq<
    MessageView,
>
    decreases calls.len(),
{
    if calls.len() == 0 {
        seq![]
    } else {
        let front = missing_results(calls.drop_last(), there);
        if there.contains(calls.last().id) {
            front
        } else {
            front.push(synthetic_result(calls.last()))
        }
    }
}

/// Messages on the way to complete tool results: those so far, the calls of the
/// last assistant message, and the results that came for them.
pub struct Completion {
    pub result: Seq<MessageView>,
    pub pending: Seq<ToolCallView>,
    pub there: Seq<Seq<char>>,
}

/// The missing results put in.
pub open spec fn completed(c: Completion) -> Completion {
    Completion {
        result: c.result + missing_results(c.pending, c.there),
        pending: seq![],
        there: seq![],
    }
}

/// One more message taken in.
pub open spec fn completion_step(c: Completion, m: MessageView) -> Completion {
    match m.role {
        Role::Assistant => {
            let done = completed(c);
            Completion {
                result: done.result.push(m),
                pending: match m.tool_calls {
                    Some(calls) => calls,
                    None => seq![],
                },
                there: seq![],
            }
        },
        Role::Tool => Completion {
            result: c.result.push(m),
            pending: c.pending,
            there: match m.tool_call_id {
                Some(id) => c.there.push(id),
                None => c.there,
            },
        },
        Role::User => {
            let done = completed(c);
            Completion { result: done.result.push(m), ..done }
        },
        Role::System => Completion { result: c.result.push(m), ..c },
    }
}

/// Messages taken in, one after the other.
pub open spec fn completion(messages: Seq<MessageView>) -> Completion
    decreases messages.len(),
{
    if messages.len() == 0 {
        Completion { result: seq![], pending: seq![], there: seq![] }
    } else {
        completion_step(completion(messages.drop_last()), messages.last())
    }
}

/// Messages with a result for every tool call: those that are missing stand
/// before the next message of the assistant or the user, or at the end.
pub open spec fn results_completed(messages: Seq<MessageView>) -> Seq<MessageView> {
    completed(completion(messages)).result
}

fn insert_synthetic_tool_results(
    result: &mut Vec<Message>,
    pending: &Vec<ToolCall>,
    there: &Vec<String>,
)
    ensures
        final(result).deep_view() == old(result).deep_view() + missing_results(
            pending.deep_view(),
            there.deep_view(),
        ),
{
    let ghost all = pending.deep_view();
    let ghost start = result.deep_view();
    let mut i: usize = 0;
    assert(all.take(0) =~= seq![]);
    assert(start + missing_results(all.take(0), there.deep_view()) =~= start);
    while i < pending.len()
        invariant
            all == pending.deep_view(),
            i <= pending@.len(),
            result.deep_view() == start + missing_results(all.take(i as int), there.deep_view()),
        decreases pending@.len() - i,
    {
        assert(all.take(i + 1).drop_last() =~= all.take(i as int));
        assert(all.take(i + 1).last() == pending@[i as int].deep_view());
        let ghost before = result.deep_view();
        if !crate::text::list_contains(there, &pending[i].id) {
            let message: Message = Message {
                role: Role::Tool,
                content: Some(MessageContent::Text(SYNTHETIC_TOOL_RESULT_TEXT.to_owned())),
                tool_calls: None,
                tool_call_id: Some(pending[i].id.clone()),
                name: Some(pending[i].function.name.clone()),
            };
            result.push(message);
            assert(result.deep_view() =~= before.push(synthetic_result(all[i as int])));
        }
        i = i + 1;
        assert(result.deep_view() =~= start + missing_results(
            all.take(i as int),
            there.deep_view(),
        ));
    }
    assert(all.take(all.len() as int) =~= all);
}

fn synthesize_missing_tool_results(messages: Vec<Message>) -> (r: Vec<Message>)
    ensures
        r.deep_view() == results_completed(messages.deep_view()),
{
    let ghost all = messages.deep_view();
    let mut result: Vec<Message> = Vec::new();
    let mut pending: Vec<ToolCall> = Vec::new();
    let mut there: Vec<String> = Vec::new();
    assert(all.take(0) =~= seq![]);
    assert(result.deep_view() =~= seq![]);
    assert(pending.deep_view() =~= seq![]);
    assert(there.deep_view() =~= seq![]);
    for message in it: messages.into_iter()
        invariant
            it.seq() == messages@,
            all == messages.deep_view(),
            completion(all.take(it.index() as int)) == (Completion {
                result: result.deep_view(),
                pending: pending.deep_view(),
                there: there.deep_view(),
            }),
    {
        let ghost i = it.index() as int;
        let ghost m = message.deep_view();
        assert(message == messages@[i]);
        assert(all.take(i + 1).drop_last() =~= all.take(i));
        assert(all.take(i + 1).last() == m);
        match message.role {
            Role::Assistant => {
                insert_synthetic_tool_results(&mut result, &pending, &there);
                pending =
                match &message.tool_calls {
                    Some(calls) => {
                        let copy: Vec<ToolCall> = calls.clone();
                        assert(copy.deep_view() =~= calls.deep_view());
                        copy
                    },
                    None => {
                        let none: Vec<ToolCall> = Vec::new();
                        assert(none.deep_view() =~= seq![]);
                        none
                    },
                };
                there = Vec::new();
                assert(there.deep_view() =~= seq![]);
            },
            Role::Tool => {
                if let Some(id) = &message.tool_call_id {
                    let ghost before = there.deep_view();
                    there.push(id.clone());
                    assert(there.deep_view() =~= before.push(id@));
                }
            },
            Role::User => {
                insert_synthetic_tool_results(&mut result, &pending, &there);
                pending = Vec::new();
                there = Vec::new();
                assert(pending.deep_view() =~= seq![]);
                assert(there.deep_view() =~= seq![]);
            },
            Role::System => {},
        }
        let ghost before = result.deep_view();
        result.push(message);
        assert(result.deep_view() =~= before.push(m));
    }
    assert(all.take(all.len() as int) =~= all);
    insert_synthetic_tool_results(&mut result, &pending, &there);
    result
}

// ---------------------------------------------------------------------------
// Normalization
// ---------------------------------------------------------------------------

/// The model takes images.
pub open spec fn takes_images(input: Seq<ModelInputKind>) -> bool {
    input.contains(ModelInputKind::Image)
}

/// A message as the model and the provider take it, before its identifiers are
/// normalized.
pub open spec fn adapted(m: MessageView, images: bool, preserve_thinking: bool) -> MessageView {
    let m1 = if images {
        m
    } else {
        without_images(m)
    };
    if preserve_thinking {
        m1
    } else {
        without_thinking(m1)
    }
}

/// Messages as the model and the provider take them, with normalized
/// identifiers, and the renames that came of it.
pub open spec fn transformed<N: ToolCallIdNormalizer>(
    messages: Seq<MessageView>,
    images: bool,
    n: Option<N>,
    preserve_thinking: bool,
) -> (Seq<MessageView>, Renames)
    decreases messages.len(),
{
    if messages.len() == 0 {
        (seq![], seq![])
    } else {
        let (front, renames) = transformed(messages.drop_last(), images, n, preserve_thinking);
        let m = adapted(messages.last(), images, preserve_thinking);
        (front.push(ids_normalized(n, renames, m)), renames_after(n, renames, m))
    }
}

/// Normalized messages.
pub open spec fn normalized_messages<N: ToolCallIdNormalizer>(
    messages: Seq<MessageView>,
    input: Seq<ModelInputKind>,
    n: Option<N>,
    preserve_thinking: bool,
) -> Seq<MessageView> {
    results_completed(transformed(messages, takes_images(input), n, preserve_thinking).0)
}

fn supports_images(input: &Vec<ModelInputKind>) -> (r: bool)
    ensures
        r == takes_images(input@),
{
    let mut i: usize = 0;
    while i < input.len()
        invariant
            i <= input@.len(),
            forall|j: int| 0 <= j < i ==> input@[j] != ModelInputKind::Image,
        decreases input@.len() - i,
    {
        if input[i] == ModelInputKind::Image {
            assert(input@[i as int] == ModelInputKind::Image);
            return true;
        }
        i = i + 1;
    }
    false
}

/// Normalize messages using explicit model input capabilities.
///
/// Provider adapters can use this when they know the provider's input support
/// but do not have a full model catalog entry available at request-build time.
pub fn normalize_messages_with_input<N: ToolCallIdNormalizer>(
    messages: &Vec<Message>,
    input: &Vec<ModelInputKind>,
    normalize_tool_call_id: Option<&N>,
    preserve_thinking: bool,
) -> (r: Vec<Message>)
    ensures
        r.deep_view() == normalized_messages(
            messages.deep_view(),
            input@,
            owned(normalize_tool_call_id),
            preserve_thinking,
        ),
{
    let images: bool = supports_images(input);
    let ghost all = messages.deep_view();
    let ghost n = owned(normalize_tool_call_id);
    let mut renames: Vec<(String, String)> = Vec::new();
    let mut done: Vec<Message> = Vec::new();
    let mut i: usize = 0;
    assert(all.take(0) =~= seq![]);
    assert(renames.deep_view() =~= seq![]);
    assert(done.deep_view() =~= seq![]);
    while i < messages.len()
        invariant
            all == messages.deep_view(),
            n == owned(normalize_tool_call_id),
            i <= messages@.len(),
            (done.deep_view(), renames.deep_view()) == transformed(
                all.take(i as int),
                images,
                n,
                preserve_thinking,
            ),
        decreases messages@.len() - i,
    {
        assert(all.take(i + 1).drop_last() =~= all.take(i as int));
        assert(all.take(i + 1).last() == messages@[i as int].deep_view());
        let image_aware: Message = if images {
            messages[i].clone()
        } else {
            downgrade_message(&messages[i])
        };
        let message: Message = if preserve_thinking {
            image_aware
        } else {
            normalize_message_thinking_blocks(&image_aware)
        };
        assert(message.deep_view() == adapted(all[i as int], images, preserve_thinking));
        let ghost before = done.deep_view();
        let with_ids: Message = transform_message_tool_ids(
            &message,
            normalize_tool_call_id,
            &mut renames,
        );
        done.push(with_ids);
        assert(done.deep_view() =~= before.push(with_ids.deep_view()));
        i = i + 1;
    }
    assert(all.take(all.len() as int) =~= all);
    synthesize_missing_tool_results(done)
}

/// Normalize messages before provider-specific wire-format conversion.
///
/// This handles provider-neutral compatibility work: replacing unsupported
/// image blocks, normalizing tool call ids, updating matching tool results,
/// and synthesizing missing tool results for orphaned assistant tool calls.
pub fn normalize_messages<N: ToolCallIdNormalizer>(
    messages: &Vec<Message>,
    model: &Model,
    normalize_tool_call_id: Option<&N>,
) -> (r: Vec<Message>)
    ensures
        r.deep_view() == normalized_messages(
            messages.deep_view(),
            model.input@,
            owned(normalize_tool_call_id),
            false,
        ),
{
    normalize_messages_with_input(messages, &model.input, normalize_tool_call_id, false)
}

} // verus!
