//! Context window compaction for long conversations.
//!
//! When the conversation approaches the model's context window limit, this module
//! summarizes older messages and removes them, keeping recent messages intact.
//!
//! The compaction pipeline:
//! 1. [`should_compact`]: check if context is near the limit.
//! 2. [`find_cut_point`]: walk backwards to find a safe message boundary.
//! 3. [`prepare_compaction`]: split messages into to-summarize and to-keep.
//! 4. [`plan_compaction`]: build the requests for the summaries.
//! 5. [`finish_compaction`]: put the summaries that came back together.

use vstd::prelude::*;

use crate::error::{CompactionError, ErrorView, PiError};
use crate::json::{Json, JsonNumber, JsonNumberView, JsonView};
use crate::text::{decimal, decimal_text, join, join_text, replace_text, replaced};
use crate::token_estimation::{
    capped, estimate_tokens, estimated, sum_tokens_saturating, total_estimated,
};
use crate::types::{
    model_parts, text_message, AgentConfig, BlockView, ContentBlock, ContentView, Message,
    MessageContent, MessageView, ModelId, Role, ToolCall, ToolCallView,
};

verus! {

// ---------------------------------------------------------------------------
// Settings
// ---------------------------------------------------------------------------

/// Settings for the compaction system.
#[derive(Debug, Clone, Copy, PartialEq, Eq)]
pub struct CompactionSettings {
    /// Token budget reserved for model response (default 16384).
    pub reserve_tokens: u32,
    /// Tokens to keep from recent messages (default 20000).
    pub keep_recent_tokens: u32,
    /// Whether compaction is enabled.
    pub enabled: bool,
    /// Override the context window size. If None, falls back to max(max_tokens, 128_000).
    pub context_window: Option<u32>,
}

impl Default for CompactionSettings {
    fn default() -> (r: Self)
        ensures
            r == (CompactionSettings {
                reserve_tokens: 16_384,
                keep_recent_tokens: 20_000,
                enabled: true,
                context_window: None,
            }),
    {
        CompactionSettings {
            reserve_tokens: 16_384,
            keep_recent_tokens: 20_000,
            enabled: true,
            context_window: None,
        }
    }
}

/// Prepared compaction data before summarization.
#[derive(Debug)]
pub struct CompactionPreparation {
    /// Index of the first message to keep (not summarize).
    pub first_kept_message_index: usize,
    /// Messages that will be summarized.
    pub messages_to_summarize: Vec<Message>,
    /// Turn prefix messages for a split turn (empty if not split).
    pub turn_prefix_messages: Vec<Message>,
    /// Whether the cut point split a tool-call turn.
    pub is_split_turn: bool,
    /// Total tokens before compaction.
    pub tokens_before: u32,
}

/// What a preparation holds.
pub struct PreparationView {
    pub first_kept_message_index: int,
    pub messages_to_summarize: Seq<MessageView>,
    pub turn_prefix_messages: Seq<MessageView>,
    pub is_split_turn: bool,
    pub tokens_before: u32,
}

impl DeepView for CompactionPreparation {
    type V = PreparationView;

    open spec fn deep_view(&self) -> PreparationView {
        PreparationView {
            first_kept_message_index: self.first_kept_message_index as int,
            messages_to_summarize: self.messages_to_summarize.deep_view(),
            turn_prefix_messages: self.turn_prefix_messages.deep_view(),
            is_split_turn: self.is_split_turn,
            tokens_before: self.tokens_before,
        }
    }
}

/// Result of a compaction operation.
#[derive(Debug, PartialEq)]
pub struct CompactionResult {
    /// The generated summary text.
    pub summary: String,
    /// Index of the first kept message.
    pub first_kept_message_index: usize,
    /// Token count before compaction.
    pub tokens_before: u32,
    /// Token count after compaction (summary + kept messages).
    pub tokens_after: u32,
}

impl Clone for CompactionResult {
    fn clone(&self) -> (r: Self)
        ensures
            r == *self,
    {
        CompactionResult {
            summary: self.summary.clone(),
            first_kept_message_index: self.first_kept_message_index,
            tokens_before: self.tokens_before,
            tokens_after: self.tokens_after,
        }
    }
}

// ---------------------------------------------------------------------------
// Cut-point algorithm
// ---------------------------------------------------------------------------

/// The last message, from `start` up to before `end`, from which on the messages
/// come to at least `keep` tokens.
pub open spec fn budget_cut(messages: Seq<MessageView>, keep: u32, start: int, end: int) -> Option<
    int,
>
    decreases end - start,
{
    if end <= start {
        None
    } else if total_estimated(messages.skip(end - 1)) >= keep {
        Some(end - 1)
    } else {
        budget_cut(messages, keep, start, end - 1)
    }
}

/// An assistant message with a tool result right after it.
pub open spec fn is_mid_turn(messages: Seq<MessageView>, i: int) -> bool {
    i + 1 < messages.len() && messages[i + 1].role == Role::Tool
}

/// The first message at or after `cut` at which the kept messages may start: a
/// user message, or an assistant message that no tool result follows.
pub open spec fn boundary(messages: Seq<MessageView>, cut: int) -> int
    decreases messages.len() - cut,
{
    if cut >= messages.len() {
        messages.len() as int
    } else {
        match messages[cut].role {
            Role::User => cut,
            Role::Assistant => if is_mid_turn(messages, cut) {
                boundary(messages, cut + 1)
            } else {
                cut
            },
            _ => boundary(messages, cut + 1),
        }
    }
}

/// The last assistant message with tool calls before `end`.
pub open spec fn owner_before(messages: Seq<MessageView>, end: int) -> Option<int>
    decreases end,
{
    if end <= 0 {
        None
    } else if messages[end - 1].role == Role::Assistant && messages[end - 1].tool_calls is Some {
        Some(end - 1)
    } else {
        owner_before(messages, end - 1)
    }
}

/// Where the kept messages start, and whether a turn is split there: at the
/// boundary after the token budget is used up. Where there is none and the last
/// message is a tool result, a turn is split at the assistant message that called
/// the tool.
pub open spec fn cut_point(
    messages: Seq<MessageView>,
    keep_recent_tokens: u32,
    start_after_index: Option<usize>,
) -> Option<(int, bool)> {
    let start = match start_after_index {
        Some(i) => i as int,
        None => 0,
    };
    match budget_cut(messages, keep_recent_tokens, start, messages.len() as int) {
        None => None,
        Some(raw) => {
            let b = boundary(messages, raw);
            if b < messages.len() {
                Some((b, false))
            } else if messages.last().role == Role::Tool {
                match owner_before(messages, messages.len() - 1) {
                    Some(owner) => Some((owner, true)),
                    None => None,
                }
            } else {
                None
            }
        },
    }
}

/// What a cut point holds.
pub open spec fn cut_view(r: Option<(usize, bool)>) -> Option<(int, bool)> {
    match r {
        Some((i, split)) => Some((i as int, split)),
        None => None,
    }
}

/// Find the cut point by walking backwards from recent messages.
///
/// Returns `(first_kept_message_index, is_split_turn)`.
///
/// Walks backwards accumulating tokens until `keep_recent_tokens` is reached,
/// then finds the nearest valid boundary (user/assistant message) at or after
/// that point. Never cuts between a tool_use assistant message and its
/// corresponding tool_result.
pub fn find_cut_point(
    messages: &Vec<Message>,
    keep_recent_tokens: u32,
    start_after_index: Option<usize>,
) -> (r: Option<(usize, bool)>)
    ensures
        cut_view(r) == cut_point(messages.deep_view(), keep_recent_tokens, start_after_index),
        r matches Some(found) ==> found.0 < messages@.len(),
{
    let ghost views = messages.deep_view();
    let start: usize = match start_after_index {
        Some(i) => i,
        None => 0,
    };
    if messages.len() <= start {
        return None;
    }
    let mut accumulated: u32 = 0;
    let mut raw: usize = messages.len();
    let mut found: bool = false;
    assert(views.skip(views.len() as int) =~= seq![]);
    while raw > start && !found
        invariant
            views == messages.deep_view(),
            start <= raw <= messages@.len(),
            accumulated == capped(total_estimated(views.skip(raw as int))),
            found ==> raw < messages@.len() && budget_cut(
                views,
                keep_recent_tokens,
                start as int,
                views.len() as int,
            ) == Some(raw as int),
            !found ==> budget_cut(views, keep_recent_tokens, start as int, views.len() as int)
                == budget_cut(views, keep_recent_tokens, start as int, raw as int),
        decreases raw + if found {
            0int
        } else {
            1int
        },
    {
        raw = raw - 1;
        proof {
            lemma_total_front(views, raw as int);
        }
        accumulated = accumulated.saturating_add(estimate_tokens(&messages[raw]));
        if accumulated >= keep_recent_tokens {
            found = true;
        }
    }
    if !found {
        return None;
    }
    let mut cut: usize = raw;
    let mut moving: bool = true;
    while moving && cut < messages.len()
        invariant
            views == messages.deep_view(),
            cut <= messages@.len(),
            moving ==> boundary(views, raw as int) == boundary(views, cut as int),
            !moving ==> boundary(views, raw as int) == cut && cut < messages@.len(),
        decreases messages@.len() - cut + if moving {
            1int
        } else {
            0int
        },
    {
        match messages[cut].role {
            Role::User => {
                moving = false;
            },
            Role::Assistant => {
                if cut < messages.len() - 1 && messages[cut + 1].role == Role::Tool {
                    cut = cut + 1;
                } else {
                    moving = false;
                }
            },
            _ => {
                cut = cut + 1;
            },
        }
    }
    if cut < messages.len() {
        return Some((cut, false));
    }
    cut = messages.len() - 1;
    if messages[cut].role == Role::Tool {
        let mut back: usize = cut;
        let ghost whole = cut_point(views, keep_recent_tokens, start_after_index);
        while back > 0
            invariant
                views == messages.deep_view(),
                whole == cut_point(views, keep_recent_tokens, start_after_index),
                whole == match owner_before(views, cut as int) {
                    Some(owner) => Some((owner, true)),
                    None => None,
                },
                back <= cut < messages@.len(),
                owner_before(views, cut as int) == owner_before(views, back as int),
            decreases back,
        {
            back = back - 1;
            if messages[back].role == Role::Assistant && messages[back].tool_calls.is_some() {
                return Some((back, true));
            }
        }
    }
    None
}

/// The estimate of messages is that of the first one and that of the rest.
proof fn lemma_total_front(messages: Seq<MessageView>, i: int)
    requires
        0 <= i < messages.len(),
    ensures
        total_estimated(messages.skip(i)) == estimated(messages[i]) + total_estimated(
            messages.skip(i + 1),
        ),
{
    lemma_total_first(messages.skip(i));
    assert(messages.skip(i).skip(1) =~= messages.skip(i + 1));
}

proof fn lemma_total_first(messages: Seq<MessageView>)
    requires
        messages.len() > 0,
    ensures
        total_estimated(messages) == estimated(messages[0]) + total_estimated(messages.skip(1)),
    decreases messages.len(),
{
    if messages.len() == 1 {
        assert(messages.skip(1) =~= seq![]);
        assert(messages.drop_last() =~= seq![]);
    } else {
        lemma_total_first(messages.drop_last());
        assert(messages.drop_last().skip(1) =~= messages.skip(1).drop_last());
        assert(messages.skip(1).last() == messages.last());
    }
}

/// The kept messages start with a user or an assistant message, so that a tool
/// result stays with the assistant message that called for it. The cut lies within
/// the messages. Where no turn is split, it does not come before the messages that
/// are looked at, and what follows the first kept message is less than the budget.
pub proof fn law_cut_keeps_results_with_calls(
    messages: Seq<MessageView>,
    keep_recent_tokens: u32,
    start_after_index: Option<usize>,
)
    ensures
        match cut_point(messages, keep_recent_tokens, start_after_index) {
            Some((cut, split)) => {
                &&& 0 <= cut < messages.len()
                &&& messages[cut].role == Role::User || messages[cut].role == Role::Assistant
                &&& split ==> messages[cut].role == Role::Assistant && messages[cut].tool_calls is Some
                &&& !split && cut + 1 < messages.len() && messages[cut].role == Role::Assistant
                    ==> messages[cut + 1].role != Role::Tool
                &&& !split && start_after_index is Some ==> cut >= start_after_index->0
                &&& !split && keep_recent_tokens > 0 ==> total_estimated(messages.skip(cut + 1))
                    < keep_recent_tokens
            },
            None => true,
        },
{
    let start = match start_after_index {
        Some(i) => i as int,
        None => 0,
    };
    assert(messages.skip(messages.len() as int) =~= seq![]);
    lemma_budget_cut_range(messages, keep_recent_tokens, start, messages.len() as int);
    match budget_cut(messages, keep_recent_tokens, start, messages.len() as int) {
        Some(raw) => {
            lemma_boundary_range(messages, raw);
            let b = boundary(messages, raw);
            lemma_owner_range(messages, messages.len() - 1);
            if b < messages.len() {
                lemma_total_shrinks(messages, raw + 1, b + 1);
            }
        },
        None => {},
    }
}

proof fn lemma_budget_cut_range(messages: Seq<MessageView>, keep: u32, start: int, end: int)
    requires
        0 <= start,
        end <= messages.len(),
        keep > 0 ==> total_estimated(messages.skip(end)) < keep,
    ensures
        match budget_cut(messages, keep, start, end) {
            Some(i) => {
                &&& start <= i < end
                &&& total_estimated(messages.skip(i)) >= keep
                &&& keep > 0 ==> total_estimated(messages.skip(i + 1)) < keep
            },
            None => true,
        },
    decreases end - start,
{
    if end > start {
        if total_estimated(messages.skip(end - 1)) < keep {
            lemma_budget_cut_range(messages, keep, start, end - 1);
        }
    }
}

/// Fewer messages are no larger.
proof fn lemma_total_shrinks(messages: Seq<MessageView>, i: int, j: int)
    requires
        0 <= i <= j <= messages.len(),
    ensures
        total_estimated(messages.skip(j)) <= total_estimated(messages.skip(i)),
    decreases j - i,
{
    if i < j {
        lemma_total_front(messages, i);
        lemma_total_shrinks(messages, i + 1, j);
    }
}

proof fn lemma_boundary_range(messages: Seq<MessageView>, cut: int)
    requires
        0 <= cut,
    ensures
        boundary(messages, cut) >= cut || boundary(messages, cut) == messages.len(),
        boundary(messages, cut) <= messages.len(),
        boundary(messages, cut) >= 0,
        boundary(messages, cut) < messages.len() ==> {
            let b = boundary(messages, cut);
            messages[b].role == Role::User || (messages[b].role == Role::Assistant && !is_mid_turn(
                messages,
                b,
            ))
        },
    decreases messages.len() - cut,
{
    if cut < messages.len() {
        lemma_boundary_range(messages, cut + 1);
    }
}

proof fn lemma_owner_range(messages: Seq<MessageView>, end: int)
    ensures
        match owner_before(messages, end) {
            Some(i) => 0 <= i < end && messages[i].role == Role::Assistant
                && messages[i].tool_calls is Some,
            None => true,
        },
    decreases end,
{
    if end > 0 {
        lemma_owner_range(messages, end - 1);
    }
}

// ---------------------------------------------------------------------------
// Preparation
// ---------------------------------------------------------------------------

/// Check whether compaction should trigger given current context size.
pub fn should_compact(context_tokens: u32, context_window: u32, settings: &CompactionSettings) -> (r:
    bool)
    ensures
        r == wants_compaction(context_tokens, context_window, *settings),
{
    if !settings.enabled {
        return false;
    }
    context_tokens > context_window.saturating_sub(settings.reserve_tokens)
}

/// Compaction is enabled, and the context leaves less of the window than is
/// reserved for the response.
pub open spec fn wants_compaction(
    context_tokens: u32,
    context_window: u32,
    settings: CompactionSettings,
) -> bool {
    &&& settings.enabled
    &&& context_tokens > if context_window >= settings.reserve_tokens {
        context_window - settings.reserve_tokens
    } else {
        0
    }
}

/// A larger context never wants compaction less.
pub proof fn law_compaction_monotone(
    smaller: u32,
    larger: u32,
    context_window: u32,
    settings: CompactionSettings,
)
    requires
        smaller <= larger,
        wants_compaction(smaller, context_window, settings),
    ensures
        wants_compaction(larger, context_window, settings),
{
}

/// The user message that started the turn at `i`: the last one at or before it,
/// or the first message where there is none.
pub open spec fn turn_start(messages: Seq<MessageView>, i: int) -> int
    decreases i,
{
    if i <= 0 || messages[i].role == Role::User {
        i
    } else {
        turn_start(messages, i - 1)
    }
}

/// How messages are split for a compaction.
pub open spec fn prepared(
    messages: Seq<MessageView>,
    settings: CompactionSettings,
    previous_first_kept_index: Option<usize>,
) -> Option<PreparationView> {
    match cut_point(messages, settings.keep_recent_tokens, previous_first_kept_index) {
        None => None,
        Some((cut, split)) => {
            let history = if split {
                turn_start(messages, cut)
            } else {
                cut
            };
            Some(
                PreparationView {
                    first_kept_message_index: cut,
                    messages_to_summarize: messages.take(history),
                    turn_prefix_messages: messages.subrange(history, cut),
                    is_split_turn: split,
                    tokens_before: capped(total_estimated(messages)),
                },
            )
        },
    }
}

/// A copy of the messages from `start` up to before `end`.
fn clone_range(messages: &Vec<Message>, start: usize, end: usize) -> (r: Vec<Message>)
    requires
        start <= end <= messages@.len(),
    ensures
        r.deep_view() == messages.deep_view().subrange(start as int, end as int),
{
    let ghost views = messages.deep_view();
    let mut r: Vec<Message> = Vec::new();
    let mut i: usize = start;
    assert(r.deep_view() =~= views.subrange(start as int, i as int));
    while i < end
        invariant
            views == messages.deep_view(),
            start <= i <= end <= messages@.len(),
            r.deep_view() == views.subrange(start as int, i as int),
        decreases end - i,
    {
        let ghost before = r.deep_view();
        let message: Message = messages[i].clone();
        r.push(message);
        assert(r.deep_view() =~= before.push(views[i as int]));
        i = i + 1;
        assert(r.deep_view() =~= views.subrange(start as int, i as int));
    }
    r
}

/// Prepare compaction: find the cut point and collect messages into
/// to-summarize and to-keep buckets.
///
/// `previous_first_kept_index` is the index from a prior compaction (if any):
/// messages before it are already summarized and should be skipped.
pub fn prepare_compaction(
    messages: &Vec<Message>,
    settings: &CompactionSettings,
    previous_first_kept_index: Option<usize>,
) -> (r: Option<CompactionPreparation>)
    ensures
        r.deep_view() == prepared(messages.deep_view(), *settings, previous_first_kept_index),
        r is Some ==> r->0.first_kept_message_index < messages@.len(),
{
    let ghost views = messages.deep_view();
    let (cut, split): (usize, bool) = match find_cut_point(
        messages,
        settings.keep_recent_tokens,
        previous_first_kept_index,
    ) {
        Some(found) => found,
        None => {
            return None;
        },
    };
    let mut history: usize = cut;
    if split {
        while history > 0 && messages[history].role != Role::User
            invariant
                views == messages.deep_view(),
                history <= cut < messages@.len(),
                turn_start(views, cut as int) == turn_start(views, history as int),
            decreases history,
        {
            history = history - 1;
        }
    }
    let messages_to_summarize: Vec<Message> = clone_range(messages, 0, history);
    let turn_prefix_messages: Vec<Message> = clone_range(messages, history, cut);
    assert(views.subrange(0, history as int) =~= views.take(history as int));
    Some(
        CompactionPreparation {
            first_kept_message_index: cut,
            messages_to_summarize,
            turn_prefix_messages,
            is_split_turn: split,
            tokens_before: sum_tokens_saturating(messages),
        },
    )
}

/// What is summarized and what is kept make up all messages, in order.
pub proof fn law_preparation_loses_nothing(
    messages: Seq<MessageView>,
    settings: CompactionSettings,
    previous_first_kept_index: Option<usize>,
)
    ensures
        match prepared(messages, settings, previous_first_kept_index) {
            Some(p) => p.messages_to_summarize + p.turn_prefix_messages + messages.skip(
                p.first_kept_message_index,
            ) == messages,
            None => true,
        },
{
    law_cut_keeps_results_with_calls(
        messages,
        settings.keep_recent_tokens,
        previous_first_kept_index,
    );
    match prepared(messages, settings, previous_first_kept_index) {
        Some(p) => {
            let cut = p.first_kept_message_index;
            lemma_turn_start_range(messages, cut);
            assert(p.messages_to_summarize + p.turn_prefix_messages + messages.skip(cut)
                =~= messages);
        },
        None => {},
    }
}

proof fn lemma_turn_start_range(messages: Seq<MessageView>, i: int)
    requires
        0 <= i,
    ensures
        0 <= turn_start(messages, i) <= i,
    decreases i,
{
    if i > 0 && messages[i].role != Role::User {
        lemma_turn_start_range(messages, i - 1);
    }
}


// ---------------------------------------------------------------------------
// Summarization prompts
// ---------------------------------------------------------------------------

/// System prompt for summarization.
pub const SUMMARIZATION_SYSTEM_PROMPT: &'static str = "You are a conversation summarizer for a coding assistant. Your goal is to produce a concise but information-dense summary of the conversation history. The summary will be used by the assistant to continue working effectively after context compaction.";

/// Initial summarization prompt (no previous summary).
pub const SUMMARIZATION_PROMPT: &'static str = "Please summarize the following conversation into a structured checkpoint. Include these sections:

**Goal:** What is the user trying to accomplish?
**Constraints & Preferences:** Any stated requirements, style preferences, or technical constraints.
**Progress:**
- Done: Completed tasks and changes
- In Progress: Current work
- Blocked: Any blockers or open questions
**Key Decisions:** Important technical decisions made during the conversation.
**Next Steps:** What should happen next.
**Critical Context:** File paths, function names, error messages, or other details essential for continuity.

Be specific. Include file paths, function names, error messages, and concrete details. Do NOT use vague language like \"various files\" or \"some changes\".";

/// Update summarization prompt (with previous summary).
pub const UPDATE_SUMMARIZATION_PROMPT: &'static str = "A previous compaction produced the following summary:

<previous_summary>
{previous_summary}
</previous_summary>

New messages have been exchanged since then. Please produce an updated summary that incorporates both the previous context and the new conversation. Use the same structured format as before.";

/// Turn-prefix summarization prompt for split turns.
pub const TURN_PREFIX_SUMMARIZATION_PROMPT: &'static str = "The conversation was split mid-turn during compaction. Please summarize the following early portion of the current turn. Focus on: what the user asked, what tools were called, and any intermediate results. Keep it brief but include concrete details (file paths, function names, error messages).";

// ---------------------------------------------------------------------------
// Serialization
// ---------------------------------------------------------------------------

/// The label of a message in a serialized conversation.
pub open spec fn role_label(m: MessageView) -> Seq<char> {
    match m.role {
        Role::User => "[User]"@,
        Role::Assistant => if m.tool_calls is Some {
            "[Assistant tool calls]"@
        } else {
            "[Assistant]"@
        },
        Role::Tool => "[Tool result]"@,
        Role::System => "[System]"@,
    }
}

/// The text of text blocks and tool results, one after the other.
pub open spec fn spoken_blocks(blocks: Seq<BlockView>) -> Seq<char>
    decreases blocks.len(),
{
    if blocks.len() == 0 {
        seq![]
    } else {
        spoken_blocks(blocks.drop_last()) + match blocks.last() {
            BlockView::Text { text } => text,
            BlockView::ToolResult { content, .. } => content,
            _ => seq![],
        }
    }
}

/// The text of a message's content in a serialized conversation.
pub open spec fn spoken(content: Option<ContentView>) -> Seq<char> {
    match content {
        Some(ContentView::Text(t)) => t,
        Some(ContentView::Blocks(b)) => spoken_blocks(b),
        None => seq![],
    }
}

/// A tool call in a serialized conversation.
pub open spec fn call_text(call: ToolCallView) -> Seq<char> {
    call.name + "("@ + call.arguments + ")"@
}

/// The content and the tool calls of a message in a serialized conversation.
pub open spec fn message_line(m: MessageView) -> Seq<char> {
    let text = spoken(m.content);
    match m.tool_calls {
        None => text,
        Some(calls) => {
            let listed = join(calls.map_values(|c: ToolCallView| call_text(c)), "\n"@);
            if text.len() == 0 {
                listed
            } else {
                text + "\n"@ + listed
            }
        },
    }
}

/// A conversation as text: each message that says anything, under its label.
pub open spec fn serialized(messages: Seq<MessageView>) -> Seq<char>
    decreases messages.len(),
{
    if messages.len() == 0 {
        seq![]
    } else {
        let m = messages.last();
        serialized(messages.drop_last()) + if message_line(m).len() == 0 {
            seq![]
        } else {
            role_label(m) + ": "@ + message_line(m) + "\n\n"@
        }
    }
}

fn spoken_text(content: &Option<MessageContent>) -> (r: String)
    ensures
        r@ == spoken(content.deep_view()),
{
    match content {
        Some(MessageContent::Text(t)) => t.clone(),
        Some(MessageContent::Blocks(blocks)) => {
            let ghost all = blocks.deep_view();
            let mut r: String = String::new();
            let mut i: usize = 0;
            assert(all.take(0) =~= seq![]);
            while i < blocks.len()
                invariant
                    all == blocks.deep_view(),
                    i <= blocks@.len(),
                    r@ == spoken_blocks(all.take(i as int)),
                decreases blocks@.len() - i,
            {
                assert(all.take(i + 1).drop_last() =~= all.take(i as int));
                assert(all.take(i + 1).last() == blocks@[i as int].deep_view());
                let ghost before = r@;
                assert(before + seq![] =~= before);
                match &blocks[i] {
                    ContentBlock::Text { text } => {
                        r.push_str(text);
                    },
                    ContentBlock::ToolResult { content, .. } => {
                        r.push_str(content);
                    },
                    _ => {},
                }
                i = i + 1;
            }
            assert(all.take(all.len() as int) =~= all);
            r
        },
        None => String::new(),
    }
}

fn calls_text(calls: &Vec<ToolCall>) -> (r: String)
    ensures
        r@ == join(calls.deep_view().map_values(|c: ToolCallView| call_text(c)), "\n"@),
{
    let ghost texts = calls.deep_view().map_values(|c: ToolCallView| call_text(c));
    let mut parts: Vec<String> = Vec::new();
    let mut i: usize = 0;
    assert(parts.deep_view() =~= texts.take(0));
    while i < calls.len()
        invariant
            texts == calls.deep_view().map_values(|c: ToolCallView| call_text(c)),
            i <= calls@.len(),
            parts.deep_view() == texts.take(i as int),
        decreases calls@.len() - i,
    {
        let ghost before = parts.deep_view();
        let mut part: String = calls[i].function.name.clone();
        part.push_str("(");
        part.push_str(&calls[i].function.arguments);
        part.push_str(")");
        assert(part@ == texts[i as int]);
        parts.push(part);
        assert(parts.deep_view() =~= before.push(texts[i as int]));
        i = i + 1;
        assert(parts.deep_view() =~= texts.take(i as int));
    }
    assert(texts.take(texts.len() as int) =~= texts);
    join_text(&parts, "\n")
}

/// Serialize conversation messages to text for summarization.
pub fn serialize_conversation(messages: &Vec<Message>) -> (r: String)
    ensures
        r@ == serialized(messages.deep_view()),
{
    let ghost all = messages.deep_view();
    let mut output: String = String::new();
    let mut i: usize = 0;
    assert(all.take(0) =~= seq![]);
    while i < messages.len()
        invariant
            all == messages.deep_view(),
            i <= messages@.len(),
            output@ == serialized(all.take(i as int)),
        decreases messages@.len() - i,
    {
        assert(all.take(i + 1).drop_last() =~= all.take(i as int));
        assert(all.take(i + 1).last() == messages@[i as int].deep_view());
        let msg: &Message = &messages[i];
        let ghost before = output@;
        let label: &str = match msg.role {
            Role::User => "[User]",
            Role::Assistant => if msg.tool_calls.is_some() {
                "[Assistant tool calls]"
            } else {
                "[Assistant]"
            },
            Role::Tool => "[Tool result]",
            Role::System => "[System]",
        };
        let text: String = spoken_text(&msg.content);
        let line: String = match &msg.tool_calls {
            Some(calls) => {
                let listed: String = calls_text(calls);
                if text.as_str().is_empty() {
                    listed
                } else {
                    let mut both: String = text;
                    both.push_str("\n");
                    both.push_str(&listed);
                    both
                }
            },
            None => text,
        };
        assert(line@ == message_line(msg.deep_view()));
        if !line.as_str().is_empty() {
            output.push_str(label);
            output.push_str(": ");
            output.push_str(&line);
            output.push_str("\n\n");
            assert(output@ =~= before + (role_label(msg.deep_view()) + ": "@ + line@ + "\n\n"@));
        } else {
            assert(before + seq![] =~= before);
        }
        i = i + 1;
    }
    assert(all.take(all.len() as int) =~= all);
    output
}

// ---------------------------------------------------------------------------
// Requests for summaries
// ---------------------------------------------------------------------------

/// What a provider is asked for a summary: the messages and the configuration.
#[derive(Debug)]
pub struct SummaryRequest {
    /// The system prompt, then the prompt with the conversation.
    pub messages: Vec<Message>,
    /// The configuration of the request.
    pub config: AgentConfig,
}

/// A request for a summary asks a model with a prompt for at most so many
/// tokens.
pub open spec fn asks_for_summary(
    r: SummaryRequest,
    model: Seq<char>,
    prompt: Seq<char>,
    max_tokens: u32,
) -> bool {
    &&& r.messages.deep_view() == seq![
        text_message(Role::System, SUMMARIZATION_SYSTEM_PROMPT@),
        text_message(Role::User, prompt),
    ]
    &&& r.config.model.deep_view() == match model_parts(model) {
        Some(parts) => parts,
        None => ("unknown"@, model),
    }
    &&& r.config.max_tokens == Some(max_tokens)
    &&& r.config.temperature.deep_view() == Some(
        JsonView::Number(JsonNumberView::Real("0.3"@)),
    )
    &&& r.config.system_prompt is None
    &&& r.config.max_iterations == 1
}

/// Build the request that asks a model for a summary.
pub fn summary_request(model: &str, user_prompt: String, max_tokens: u32) -> (r: SummaryRequest)
    ensures
        asks_for_summary(r, model@, user_prompt@, max_tokens),
{
    let mut messages: Vec<Message> = Vec::new();
    messages.push(Message::text(Role::System, SUMMARIZATION_SYSTEM_PROMPT.to_owned()));
    messages.push(Message::text(Role::User, user_prompt));
    assert(messages.deep_view() =~= seq![
        text_message(Role::System, SUMMARIZATION_SYSTEM_PROMPT@),
        text_message(Role::User, user_prompt@),
    ]);
    let model_id: ModelId = match ModelId::parse(model) {
        Some(id) => id,
        None => ModelId::new("unknown", model),
    };
    SummaryRequest {
        messages,
        config: AgentConfig {
            model: model_id,
            max_tokens: Some(max_tokens),
            temperature: Some(Json::Number(JsonNumber::Real("0.3".to_owned()))),
            system_prompt: None,
            max_iterations: 1,
        },
    }
}

/// The prompt for a summary of a conversation.
pub open spec fn summary_prompt(
    messages: Seq<MessageView>,
    previous_summary: Option<Seq<char>>,
) -> Seq<char> {
    (match previous_summary {
        Some(previous) => replaced(
            UPDATE_SUMMARIZATION_PROMPT@,
            "{previous_summary}"@,
            previous,
        ),
        None => SUMMARIZATION_PROMPT@,
    }) + "\n\n"@ + serialized(messages)
}

/// The prompt for a summary of the start of a split turn.
pub open spec fn turn_prefix_prompt(messages: Seq<MessageView>) -> Seq<char> {
    TURN_PREFIX_SUMMARIZATION_PROMPT@ + "\n\n"@ + serialized(messages)
}

/// Ask for a summary of messages.
pub fn generate_summary(
    model: &str,
    messages: &Vec<Message>,
    previous_summary: Option<&str>,
    max_tokens: u32,
) -> (r: SummaryRequest)
    ensures
        asks_for_summary(
            r,
            model@,
            summary_prompt(messages.deep_view(), previous_summary.deep_view()),
            max_tokens,
        ),
{
    let mut prompt: String = match previous_summary {
        Some(previous) => {
            proof {
                reveal_strlit("{previous_summary}");
            }
            replace_text(UPDATE_SUMMARIZATION_PROMPT, "{previous_summary}", previous)
        },
        None => SUMMARIZATION_PROMPT.to_owned(),
    };
    prompt.push_str("\n\n");
    prompt.push_str(&serialize_conversation(messages));
    summary_request(model, prompt, max_tokens)
}

/// Ask for a turn-prefix summary for split turns.
pub fn generate_turn_prefix_summary(model: &str, messages: &Vec<Message>, max_tokens: u32) -> (r:
    SummaryRequest)
    ensures
        asks_for_summary(r, model@, turn_prefix_prompt(messages.deep_view()), max_tokens),
{
    let mut prompt: String = TURN_PREFIX_SUMMARIZATION_PROMPT.to_owned();
    prompt.push_str("\n\n");
    prompt.push_str(&serialize_conversation(messages));
    summary_request(model, prompt, max_tokens)
}

/// The requests that a compaction makes.
#[derive(Debug)]
pub struct CompactionPlan {
    /// The request for the summary of the history.
    pub history: SummaryRequest,
    /// The request for the summary of the start of a split turn.
    pub turn_prefix: Option<SummaryRequest>,
}

/// The tokens that a summary may take: four fifths of those reserved for the
/// response.
pub open spec fn summary_budget(reserve_tokens: u32) -> u32 {
    (4 * reserve_tokens / 5) as u32
}

/// A compaction summarizes the start of its turn on its own.
pub open spec fn summarizes_turn(p: PreparationView) -> bool {
    p.is_split_turn && p.turn_prefix_messages.len() > 0
}

/// Plan a compaction: build the requests for its summaries.
pub fn plan_compaction(
    model: &str,
    preparation: &CompactionPreparation,
    previous_summary: Option<&str>,
    settings: &CompactionSettings,
) -> (r: CompactionPlan)
    ensures
        asks_for_summary(
            r.history,
            model@,
            summary_prompt(
                preparation.deep_view().messages_to_summarize,
                previous_summary.deep_view(),
            ),
            summary_budget(settings.reserve_tokens),
        ),
        match r.turn_prefix {
            Some(request) => summarizes_turn(preparation.deep_view()) && asks_for_summary(
                request,
                model@,
                turn_prefix_prompt(preparation.deep_view().turn_prefix_messages),
                (summary_budget(settings.reserve_tokens) / 2) as u32,
            ),
            None => !summarizes_turn(preparation.deep_view()),
        },
{
    let max_tokens: u32 = (4 * settings.reserve_tokens as u64 / 5) as u32;
    let history: SummaryRequest = generate_summary(
        model,
        &preparation.messages_to_summarize,
        previous_summary,
        max_tokens,
    );
    let turn_prefix: Option<SummaryRequest> = if preparation.is_split_turn
        && preparation.turn_prefix_messages.len() > 0 {
        Some(
            generate_turn_prefix_summary(
                model,
                &preparation.turn_prefix_messages,
                max_tokens / 2,
            ),
        )
    } else {
        None
    };
    CompactionPlan { history, turn_prefix }
}

/// The summary of a compaction that splits a turn: that of the history, and
/// that of the start of the turn under its own heading.
pub open spec fn split_turn_summary(history: Seq<char>, turn_prefix: Seq<char>) -> Seq<char> {
    history + "\n\n---\n\n**Turn Context (split turn):**\n\n"@ + turn_prefix
}

/// The tokens that a compaction removes.
pub open spec fn removed_tokens(p: PreparationView) -> u32 {
    capped(
        capped(total_estimated(p.messages_to_summarize)) as nat + if p.is_split_turn {
            capped(total_estimated(p.turn_prefix_messages)) as nat
        } else {
            0
        },
    )
}

/// The error of a compaction that would remove more tokens than there were.
pub open spec fn accounting_error(tokens_before: u32, removed: u32) -> ErrorView {
    ErrorView::Compaction(
        "tokens_before ("@ + decimal(tokens_before as nat) + ") < removed_tokens ("@ + decimal(
            removed as nat,
        ) + ") \u{2014} compaction accounting bug"@,
    )
}

/// What a compaction result holds.
pub struct CompactionView {
    pub summary: Seq<char>,
    pub first_kept_message_index: int,
    pub tokens_before: u32,
    pub tokens_after: u32,
}

impl DeepView for CompactionResult {
    type V = CompactionView;

    open spec fn deep_view(&self) -> CompactionView {
        CompactionView {
            summary: self.summary@,
            first_kept_message_index: self.first_kept_message_index as int,
            tokens_before: self.tokens_before,
            tokens_after: self.tokens_after,
        }
    }
}

/// What an answer of a provider holds: a text, or an error.
pub open spec fn answer_view(r: Result<String, PiError>) -> Result<Seq<char>, ErrorView> {
    match r {
        Ok(text) => Ok(text@),
        Err(e) => Err(e.deep_view()),
    }
}

/// What the result of a compaction holds.
pub open spec fn compaction_result_view(r: Result<CompactionResult, PiError>) -> Result<
    CompactionView,
    ErrorView,
> {
    match r {
        Ok(result) => Ok(result.deep_view()),
        Err(e) => Err(e.deep_view()),
    }
}

/// The result of a compaction with a given summary.
pub open spec fn accounted(p: PreparationView, summary: Seq<char>) -> Result<
    CompactionView,
    ErrorView,
> {
    let removed = removed_tokens(p);
    if p.tokens_before < removed {
        Err(accounting_error(p.tokens_before, removed))
    } else {
        Ok(
            CompactionView {
                summary,
                first_kept_message_index: p.first_kept_message_index,
                tokens_before: p.tokens_before,
                tokens_after: capped(
                    (p.tokens_before - removed + estimated(text_message(Role::User, summary)))
                        as nat,
                ),
            },
        )
    }
}

/// The result of a compaction, given the answers to its requests. An error of
/// the history's summary comes before one of the turn's.
pub open spec fn finished(
    p: PreparationView,
    history: Result<Seq<char>, ErrorView>,
    turn_prefix: Result<Seq<char>, ErrorView>,
) -> Result<CompactionView, ErrorView> {
    match history {
        Err(e) => Err(e),
        Ok(h) => if summarizes_turn(p) {
            match turn_prefix {
                Err(e) => Err(e),
                Ok(t) => accounted(p, split_turn_summary(h, t)),
            }
        } else {
            accounted(p, h)
        },
    }
}

/// Finish a compaction: put together the summaries that came back, and account
/// for the tokens. The answer for the turn counts only where one was asked for.
pub fn finish_compaction(
    preparation: &CompactionPreparation,
    history: Result<String, PiError>,
    turn_prefix: Result<String, PiError>,
) -> (r: Result<CompactionResult, PiError>)
    ensures
        compaction_result_view(r) == finished(
            preparation.deep_view(),
            answer_view(history),
            answer_view(turn_prefix),
        ),
{
    let history: String = match history {
        Ok(text) => text,
        Err(e) => {
            return Err(e);
        },
    };
    let summary: String = if preparation.is_split_turn && preparation.turn_prefix_messages.len()
        > 0 {
        let turn_prefix: String = match turn_prefix {
            Ok(text) => text,
            Err(e) => {
                return Err(e);
            },
        };
        let mut both: String = history;
        both.push_str("\n\n---\n\n**Turn Context (split turn):**\n\n");
        both.push_str(&turn_prefix);
        both
    } else {
        history
    };
    let summarized: u32 = sum_tokens_saturating(&preparation.messages_to_summarize);
    let prefix: u32 = if preparation.is_split_turn {
        sum_tokens_saturating(&preparation.turn_prefix_messages)
    } else {
        0
    };
    let removed: u32 = summarized.saturating_add(prefix);
    if preparation.tokens_before < removed {
        let mut message: String = String::new();
        message.push_str("tokens_before (");
        message.push_str(&decimal_text(preparation.tokens_before as u64));
        message.push_str(") < removed_tokens (");
        message.push_str(&decimal_text(removed as u64));
        message.push_str(") \u{2014} compaction accounting bug");
        return Err(PiError::Compaction(CompactionError { message }));
    }
    let summary_message: Message = Message::text(Role::User, summary.clone());
    let tokens_after: u32 = (preparation.tokens_before - removed).saturating_add(
        estimate_tokens(&summary_message),
    );
    Ok(
        CompactionResult {
            summary,
            first_kept_message_index: preparation.first_kept_message_index,
            tokens_before: preparation.tokens_before,
            tokens_after,
        },
    )
}

proof fn lemma_total_split(front: Seq<MessageView>, back: Seq<MessageView>)
    ensures
        total_estimated(front + back) == total_estimated(front) + total_estimated(back),
    decreases back.len(),
{
    if back.len() == 0 {
        assert(front + back =~= front);
    } else {
        lemma_total_split(front, back.drop_last());
        assert((front + back).drop_last() =~= front + back.drop_last());
        assert((front + back).last() == back.last());
    }
}

/// A compaction that was prepared from messages never removes more tokens than
/// there were, so that its accounting never fails.
pub proof fn law_prepared_accounting_holds(
    messages: Seq<MessageView>,
    settings: CompactionSettings,
    previous_first_kept_index: Option<usize>,
)
    ensures
        match prepared(messages, settings, previous_first_kept_index) {
            Some(p) => removed_tokens(p) <= p.tokens_before,
            None => true,
        },
{
    law_preparation_loses_nothing(messages, settings, previous_first_kept_index);
    match prepared(messages, settings, previous_first_kept_index) {
        Some(p) => {
            let front = p.messages_to_summarize + p.turn_prefix_messages;
            lemma_total_split(p.messages_to_summarize, p.turn_prefix_messages);
            lemma_total_split(front, messages.skip(p.first_kept_message_index));
        },
        None => {},
    }
}

} // verus!
