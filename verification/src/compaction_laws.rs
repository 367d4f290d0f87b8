//! What holds of a compaction: where it cuts, what it asks for, and what it leaves.

use vstd::prelude::*;

use crate::agent_loop::{compacted_messages, summary_message};
use crate::compaction::{
    asks_for_summary, boundary, budget_cut, call_text, cut_point, finished,
    law_cut_keeps_results_with_calls, law_preparation_loses_nothing, law_prepared_accounting_holds,
    message_line, owner_before, prepared, role_label, serialized, spoken_blocks, summary_budget,
    summary_prompt, turn_prefix_prompt, turn_start, wants_compaction, CompactionSettings,
    SummaryRequest, UPDATE_SUMMARIZATION_PROMPT,
};
use crate::error::ErrorView;
use crate::text::{contains, join, occurs_at, replaced};
use crate::text_laws::{
    law_replacement_is_there, lemma_contains_part, lemma_contains_within, lemma_join_contains,
};
use crate::token_estimation::{estimated, total_estimated};
use crate::types::{
    escaped, text_message, BlockView, ContentView, MessageView, Role, ToolCallView,
};

verus! {

// ---------------------------------------------------------------------------
// Where a conversation is cut
// ---------------------------------------------------------------------------

/// A message at which the kept messages can start: one of the user, or one of the
/// assistant that no tool result follows.
pub open spec fn can_start(messages: Seq<MessageView>, i: int) -> bool {
    ||| messages[i].role == Role::User
    ||| messages[i].role == Role::Assistant && (i + 1 == messages.len() || messages[i + 1].role
        != Role::Tool)
}

/// A message of the assistant that calls tools.
pub open spec fn calls_tools(m: MessageView) -> bool {
    m.role == Role::Assistant && m.tool_calls is Some
}

/// The messages from one on use up the budget, and those after it do not.
pub open spec fn uses_up(
    messages: Seq<MessageView>,
    keep_recent_tokens: u32,
    start: int,
    i: int,
) -> bool {
    &&& start <= i < messages.len()
    &&& total_estimated(messages.skip(i)) >= keep_recent_tokens
    &&& forall|j: int|
        i < j < messages.len() ==> total_estimated(#[trigger] messages.skip(j)) < keep_recent_tokens
}

/// No message from one on is one at which the kept messages can start.
pub open spec fn none_can_start(messages: Seq<MessageView>, from: int, to: int) -> bool {
    forall|j: int| from <= j < to ==> !#[trigger] can_start(messages, j)
}

/// The message with an index is the nearest one before the last that calls tools.
pub open spec fn is_last_caller(messages: Seq<MessageView>, i: int) -> bool {
    &&& 0 <= i < messages.len() - 1
    &&& calls_tools(messages[i])
    &&& forall|j: int| i < j < messages.len() - 1 ==> !calls_tools(#[trigger] messages[j])
}

/// The index of the first message that may be cut at.
pub open spec fn first_index(start_after_index: Option<usize>) -> int {
    match start_after_index {
        Some(i) => i as int,
        None => 0,
    }
}

/// Where the budget is used up from the message `raw` on, the cut is at the first
/// message from there on at which the kept messages can start; or, where there is
/// none and the last message is a tool result, it splits a turn at the nearest
/// message before that calls tools.
pub open spec fn is_cut_from(messages: Seq<MessageView>, raw: int, cut: int, split: bool) -> bool {
    if split {
        &&& none_can_start(messages, raw, messages.len() as int)
        &&& messages.last().role == Role::Tool
        &&& is_last_caller(messages, cut)
    } else {
        &&& raw <= cut < messages.len()
        &&& can_start(messages, cut)
        &&& none_can_start(messages, raw, cut)
    }
}

/// No kept messages can start from the message `raw` on, and no turn can be split.
pub open spec fn has_no_cut_from(messages: Seq<MessageView>, raw: int) -> bool {
    &&& none_can_start(messages, raw, messages.len() as int)
    &&& messages.last().role == Role::Tool ==> forall|j: int|
        0 <= j < messages.len() - 1 ==> !calls_tools(#[trigger] messages[j])
}

proof fn lemma_budget_cut(messages: Seq<MessageView>, keep: u32, start: int, end: int)
    requires
        0 <= start,
        end <= messages.len(),
        forall|j: int|
            end <= j < messages.len() ==> total_estimated(#[trigger] messages.skip(j)) < keep,
    ensures
        match budget_cut(messages, keep, start, end) {
            Some(i) => uses_up(messages, keep, start, i) && i < end,
            None => forall|i: int| !#[trigger] uses_up(messages, keep, start, i),
        },
    decreases end - start,
{
    if end > start {
        if total_estimated(messages.skip(end - 1)) < keep {
            lemma_budget_cut(messages, keep, start, end - 1);
        } else {
            assert(uses_up(messages, keep, start, end - 1));
        }
    } else {
        assert forall|i: int| !#[trigger] uses_up(messages, keep, start, i) by {
            if start <= i < messages.len() {
                assert(total_estimated(messages.skip(i)) < keep);
            }
        }
    }
}

proof fn lemma_boundary(messages: Seq<MessageView>, from: int)
    requires
        0 <= from,
    ensures
        none_can_start(messages, from, boundary(messages, from)),
        boundary(messages, from) <= messages.len(),
        from <= messages.len() ==> from <= boundary(messages, from),
        boundary(messages, from) < messages.len() ==> can_start(
            messages,
            boundary(messages, from),
        ),
    decreases messages.len() - from,
{
    if from < messages.len() {
        lemma_boundary(messages, from + 1);
        assert forall|j: int| from <= j < boundary(messages, from) implies !#[trigger] can_start(
            messages,
            j,
        ) by {
            if j > from {
                assert(from + 1 <= j < boundary(messages, from + 1));
            }
        }
    }
}

proof fn lemma_owner(messages: Seq<MessageView>, end: int)
    requires
        end <= messages.len(),
    ensures
        match owner_before(messages, end) {
            Some(i) => 0 <= i < end && calls_tools(messages[i]) && forall|j: int|
                i < j < end ==> !calls_tools(#[trigger] messages[j]),
            None => forall|j: int| 0 <= j < end ==> !calls_tools(#[trigger] messages[j]),
        },
    decreases end,
{
    if end > 0 {
        lemma_owner(messages, end - 1);
    }
}

/// A conversation is cut at the first message, from the one on with which the
/// budget is used up, at which the kept messages can start. Where there is none and
/// the last message is a tool result, a turn is split at the nearest message before
/// it that calls tools. There is no cut exactly where the budget is not used up, or
/// where there is no message of either kind.
pub proof fn law_cut_is_the_nearest(
    messages: Seq<MessageView>,
    keep_recent_tokens: u32,
    start_after_index: Option<usize>,
)
    ensures
        match cut_point(messages, keep_recent_tokens, start_after_index) {
            Some((cut, split)) => exists|raw: int| #[trigger]
                uses_up(messages, keep_recent_tokens, first_index(start_after_index), raw)
                    && is_cut_from(messages, raw, cut, split),
            None => forall|raw: int| #[trigger]
                uses_up(messages, keep_recent_tokens, first_index(start_after_index), raw)
                    ==> has_no_cut_from(messages, raw),
        },
{
    let start = first_index(start_after_index);
    let n = messages.len() as int;
    lemma_budget_cut(messages, keep_recent_tokens, start, n);
    match budget_cut(messages, keep_recent_tokens, start, n) {
        Some(raw) => {
            assert(uses_up(messages, keep_recent_tokens, start, raw));
            lemma_cut_from(messages, raw);
            assert forall|other: int| #[trigger]
                uses_up(messages, keep_recent_tokens, start, other) implies other == raw by {
                if other < raw {
                    assert(total_estimated(messages.skip(raw)) < keep_recent_tokens);
                } else if raw < other {
                    assert(total_estimated(messages.skip(other)) < keep_recent_tokens);
                }
            }
        },
        None => {},
    }
}

proof fn lemma_cut_from(messages: Seq<MessageView>, raw: int)
    requires
        0 <= raw < messages.len(),
    ensures
        ({
            let b = boundary(messages, raw);
            if b < messages.len() {
                is_cut_from(messages, raw, b, false)
            } else if messages.last().role == Role::Tool {
                match owner_before(messages, messages.len() - 1) {
                    Some(owner) => is_cut_from(messages, raw, owner, true),
                    None => has_no_cut_from(messages, raw),
                }
            } else {
                has_no_cut_from(messages, raw)
            }
        }),
{
    lemma_boundary(messages, raw);
    lemma_owner(messages, messages.len() - 1);
}

/// Where a compaction splits a turn, what it summarizes of it starts with the user
/// message that started the turn: no other user message follows up to the cut. Where
/// it splits none, there is no such part, and all before the cut is history.
pub proof fn law_split_turn_starts_with_its_user_message(
    messages: Seq<MessageView>,
    settings: CompactionSettings,
    previous_first_kept_index: Option<usize>,
)
    ensures
        match prepared(messages, settings, previous_first_kept_index) {
            Some(p) => {
                let history = p.messages_to_summarize.len() as int;
                &&& cut_point(messages, settings.keep_recent_tokens, previous_first_kept_index)
                    == Some((p.first_kept_message_index, p.is_split_turn))
                &&& !p.is_split_turn ==> p.turn_prefix_messages.len() == 0 && history
                    == p.first_kept_message_index
                &&& p.is_split_turn ==> {
                    &&& history == 0 || messages[history].role == Role::User
                    &&& forall|i: int|
                        history < i <= p.first_kept_message_index ==> (
                        #[trigger] messages[i]).role != Role::User
                }
            },
            None => cut_point(
                messages,
                settings.keep_recent_tokens,
                previous_first_kept_index,
            ) is None,
        },
{
    law_cut_keeps_results_with_calls(
        messages,
        settings.keep_recent_tokens,
        previous_first_kept_index,
    );
    if let Some(p) = prepared(messages, settings, previous_first_kept_index) {
        lemma_turn_start(messages, p.first_kept_message_index);
    }
}

proof fn lemma_turn_start(messages: Seq<MessageView>, i: int)
    requires
        0 <= i < messages.len(),
    ensures
        0 <= turn_start(messages, i) <= i,
        turn_start(messages, i) == 0 || messages[turn_start(messages, i)].role == Role::User,
        forall|j: int| turn_start(messages, i) < j <= i ==> (#[trigger] messages[j]).role != Role::User,
    decreases i,
{
    if i > 0 && messages[i].role != Role::User {
        lemma_turn_start(messages, i - 1);
    }
}

/// A conversation wants compaction exactly where that is enabled and what it takes,
/// with what is reserved, is more than the window.
pub proof fn law_compaction_keeps_the_reserve_free(
    context_tokens: u32,
    context_window: u32,
    settings: CompactionSettings,
)
    ensures
        wants_compaction(context_tokens, context_window, settings) == (settings.enabled
            && context_tokens > 0 && context_tokens + settings.reserve_tokens > context_window),
{
}

// ---------------------------------------------------------------------------
// What is asked
// ---------------------------------------------------------------------------

/// A text is one that a message says: its content, the text of a block of it, the
/// result of a tool in it, or a tool call with its arguments.
pub open spec fn is_said_by(m: MessageView, text: Seq<char>) -> bool {
    ||| m.content == Some(ContentView::Text(text))
    ||| (m.content matches Some(ContentView::Blocks(blocks)) && exists|i: int|
        0 <= i < blocks.len() && (#[trigger] blocks[i] == BlockView::Text { text } || (
        blocks[i] matches BlockView::ToolResult { content, .. } && content == text)))
    ||| (m.tool_calls matches Some(calls) && exists|i: int|
        0 <= i < calls.len() && text == (#[trigger] calls[i]).name + "("@ + calls[i].arguments
            + ")"@)
}

proof fn lemma_blocks_contain(blocks: Seq<BlockView>, i: int)
    requires
        0 <= i < blocks.len(),
    ensures
        blocks[i] matches BlockView::Text { text } ==> contains(spoken_blocks(blocks), text),
        blocks[i] matches BlockView::ToolResult { content, .. } ==> contains(
            spoken_blocks(blocks),
            content,
        ),
    decreases blocks.len(),
{
    let front = spoken_blocks(blocks.drop_last());
    let own = match blocks.last() {
        BlockView::Text { text } => text,
        BlockView::ToolResult { content, .. } => content,
        _ => seq![],
    };
    if i == blocks.len() - 1 {
        lemma_contains_part(front, own, seq![]);
        assert(front + own + Seq::<char>::empty() =~= spoken_blocks(blocks));
    } else {
        lemma_blocks_contain(blocks.drop_last(), i);
        assert(blocks.drop_last()[i] == blocks[i]);
        lemma_contains_part(seq![], front, own);
        assert(Seq::<char>::empty() + front + own =~= spoken_blocks(blocks));
        match blocks[i] {
            BlockView::Text { text } => lemma_contains_within(spoken_blocks(blocks), front, text),
            BlockView::ToolResult { content, .. } => lemma_contains_within(
                spoken_blocks(blocks),
                front,
                content,
            ),
            _ => {},
        }
    }
}

proof fn lemma_line_contains(m: MessageView, text: Seq<char>)
    requires
        is_said_by(m, text),
    ensures
        contains(message_line(m), text),
{
    let line = message_line(m);
    let own = crate::compaction::spoken(m.content);
    let listed = match m.tool_calls {
        Some(calls) => join(calls.map_values(|c: ToolCallView| call_text(c)), "\n"@),
        None => seq![],
    };
    // What the content says is the front of the line, what the calls say its back.
    lemma_contains_part(seq![], own, line.skip(own.len() as int));
    if m.tool_calls is None || own.len() > 0 {
        assert(Seq::<char>::empty() + own + line.skip(own.len() as int) =~= line);
    } else {
        assert(own =~= seq![]);
        assert(Seq::<char>::empty() + own + line.skip(own.len() as int) =~= line);
    }
    let head = line.take(line.len() - listed.len());
    if m.tool_calls is Some {
        if own.len() > 0 {
            assert(head =~= own + "\n"@);
        } else {
            assert(head =~= seq![]);
        }
        lemma_contains_part(head, listed, seq![]);
        assert(head + listed + Seq::<char>::empty() =~= line);
    }
    if m.content == Some(ContentView::Text(text)) {
    } else if m.content matches Some(ContentView::Blocks(blocks)) && exists|i: int|
        0 <= i < blocks.len() && (#[trigger] blocks[i] == BlockView::Text { text } || (
        blocks[i] matches BlockView::ToolResult { content, .. } && content == text)) {
        let blocks = m.content->0->Blocks_0;
        let i = choose|i: int|
            0 <= i < blocks.len() && (#[trigger] blocks[i] == BlockView::Text { text } || (
            blocks[i] matches BlockView::ToolResult { content, .. } && content == text));
        lemma_blocks_contain(blocks, i);
        lemma_contains_within(line, own, text);
    } else {
        let calls = m.tool_calls->0;
        let i = choose|i: int|
            0 <= i < calls.len() && text == (#[trigger] calls[i]).name + "("@ + calls[i].arguments
                + ")"@;
        let texts = calls.map_values(|c: ToolCallView| call_text(c));
        assert(texts[i] =~= text);
        lemma_join_contains(texts, "\n"@, i);
        lemma_contains_within(line, listed, text);
    }
}

/// A conversation as text is that of its parts, one after the other.
pub proof fn law_serialized_in_parts(front: Seq<MessageView>, back: Seq<MessageView>)
    ensures
        serialized(front + back) == serialized(front) + serialized(back),
    decreases back.len(),
{
    if back.len() == 0 {
        assert(front + back =~= front);
        assert(serialized(front) + serialized(back) =~= serialized(front));
    } else {
        law_serialized_in_parts(front, back.drop_last());
        assert((front + back).drop_last() =~= front + back.drop_last());
        assert((front + back).last() == back.last());
        assert(serialized(front + back) =~= serialized(front) + serialized(back));
    }
}

/// A message that only says a text stands under the label of who says it.
pub proof fn law_serialized_text(m: MessageView, text: Seq<char>)
    requires
        m.content == Some(ContentView::Text(text)),
        m.tool_calls is None,
        text.len() > 0,
    ensures
        serialized(seq![m]) == (match m.role {
            Role::User => "[User]: "@,
            Role::Assistant => "[Assistant]: "@,
            Role::Tool => "[Tool result]: "@,
            Role::System => "[System]: "@,
        }) + text + "\n\n"@,
{
    reveal_strlit("[User]");
    reveal_strlit("[Assistant]");
    reveal_strlit("[Tool result]");
    reveal_strlit("[System]");
    reveal_strlit(": ");
    reveal_strlit("[User]: ");
    reveal_strlit("[Assistant]: ");
    reveal_strlit("[Tool result]: ");
    reveal_strlit("[System]: ");
    assert(seq![m].drop_last() =~= seq![]);
    assert(serialized(seq![m].drop_last()) =~= seq![]);
    assert(role_label(m) + ": "@ =~= match m.role {
        Role::User => "[User]: "@,
        Role::Assistant => "[Assistant]: "@,
        Role::Tool => "[Tool result]: "@,
        Role::System => "[System]: "@,
    });
    assert(serialized(seq![m]) =~= (role_label(m) + ": "@) + text + "\n\n"@);
}

proof fn lemma_serialized_contains(messages: Seq<MessageView>, i: int, text: Seq<char>)
    requires
        0 <= i < messages.len(),
        is_said_by(messages[i], text),
    ensures
        contains(serialized(messages), text),
    decreases messages.len(),
{
    let front = serialized(messages.drop_last());
    let whole = serialized(messages);
    if i == messages.len() - 1 {
        let m = messages.last();
        lemma_line_contains(m, text);
        let line = message_line(m);
        if line.len() == 0 {
            lemma_contains_part(whole, line, seq![]);
            assert(whole + line + Seq::<char>::empty() =~= whole);
        } else {
            let head = front + (role_label(m) + ": "@);
            lemma_contains_part(head, line, "\n\n"@);
            assert(head + line + "\n\n"@ =~= whole);
        }
        lemma_contains_within(whole, line, text);
    } else {
        lemma_serialized_contains(messages.drop_last(), i, text);
        let back = whole.skip(front.len() as int);
        lemma_contains_part(seq![], front, back);
        assert(Seq::<char>::empty() + front + back =~= whole);
        lemma_contains_within(whole, front, text);
    }
}

/// All that is said in the messages that are summarized stands in the prompts: the
/// content of each message, the texts and the tool results in it, and its tool calls
/// with their arguments.
pub proof fn law_prompts_hold_the_conversation(
    messages: Seq<MessageView>,
    previous_summary: Option<Seq<char>>,
    i: int,
    text: Seq<char>,
)
    requires
        0 <= i < messages.len(),
        is_said_by(messages[i], text),
    ensures
        contains(serialized(messages), text),
        contains(summary_prompt(messages, previous_summary), text),
        contains(turn_prefix_prompt(messages), text),
{
    lemma_serialized_contains(messages, i, text);
    let all = serialized(messages);
    let prompt = summary_prompt(messages, previous_summary);
    let head = prompt.take(prompt.len() - all.len());
    lemma_contains_part(head, all, seq![]);
    assert(head + all + Seq::<char>::empty() =~= prompt);
    lemma_contains_within(prompt, all, text);
    let prefix_prompt = turn_prefix_prompt(messages);
    let prefix_head = prefix_prompt.take(prefix_prompt.len() - all.len());
    lemma_contains_part(prefix_head, all, seq![]);
    assert(prefix_head + all + Seq::<char>::empty() =~= prefix_prompt);
    lemma_contains_within(prefix_prompt, all, text);
}

/// A prompt for a summary that follows on an earlier one holds the earlier one.
pub proof fn law_prompt_holds_the_previous_summary(
    messages: Seq<MessageView>,
    previous: Seq<char>,
)
    ensures
        contains(summary_prompt(messages, Some(previous)), previous),
{
    let form = UPDATE_SUMMARIZATION_PROMPT@;
    let place = "{previous_summary}"@;
    reveal_strlit("{previous_summary}");
    assert(contains(form, place)) by {
        reveal_strlit(
            "A previous compaction produced the following summary:

<previous_summary>
{previous_summary}
</previous_summary>

New messages have been exchanged since then. Please produce an updated summary that incorporates both the previous context and the new conversation. Use the same structured format as before.",
        );
        assert(form.subrange(74, 92) =~= place);
        assert(occurs_at(form, place, 74));
        reveal(contains);
    }
    law_replacement_is_there(form, place, previous);
    let head = replaced(form, place, previous);
    let all = serialized(messages);
    let prompt = summary_prompt(messages, Some(previous));
    lemma_contains_part(seq![], head, "\n\n"@ + all);
    assert(Seq::<char>::empty() + head + ("\n\n"@ + all) =~= prompt);
    lemma_contains_within(prompt, head, previous);
}

/// A request for a summary puts its prompt to the model as the user, last, and
/// allows the summary so many tokens.
pub proof fn law_summary_request_asks_with_its_prompt(
    r: SummaryRequest,
    model: Seq<char>,
    prompt: Seq<char>,
    max_tokens: u32,
)
    requires
        asks_for_summary(r, model, prompt, max_tokens),
    ensures
        r.messages.deep_view().len() == 2,
        r.messages.deep_view()[0].role == Role::System,
        r.messages.deep_view()[1].role == Role::User,
        r.messages.deep_view()[1].content == Some(ContentView::Text(prompt)),
        r.config.max_tokens == Some(max_tokens),
{
}

/// A summary may take four fifths of what is reserved, rounded down.
pub proof fn law_summary_budget(reserve_tokens: u32)
    ensures
        5 * summary_budget(reserve_tokens) <= 4 * reserve_tokens,
        4 * reserve_tokens < 5 * summary_budget(reserve_tokens) + 5,
{
}

// ---------------------------------------------------------------------------
// What is left
// ---------------------------------------------------------------------------

proof fn lemma_total_parts(front: Seq<MessageView>, back: Seq<MessageView>)
    ensures
        total_estimated(front + back) == total_estimated(front) + total_estimated(back),
    decreases back.len(),
{
    if back.len() == 0 {
        assert(front + back =~= front);
    } else {
        lemma_total_parts(front, back.drop_last());
        assert((front + back).drop_last() =~= front + back.drop_last());
        assert((front + back).last() == back.last());
    }
}

/// The result of a compaction holds what came back: the summary of the history, and
/// that of the split turn behind it. An error that came back is passed on, that of
/// the history first. The kept messages start where they were prepared to, and the
/// tokens afterwards are those of the summary and of the kept messages.
pub proof fn law_compaction_result(
    messages: Seq<MessageView>,
    settings: CompactionSettings,
    previous_first_kept_index: Option<usize>,
    history: Result<Seq<char>, ErrorView>,
    turn_prefix: Result<Seq<char>, ErrorView>,
)
    ensures
        match prepared(messages, settings, previous_first_kept_index) {
            Some(p) => {
                let asks_twice = p.is_split_turn && p.turn_prefix_messages.len() > 0;
                match finished(p, history, turn_prefix) {
                    Ok(c) => {
                        &&& history is Ok
                        &&& asks_twice ==> turn_prefix is Ok && contains(
                            c.summary,
                            turn_prefix->Ok_0,
                        ) && c.summary.len() > history->Ok_0.len() + turn_prefix->Ok_0.len()
                        &&& c.summary.take(history->Ok_0.len() as int) == history->Ok_0
                        &&& !asks_twice ==> c.summary == history->Ok_0
                        &&& c.first_kept_message_index == p.first_kept_message_index
                        &&& total_estimated(messages) + estimated(
                            text_message(Role::User, c.summary),
                        ) <= u32::MAX ==> {
                            &&& c.tokens_before == total_estimated(messages)
                            &&& c.tokens_after == total_estimated(
                                messages.skip(c.first_kept_message_index),
                            ) + estimated(text_message(Role::User, c.summary))
                        }
                    },
                    Err(e) => match history {
                        Err(first) => e == first,
                        Ok(_) => asks_twice && turn_prefix == Err::<Seq<char>, ErrorView>(e),
                    },
                }
            },
            None => true,
        },
{
    if let Some(p) = prepared(messages, settings, previous_first_kept_index) {
        law_preparation_loses_nothing(messages, settings, previous_first_kept_index);
        law_prepared_accounting_holds(messages, settings, previous_first_kept_index);
        law_split_turn_starts_with_its_user_message(messages, settings, previous_first_kept_index);
        let kept = messages.skip(p.first_kept_message_index);
        lemma_total_parts(p.messages_to_summarize + p.turn_prefix_messages, kept);
        lemma_total_parts(p.messages_to_summarize, p.turn_prefix_messages);
        if let Ok(c) = finished(p, history, turn_prefix) {
            let h = history->Ok_0;
            assert(c.summary.take(h.len() as int) =~= h);
            if p.is_split_turn && p.turn_prefix_messages.len() > 0 {
                let t = turn_prefix->Ok_0;
                let heading = "\n\n---\n\n**Turn Context (split turn):**\n\n"@;
                reveal_strlit("\n\n---\n\n**Turn Context (split turn):**\n\n");
                lemma_contains_part(h + heading, t, seq![]);
                assert(h + heading + t + Seq::<char>::empty() =~= c.summary);
            }
            if !p.is_split_turn {
                assert(p.turn_prefix_messages =~= seq![]);
            }
        }
    }
}

/// A compacted conversation is the summary, told by the user, and then the messages
/// from the first kept one on, as they were.
pub proof fn law_compacted_messages(messages: Seq<MessageView>, summary: Seq<char>, first_kept: int)
    requires
        0 <= first_kept <= messages.len(),
    ensures
        ({
            let left = compacted_messages(messages, summary, first_kept);
            &&& left.len() == 1 + messages.len() - first_kept
            &&& left[0].role == Role::User
            &&& left[0].tool_calls is None
            &&& left[0].content matches Some(ContentView::Text(text)) && contains(
                text,
                "<summary>\n"@ + escaped(summary) + "\n</summary>"@,
            )
            &&& forall|i: int|
                first_kept <= i < messages.len() ==> left[1 + i - first_kept]
                    == #[trigger] messages[i]
        }),
{
    let left = compacted_messages(messages, summary, first_kept);
    assert(left[0] == summary_message(summary));
    let head = "The conversation history before this point was compacted into the following summary:\n\n<summary>\n"@;
    reveal_strlit(
        "The conversation history before this point was compacted into the following summary:\n\n<summary>\n",
    );
    reveal_strlit("<summary>\n");
    let text = head + escaped(summary) + "\n</summary>"@;
    let n = head.len() - "<summary>\n"@.len();
    assert(head.skip(n) =~= "<summary>\n"@);
    let part = "<summary>\n"@ + escaped(summary) + "\n</summary>"@;
    lemma_contains_part(head.take(n), part, seq![]);
    assert(head.take(n) + part + Seq::<char>::empty() =~= text);
}

} // verus!
