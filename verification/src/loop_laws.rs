//! What holds of a whole run of the agent loop. A run is a sequence of rounds: in
//! each of them the provider is asked, the tools that it calls are run, and the
//! conversation is compacted where that is due or where it has become too long.

use vstd::prelude::*;

use crate::agent_loop::{
    answered, call_arguments, chunk_events, compaction_event, due_compaction, fragment_events,
    fragments_events, is_running, law_each_call_gets_its_result, overflow_handled, previous_kept,
    summary_message, tool_message, tool_outcome, with_compaction_result, with_fragments,
    with_response, with_tool_results, AgentLoopConfig, AnswerView, EventView, LoopView, StepView,
    StreamView,
};
use crate::compaction::{
    finished, law_cut_keeps_results_with_calls, prepared, CompactionSettings,
};
use crate::error::ErrorView;
use crate::token_estimation::context_tokens;
use crate::traits::{ChunkView, DeltaView};
use crate::types::{MessageView, Role, ToolCallView, Usage};

verus! {

// ---------------------------------------------------------------------------
// Rounds
// ---------------------------------------------------------------------------

/// What a provider replies: a message, or an error instead of one.
pub enum ReplyView {
    Message(MessageView, Usage),
    Refused(ErrorView),
    Broken(ErrorView),
}

/// The outcomes of tool calls.
pub type Outcomes = Seq<Option<Result<Seq<char>, ErrorView>>>;

/// A round: what the provider replied, the events that were reported while the
/// reply was streamed, the outcomes of the tool calls that the reply makes, and the
/// summaries that came back where the conversation was to be compacted.
pub struct RoundView {
    pub reply: ReplyView,
    pub streamed: Seq<EventView>,
    pub outcomes: Outcomes,
    pub history: Result<Seq<char>, ErrorView>,
    pub turn_prefix: Result<Seq<char>, ErrorView>,
}

/// The tool calls that a message makes.
pub open spec fn calls_of(message: MessageView) -> Seq<ToolCallView> {
    match message.tool_calls {
        Some(calls) => calls,
        None => seq![],
    }
}

/// An event of a response that is being streamed.
pub open spec fn is_streamed(event: EventView) -> bool {
    event is TextDelta || event is ToolCallStart || event is ToolCallDelta
}

/// Each call of a round has an outcome, and what was reported while its reply was
/// streamed are events of a stream.
pub open spec fn is_whole(round: RoundView) -> bool {
    &&& match round.reply {
        ReplyView::Message(message, _) => round.outcomes.len() == calls_of(message).len(),
        _ => true,
    }
    &&& forall|i: int|
        0 <= i < round.streamed.len() ==> is_streamed(#[trigger] round.streamed[i])
}

/// How a run ended.
pub enum EndView {
    /// With a reply that makes no calls.
    Replied,
    /// With a conversation that is too long and could not be compacted.
    NotCompacted,
    /// With an error.
    Failed(ErrorView),
}

/// A run so far: the state of the loop, the events that were reported, and how it
/// ended, where it has.
pub struct RunView {
    pub state: LoopView,
    pub events: Seq<EventView>,
    pub end: Option<EndView>,
}

/// The state after an attempt to compact, the events, and whether it was compacted.
pub open spec fn compaction_tried(
    s: LoopView,
    settings: CompactionSettings,
    tokens: u32,
    round: RoundView,
) -> (LoopView, Seq<EventView>, bool) {
    let triggered = seq![EventView::CompactionTriggered { tokens_before: tokens }];
    match prepared(s.messages, settings, previous_kept(s)) {
        None => (s, triggered, false),
        Some(p) => {
            let outcome = finished(p, round.history, round.turn_prefix);
            (
                with_compaction_result(s, outcome),
                triggered.push(compaction_event(outcome)),
                outcome is Ok,
            )
        },
    }
}

/// The state with a reply, the event that tells of it, and what the loop is told.
pub open spec fn reply_taken(s: LoopView, reply: ReplyView) -> (
    LoopView,
    Seq<EventView>,
    AnswerView,
) {
    match reply {
        ReplyView::Message(message, usage) => (
            with_response(s, message, usage),
            seq![EventView::TurnEnd { turn: s.turn, message, usage: Some(usage) }],
            AnswerView::Calls(message.tool_calls),
        ),
        ReplyView::Refused(e) => (s, seq![], AnswerView::Refused(e)),
        ReplyView::Broken(e) => (s, seq![], AnswerView::Broken(e)),
    }
}

/// The step that follows a reply.
pub open spec fn step_after(s: LoopView, config: AgentLoopConfig, reply: ReplyView) -> StepView {
    let (heard, _, answer) = reply_taken(s, reply);
    answered(heard, config, answer).2
}

/// The events of tool calls: each is started and ended before the next.
pub open spec fn tool_events(calls: Seq<ToolCallView>, outcomes: Outcomes) -> Seq<EventView>
    decreases calls.len(),
{
    if calls.len() == 0 {
        seq![]
    } else {
        let call = calls.last();
        let (outcome, is_error) = tool_outcome(call.name, outcomes.last());
        tool_events(calls.drop_last(), outcomes.drop_last()).push(
            EventView::ToolExecutionStart {
                id: call.id,
                name: call.name,
                arguments: call_arguments(call.arguments),
            },
        ).push(EventView::ToolExecutionEnd { id: call.id, name: call.name, outcome, is_error })
    }
}

/// The loop after a round.
#[verifier::opaque]
pub open spec fn round_taken(
    s: LoopView,
    config: AgentLoopConfig,
    window: u32,
    round: RoundView,
) -> RunView {
    let (heard, told, answer) = reply_taken(s, round.reply);
    let (next, decided, step) = answered(heard, config, answer);
    let events = seq![EventView::TurnStart { turn: s.turn }] + round.streamed + told + decided;
    match step {
        StepView::Finished => RunView { state: next, events, end: Some(EndView::Replied) },
        StepView::Failed(e) => RunView { state: next, events, end: Some(EndView::Failed(e)) },
        StepView::Compact(tokens) => {
            let (tried, reported, compacted) = match config.compaction {
                Some(settings) => compaction_tried(next, settings, tokens, round),
                None => (next, seq![], false),
            };
            let (after, last, again) = overflow_handled(tried, compacted);
            RunView {
                state: after,
                events: events + reported + last,
                end: if again {
                    None
                } else {
                    Some(EndView::NotCompacted)
                },
            }
        },
        StepView::RunTools(calls) => {
            let ran_tools = with_tool_results(next, calls, round.outcomes);
            let tokens = context_tokens(ran_tools.messages, ran_tools.last_turn_usage);
            let (after, reported) = match (due_compaction(config, window, tokens), config.compaction) {
                (Some(tokens), Some(settings)) => {
                    let (tried, reported, _) = compaction_tried(ran_tools, settings, tokens, round);
                    (tried, reported)
                },
                _ => (ran_tools, seq![]),
            };
            RunView {
                state: after,
                events: events + tool_events(calls, round.outcomes) + reported,
                end: None,
            }
        },
    }
}

/// The messages for the results of tool calls.
pub open spec fn result_messages(calls: Seq<ToolCallView>, outcomes: Outcomes) -> Seq<MessageView> {
    Seq::new(
        calls.len(),
        |i: int| tool_message(calls[i], tool_outcome(calls[i].name, outcomes[i]).0),
    )
}

/// The messages that a round adds to what was said: the reply, and the results of
/// the calls that were run.
pub open spec fn said_in(s: LoopView, config: AgentLoopConfig, round: RoundView) -> Seq<
    MessageView,
> {
    match round.reply {
        ReplyView::Message(message, _) => seq![message] + match step_after(s, config, round.reply) {
            StepView::RunTools(calls) => result_messages(calls, round.outcomes),
            _ => seq![],
        },
        _ => seq![],
    }
}

// ---------------------------------------------------------------------------
// Runs
// ---------------------------------------------------------------------------

/// The loop after rounds, as far as they are taken.
pub open spec fn ran(
    s: LoopView,
    config: AgentLoopConfig,
    window: u32,
    rounds: Seq<RoundView>,
) -> RunView
    decreases rounds.len(),
{
    if rounds.len() == 0 {
        RunView { state: s, events: seq![], end: None }
    } else {
        let first = round_taken(s, config, window, rounds[0]);
        if first.end is Some {
            first
        } else {
            let rest = ran(first.state, config, window, rounds.skip(1));
            RunView { events: first.events + rest.events, ..rest }
        }
    }
}

/// The messages that a run adds to what was said.
pub open spec fn said(
    s: LoopView,
    config: AgentLoopConfig,
    window: u32,
    rounds: Seq<RoundView>,
) -> Seq<MessageView>
    decreases rounds.len(),
{
    if rounds.len() == 0 {
        seq![]
    } else {
        let first = round_taken(s, config, window, rounds[0]);
        said_in(s, config, rounds[0]) + if first.end is Some {
            seq![]
        } else {
            said(first.state, config, window, rounds.skip(1))
        }
    }
}

/// How many times a run runs tools.
pub open spec fn tool_rounds(
    s: LoopView,
    config: AgentLoopConfig,
    window: u32,
    rounds: Seq<RoundView>,
) -> nat
    decreases rounds.len(),
{
    if rounds.len() == 0 {
        0
    } else {
        let first = round_taken(s, config, window, rounds[0]);
        (if step_after(s, config, rounds[0].reply) is RunTools {
            1nat
        } else {
            0nat
        }) + if first.end is Some {
            0nat
        } else {
            tool_rounds(first.state, config, window, rounds.skip(1))
        }
    }
}

/// How many replies a run takes.
pub open spec fn replies_taken(
    s: LoopView,
    config: AgentLoopConfig,
    window: u32,
    rounds: Seq<RoundView>,
) -> nat
    decreases rounds.len(),
{
    if rounds.len() == 0 {
        0
    } else {
        let first = round_taken(s, config, window, rounds[0]);
        (if rounds[0].reply is Message {
            1nat
        } else {
            0nat
        }) + if first.end is Some {
            0nat
        } else {
            replies_taken(first.state, config, window, rounds.skip(1))
        }
    }
}

/// The conversation of a loop stands for what was said: it is all of it, or the
/// last summary and then all from some message on.
pub open spec fn stands_for(s: LoopView, log: Seq<MessageView>) -> bool {
    match s.compaction_state {
        None => s.messages == log,
        Some((kept, summary)) => {
            &&& kept == 1
            &&& exists|k: int| #[trigger] is_summarized(s.messages, log, summary, k)
        },
    }
}

/// A conversation is a summary and then what was said from a message on.
pub open spec fn is_summarized(
    messages: Seq<MessageView>,
    log: Seq<MessageView>,
    summary: Seq<char>,
    k: int,
) -> bool {
    0 <= k <= log.len() && messages == seq![summary_message(summary)] + log.skip(k)
}

/// The calls that the message at an index makes have their results right behind
/// it, in order, under their IDs and names.
pub open spec fn has_results(messages: Seq<MessageView>, i: int) -> bool {
    let calls = calls_of(messages[i]);
    &&& i + calls.len() < messages.len()
    &&& forall|j: int|
        0 <= j < calls.len() ==> {
            &&& (#[trigger] messages[i + 1 + j]).role == Role::Tool
            &&& messages[i + 1 + j].tool_call_id == Some(calls[j].id)
            &&& messages[i + 1 + j].name == Some(calls[j].name)
        }
}

/// Each message has the results of its calls behind it, but for the last one where
/// the run failed.
pub open spec fn are_answered(messages: Seq<MessageView>, end: Option<EndView>) -> bool {
    forall|i: int|
        0 <= i < messages.len() ==> (#[trigger] has_results(messages, i) || (i == messages.len() - 1
            && end matches Some(EndView::Failed(_))))
}

/// None of some events tells that the loop is done.
pub open spec fn none_is_done(events: Seq<EventView>) -> bool {
    forall|i: int| 0 <= i < events.len() ==> !((#[trigger] events[i]) is Done)
}

/// None of some events tells of a compaction.
pub open spec fn none_compacts(events: Seq<EventView>) -> bool {
    forall|i: int| 0 <= i < events.len() ==> !((#[trigger] events[i]) is CompactionComplete)
}

/// Events tell once, and last, that the loop is done, after so many turns and with
/// a usage.
pub open spec fn ends_with_done(events: Seq<EventView>, turns: int, total_usage: Usage) -> bool {
    &&& events.len() > 0
    &&& none_is_done(events.drop_last())
    &&& events.last() matches EventView::Done { turns: told, total_usage: used }
    &&& told == turns
    &&& used == total_usage
}

/// A run reports that it is done exactly where it ended without an error.
pub open spec fn reports_its_end(run: RunView, turns: int) -> bool {
    match run.end {
        Some(EndView::Replied) => ends_with_done(run.events, turns, run.state.total_usage),
        Some(EndView::NotCompacted) => ends_with_done(run.events, turns, run.state.total_usage),
        _ => none_is_done(run.events),
    }
}

// ---------------------------------------------------------------------------
// Steps of the proofs
// ---------------------------------------------------------------------------

proof fn lemma_fragment_events(calls: Seq<DeltaView>, ds: Seq<DeltaView>)
    ensures
        forall|i: int|
            0 <= i < fragments_events(calls, ds).len() ==> is_streamed(
                #[trigger] fragments_events(calls, ds)[i],
            ),
    decreases ds.len(),
{
    if ds.len() > 0 {
        lemma_fragment_events(calls, ds.drop_last());
        let front = fragments_events(calls, ds.drop_last());
        let back = fragment_events(with_fragments(calls, ds.drop_last()), ds.last());
        assert forall|i: int| 0 <= i < fragments_events(calls, ds).len() implies is_streamed(
            #[trigger] fragments_events(calls, ds)[i],
        ) by {
            assert(fragments_events(calls, ds) == front + back);
            if i < front.len() {
                assert((front + back)[i] == front[i]);
            } else {
                assert((front + back)[i] == back[i - front.len()]);
            }
        }
    }
}

/// What is reported for a chunk of a response are events of a stream.
pub proof fn law_chunks_report_streamed_events(s: StreamView, chunk: ChunkView)
    ensures
        forall|i: int|
            0 <= i < chunk_events(s, chunk).len() ==> is_streamed(
                #[trigger] chunk_events(s, chunk)[i],
            ),
{
    lemma_fragment_events(s.calls, chunk.tool_calls);
    let back = fragments_events(s.calls, chunk.tool_calls);
    let n = chunk_events(s, chunk).len() - back.len();
    assert forall|i: int| 0 <= i < chunk_events(s, chunk).len() implies is_streamed(
        #[trigger] chunk_events(s, chunk)[i],
    ) by {
        if i >= n {
            assert(chunk_events(s, chunk)[i] == back[i - n]);
        }
    }
}

proof fn lemma_none_is_done(a: Seq<EventView>, b: Seq<EventView>)
    requires
        none_is_done(a),
        none_is_done(b),
    ensures
        none_is_done(a + b),
{
}

proof fn lemma_none_compacts(a: Seq<EventView>, b: Seq<EventView>)
    ensures
        none_compacts(a + b) == (none_compacts(a) && none_compacts(b)),
{
    if none_compacts(a + b) {
        assert forall|i: int| 0 <= i < a.len() implies !((#[trigger] a[i]) is CompactionComplete) by {
            assert((a + b)[i] == a[i]);
        }
        assert forall|i: int| 0 <= i < b.len() implies !((#[trigger] b[i]) is CompactionComplete) by {
            assert((a + b)[a.len() + i] == b[i]);
        }
    }
}

/// Results stay behind the calls of a message whatever is said before and after.
proof fn lemma_has_results_within(
    before: Seq<MessageView>,
    messages: Seq<MessageView>,
    after: Seq<MessageView>,
    i: int,
)
    requires
        0 <= i < messages.len(),
        has_results(messages, i),
    ensures
        has_results(before + messages + after, before.len() + i),
{
    let all = before + messages + after;
    let n = before.len() as int;
    let calls = calls_of(messages[i]);
    assert(all[n + i] == messages[i]);
    assert forall|j: int| 0 <= j < calls.len() implies {
        &&& (#[trigger] all[n + i + 1 + j]).role == Role::Tool
        &&& all[n + i + 1 + j].tool_call_id == Some(calls[j].id)
        &&& all[n + i + 1 + j].name == Some(calls[j].name)
    } by {
        assert(all[n + i + 1 + j] == messages[i + 1 + j]);
    }
}

/// What was said in two parts is answered where each of them is.
proof fn lemma_answered_parts(
    front: Seq<MessageView>,
    back: Seq<MessageView>,
    end: Option<EndView>,
)
    requires
        are_answered(front, None),
        are_answered(back, end),
    ensures
        are_answered(front + back, end),
{
    let all = front + back;
    let n = front.len() as int;
    assert forall|i: int| 0 <= i < all.len() implies (#[trigger] has_results(all, i) || (i
        == all.len() - 1 && end matches Some(EndView::Failed(_)))) by {
        if i < n {
            assert(has_results(front, i));
            lemma_has_results_within(seq![], front, back, i);
            assert(Seq::<MessageView>::empty() + front + back =~= all);
        } else if has_results(back, i - n) {
            lemma_has_results_within(front, back, seq![], i - n);
            assert(front + back + Seq::<MessageView>::empty() =~= all);
        }
    }
}

proof fn lemma_tool_results(s: LoopView, calls: Seq<ToolCallView>, outcomes: Outcomes)
    requires
        calls.len() == outcomes.len(),
    ensures
        with_tool_results(s, calls, outcomes) == (LoopView {
            messages: s.messages + result_messages(calls, outcomes),
            ..s
        }),
{
    lemma_results_keep_the_rest(s, calls, outcomes);
    law_each_call_gets_its_result(s, calls, outcomes);
    let after = with_tool_results(s, calls, outcomes).messages;
    let n = s.messages.len() as int;
    let expected = s.messages + result_messages(calls, outcomes);
    assert forall|i: int| 0 <= i < after.len() implies after[i] == expected[i] by {
        if i < n {
            assert(after.take(n)[i] == after[i]);
        } else {
            assert(after[n + (i - n)] == tool_message(
                calls[i - n],
                tool_outcome(calls[i - n].name, outcomes[i - n]).0,
            ));
        }
    }
    assert(after =~= expected);
}

proof fn lemma_results_keep_the_rest(s: LoopView, calls: Seq<ToolCallView>, outcomes: Outcomes)
    ensures
        with_tool_results(s, calls, outcomes) == (LoopView {
            messages: with_tool_results(s, calls, outcomes).messages,
            ..s
        }),
    decreases calls.len(),
{
    if calls.len() > 0 {
        lemma_results_keep_the_rest(s, calls.drop_last(), outcomes.drop_last());
    }
}

proof fn lemma_tool_events(calls: Seq<ToolCallView>, outcomes: Outcomes)
    ensures
        none_is_done(tool_events(calls, outcomes)),
        none_compacts(tool_events(calls, outcomes)),
    decreases calls.len(),
{
    if calls.len() > 0 {
        lemma_tool_events(calls.drop_last(), outcomes.drop_last());
    }
}

/// More is said: the conversation goes on standing for it.
proof fn lemma_stands_for_more(
    s: LoopView,
    t: LoopView,
    log: Seq<MessageView>,
    more: Seq<MessageView>,
)
    requires
        stands_for(s, log),
        t.messages == s.messages + more,
        t.compaction_state == s.compaction_state,
    ensures
        stands_for(t, log + more),
{
    if let Some((kept, summary)) = s.compaction_state {
        let k = choose|k: int| #[trigger] is_summarized(s.messages, log, summary, k);
        assert((log + more).skip(k) =~= log.skip(k) + more);
        assert(t.messages =~= seq![summary_message(summary)] + (log + more).skip(k));
        assert(is_summarized(t.messages, log + more, summary, k));
    }
}

/// What a conversation stands for is told by its messages and its last compaction.
proof fn lemma_stands_for_same(s: LoopView, t: LoopView, log: Seq<MessageView>)
    requires
        stands_for(s, log),
        t.messages == s.messages,
        t.compaction_state == s.compaction_state,
    ensures
        stands_for(t, log),
{
    if let Some((kept, summary)) = s.compaction_state {
        let k = choose|k: int| #[trigger] is_summarized(s.messages, log, summary, k);
        assert(is_summarized(t.messages, log, summary, k));
    }
}

proof fn lemma_summary_stands_for(
    s: LoopView,
    log: Seq<MessageView>,
    summary: Seq<char>,
    k: int,
)
    requires
        s.compaction_state == Some((1usize, summary)),
        is_summarized(s.messages, log, summary, k),
    ensures
        stands_for(s, log),
{
    let last = s.compaction_state->0;
    assert(last.1 == summary);
    assert(is_summarized(s.messages, log, last.1, k));
}

/// A compaction changes what the conversation is, not what it stands for.
proof fn lemma_compaction_tried(
    s: LoopView,
    settings: CompactionSettings,
    tokens: u32,
    round: RoundView,
    log: Seq<MessageView>,
)
    requires
        stands_for(s, log),
    ensures
        ({
            let (t, events, compacted) = compaction_tried(s, settings, tokens, round);
            &&& stands_for(t, log)
            &&& t == (LoopView {
                messages: t.messages,
                compaction_state: t.compaction_state,
                ..s
            })
            &&& none_is_done(events)
            &&& !compacted ==> t == s
            &&& none_compacts(events) ==> t == s
        }),
{
    let (t, events, compacted) = compaction_tried(s, settings, tokens, round);
    law_cut_keeps_results_with_calls(s.messages, settings.keep_recent_tokens, previous_kept(s));
    if let Some(p) = prepared(s.messages, settings, previous_kept(s)) {
        let outcome = finished(p, round.history, round.turn_prefix);
        assert(events[1] == compaction_event(outcome));
        assert(none_compacts(events) ==> !(events[1] is CompactionComplete));
        if let Ok(c) = outcome {
            let cut = c.first_kept_message_index;
            assert(cut == p.first_kept_message_index);
            assert(t.compaction_state == Some((1usize, c.summary)));
            match s.compaction_state {
                None => {
                    lemma_summary_stands_for(t, log, c.summary, cut);
                },
                Some((kept, summary)) => {
                    let k = choose|k: int| #[trigger] is_summarized(s.messages, log, summary, k);
                    // The summary is a message of the user, so that no turn is split
                    // at it, and the cut comes after it.
                    assert(s.messages[0] == summary_message(summary));
                    assert(cut >= 1);
                    assert(s.messages.skip(cut) =~= log.skip(k + cut - 1));
                    lemma_summary_stands_for(t, log, c.summary, k + cut - 1);
                },
            }
        }
    }
}

/// Events that do not tell that the loop is done change nothing of how a run ends.
proof fn lemma_reports_its_end(events: Seq<EventView>, run: RunView, turns: int)
    requires
        none_is_done(events),
        reports_its_end(run, turns),
    ensures
        reports_its_end(RunView { events: events + run.events, ..run }, turns),
{
    let whole = events + run.events;
    match run.end {
        Some(EndView::Replied) | Some(EndView::NotCompacted) => {
            assert(whole.drop_last() =~= events + run.events.drop_last());
            lemma_none_is_done(events, run.events.drop_last());
        },
        _ => {
            lemma_none_is_done(events, run.events);
        },
    }
}

/// What a round leaves of the loop, of what was said before it and of its turns.
spec fn round_holds(
    s: LoopView,
    config: AgentLoopConfig,
    round: RoundView,
    log: Seq<MessageView>,
    r: RunView,
) -> bool {
    let new = said_in(s, config, round);
    let runs = step_after(s, config, round.reply) is RunTools;
    &&& stands_for(r.state, log + new)
    &&& are_answered(new, r.end)
    &&& reports_its_end(r, s.turn + 1)
    &&& none_compacts(r.events) ==> r.state.compaction_state == s.compaction_state
    &&& runs ==> r.end is None && s.turn + 1 <= config.max_tool_rounds
    &&& r.end is None ==> {
        &&& is_running(r.state, config)
        &&& r.state.turn == s.turn + if runs {
            1int
        } else {
            0int
        }
        &&& round.reply is Message == runs
    }
    &&& r.end == Some(EndView::Replied) ==> {
        &&& round.reply is Message
        &&& new.len() == 1
        &&& calls_of(new[0]).len() == 0
        &&& r.state.messages.len() > 0
        &&& r.state.messages.last() == new[0]
    }
    &&& r.end == Some(EndView::NotCompacted) ==> !(round.reply is Message)
}

/// What is reported of a round before anything is decided.
spec fn opening(s: LoopView, round: RoundView) -> Seq<EventView> {
    seq![EventView::TurnStart { turn: s.turn }] + round.streamed + reply_taken(s, round.reply).1
}

proof fn lemma_opening(s: LoopView, round: RoundView)
    requires
        is_whole(round),
    ensures
        none_is_done(opening(s, round)),
        none_compacts(opening(s, round)),
{
    let all = opening(s, round);
    assert forall|i: int| 0 <= i < all.len() implies !((#[trigger] all[i]) is Done) && !(
    all[i] is CompactionComplete) by {
        if 1 <= i < 1 + round.streamed.len() {
            assert(all[i] == round.streamed[i - 1]);
            assert(is_streamed(round.streamed[i - 1]));
        }
    }
}

/// A message and the results of its calls are answered.
proof fn lemma_answered_message(message: MessageView, outcomes: Outcomes)
    requires
        outcomes.len() == calls_of(message).len(),
    ensures
        are_answered(seq![message] + result_messages(calls_of(message), outcomes), None),
{
    let calls = calls_of(message);
    let results = result_messages(calls, outcomes);
    let new = seq![message] + results;
    assert forall|i: int| 0 <= i < new.len() implies #[trigger] has_results(new, i) by {
        if i == 0 {
            assert forall|j: int| 0 <= j < calls.len() implies {
                &&& (#[trigger] new[i + 1 + j]).role == Role::Tool
                &&& new[i + 1 + j].tool_call_id == Some(calls[j].id)
                &&& new[i + 1 + j].name == Some(calls[j].name)
            } by {
                assert(new[i + 1 + j] == results[j]);
            }
        } else {
            assert(new[i] == results[i - 1]);
            assert(calls_of(new[i]) =~= seq![]);
        }
    }
}

proof fn lemma_round_with_tools(
    s: LoopView,
    config: AgentLoopConfig,
    window: u32,
    round: RoundView,
    log: Seq<MessageView>,
)
    requires
        is_running(s, config),
        s.turn < u32::MAX,
        is_whole(round),
        stands_for(s, log),
        step_after(s, config, round.reply) is RunTools,
    ensures
        round_holds(s, config, round, log, round_taken(s, config, window, round)),
{
    let (heard, told, answer) = reply_taken(s, round.reply);
    let (next, decided, step) = answered(heard, config, answer);
    reveal(round_taken);
    let calls = step->RunTools_0;
    let message = round.reply->Message_0;
    let new = said_in(s, config, round);
    let events = opening(s, round) + decided;
    lemma_opening(s, round);
    assert(events =~= opening(s, round));
    assert(calls == calls_of(message));
    assert(new == seq![message] + result_messages(calls, round.outcomes));
    lemma_answered_message(message, round.outcomes);
    lemma_tool_results(next, calls, round.outcomes);
    let ran_tools = with_tool_results(next, calls, round.outcomes);
    assert(ran_tools.messages =~= s.messages + new);
    lemma_stands_for_more(s, ran_tools, log, new);
    let tools = tool_events(calls, round.outcomes);
    lemma_tool_events(calls, round.outcomes);
    lemma_none_is_done(events, tools);
    lemma_none_compacts(events, tools);
    let tokens = context_tokens(ran_tools.messages, ran_tools.last_turn_usage);
    let r = round_taken(s, config, window, round);
    match (due_compaction(config, window, tokens), config.compaction) {
        (Some(due), Some(settings)) => {
            lemma_compaction_tried(ran_tools, settings, due, round, log + new);
            let (tried, reported, _) = compaction_tried(ran_tools, settings, due, round);
            assert(r.state == tried);
            assert(r.events == events + tools + reported);
            lemma_none_is_done(events + tools, reported);
            lemma_none_compacts(events + tools, reported);
        },
        _ => {
            assert(r.state == ran_tools);
            assert(r.events =~= events + tools);
        },
    }
}

proof fn lemma_round_with_overflow(
    s: LoopView,
    config: AgentLoopConfig,
    window: u32,
    round: RoundView,
    log: Seq<MessageView>,
)
    requires
        is_running(s, config),
        s.turn < u32::MAX,
        is_whole(round),
        stands_for(s, log),
        step_after(s, config, round.reply) is Compact,
    ensures
        round_holds(s, config, round, log, round_taken(s, config, window, round)),
{
    let (heard, told, answer) = reply_taken(s, round.reply);
    let (next, decided, step) = answered(heard, config, answer);
    reveal(round_taken);
    let tokens = step->Compact_0;
    let settings = config.compaction->0;
    let new = said_in(s, config, round);
    let events = opening(s, round) + decided;
    let r = round_taken(s, config, window, round);
    lemma_opening(s, round);
    lemma_none_is_done(opening(s, round), decided);
    lemma_none_compacts(opening(s, round), decided);
    assert(new =~= seq![]);
    assert(log + new =~= log);
    lemma_stands_for_same(s, next, log);
    lemma_compaction_tried(next, settings, tokens, round, log);
    let (tried, reported, compacted) = compaction_tried(next, settings, tokens, round);
    let (after, last, again) = overflow_handled(tried, compacted);
    lemma_none_is_done(events, reported);
    lemma_none_compacts(events, reported);
    lemma_none_compacts(events + reported, last);
    assert(r.events == events + reported + last);
    lemma_stands_for_same(tried, after, log);
    assert(r.state == after);
    if again {
        assert(r.events =~= events + reported);
    } else {
        assert(r.events.drop_last() =~= events + reported);
    }
}

proof fn lemma_last_round(
    s: LoopView,
    config: AgentLoopConfig,
    window: u32,
    round: RoundView,
    log: Seq<MessageView>,
)
    requires
        is_running(s, config),
        s.turn < u32::MAX,
        is_whole(round),
        stands_for(s, log),
        step_after(s, config, round.reply) is Finished || step_after(
            s,
            config,
            round.reply,
        ) is Failed,
    ensures
        round_holds(s, config, round, log, round_taken(s, config, window, round)),
{
    let (heard, told, answer) = reply_taken(s, round.reply);
    let (next, decided, step) = answered(heard, config, answer);
    let new = said_in(s, config, round);
    let events = opening(s, round) + decided;
    reveal(round_taken);
    lemma_opening(s, round);
    match round.reply {
        ReplyView::Message(message, _) => {
            assert(new =~= seq![message]);
            if step is Finished {
                assert(calls_of(message) =~= seq![]);
                assert(has_results(new, 0));
            }
        },
        _ => {
            assert(new =~= seq![]);
        },
    }
    assert(next.messages =~= s.messages + new);
    lemma_stands_for_more(s, next, log, new);
    if step is Finished {
        assert(events.drop_last() =~= opening(s, round));
    } else {
        lemma_none_is_done(opening(s, round), decided);
    }
}

proof fn lemma_round(
    s: LoopView,
    config: AgentLoopConfig,
    window: u32,
    round: RoundView,
    log: Seq<MessageView>,
)
    requires
        is_running(s, config),
        s.turn < u32::MAX,
        is_whole(round),
        stands_for(s, log),
    ensures
        round_holds(s, config, round, log, round_taken(s, config, window, round)),
{
    match step_after(s, config, round.reply) {
        StepView::RunTools(_) => lemma_round_with_tools(s, config, window, round, log),
        StepView::Compact(_) => lemma_round_with_overflow(s, config, window, round, log),
        _ => lemma_last_round(s, config, window, round, log),
    }
}

// ---------------------------------------------------------------------------
// Laws
// ---------------------------------------------------------------------------

/// What holds of every run, over any sequence of rounds, with compactions or
/// without, where `log` is what was said before it.
///
/// What the conversation stands for afterwards is what was said before and in the
/// run. Each tool call of a message of the run has its result, but for those of the
/// last message of a run that failed. Tools are run no more often than is allowed.
/// A run that did not fail reports that it is done, once and last, with the number
/// of its turns and the usage; any other run does not. The turns are the replies
/// that were taken: one for each time that tools were run, and the last one, which
/// makes no calls and ends the conversation. A run that ends because the
/// conversation could not be compacted counts the turn without a reply too.
pub proof fn law_run(
    s: LoopView,
    config: AgentLoopConfig,
    window: u32,
    rounds: Seq<RoundView>,
    log: Seq<MessageView>,
)
    requires
        is_running(s, config),
        s.turn + rounds.len() <= u32::MAX,
        stands_for(s, log),
        forall|i: int| 0 <= i < rounds.len() ==> is_whole(#[trigger] rounds[i]),
    ensures
        ({
            let run = ran(s, config, window, rounds);
            let new = said(s, config, window, rounds);
            let runs = tool_rounds(s, config, window, rounds);
            let replies = replies_taken(s, config, window, rounds);
            &&& stands_for(run.state, log + new)
            &&& are_answered(new, run.end)
            &&& s.turn + runs <= config.max_tool_rounds
            &&& reports_its_end(run, s.turn + runs + 1)
            &&& none_compacts(run.events) ==> run.state.compaction_state == s.compaction_state
            &&& run.end == Some(EndView::Replied) ==> {
                &&& replies == runs + 1
                &&& new.len() > 0
                &&& calls_of(new.last()).len() == 0
                &&& run.state.messages.len() > 0
                &&& run.state.messages.last() == new.last()
            }
            &&& run.end == Some(EndView::NotCompacted) ==> replies == runs
        }),
    decreases rounds.len(),
{
    if rounds.len() == 0 {
        assert(log + said(s, config, window, rounds) =~= log);
    } else {
        let round = rounds[0];
        let first = round_taken(s, config, window, round);
        let new = said_in(s, config, round);
        lemma_round(s, config, window, round, log);
        if first.end is Some {
            assert(new + Seq::<MessageView>::empty() =~= new);
        } else {
            let rest = rounds.skip(1);
            assert forall|i: int| 0 <= i < rest.len() implies is_whole(#[trigger] rest[i]) by {
                assert(rest[i] == rounds[i + 1]);
            }
            law_run(first.state, config, window, rest, log + new);
            let later = said(first.state, config, window, rest);
            let run = ran(first.state, config, window, rest);
            assert(log + new + later =~= log + (new + later));
            lemma_none_compacts(first.events, run.events);
            lemma_reports_its_end(
                first.events,
                run,
                s.turn + tool_rounds(s, config, window, rounds) + 1,
            );
            lemma_answered_parts(new, later, run.end);
        }
    }
}

/// A run in which nothing is compacted keeps the conversation before it as it was,
/// and adds to it what was said.
pub proof fn law_run_without_compaction_keeps_messages(
    s: LoopView,
    config: AgentLoopConfig,
    window: u32,
    rounds: Seq<RoundView>,
)
    requires
        is_running(s, config),
        s.turn + rounds.len() <= u32::MAX,
        s.compaction_state is None,
        forall|i: int| 0 <= i < rounds.len() ==> is_whole(#[trigger] rounds[i]),
        none_compacts(ran(s, config, window, rounds).events),
    ensures
        ran(s, config, window, rounds).state.messages == s.messages + said(
            s,
            config,
            window,
            rounds,
        ),
{
    law_run(s, config, window, rounds, s.messages);
}

/// A conversation in which every tool call has its result stays so: neither a round
/// nor a compaction parts a call from its result. Only the last message of a run
/// that failed can lack results.
pub proof fn law_calls_keep_their_results(
    s: LoopView,
    config: AgentLoopConfig,
    window: u32,
    rounds: Seq<RoundView>,
)
    requires
        is_running(s, config),
        s.turn + rounds.len() <= u32::MAX,
        s.compaction_state is None,
        are_answered(s.messages, None),
        forall|i: int| 0 <= i < rounds.len() ==> is_whole(#[trigger] rounds[i]),
    ensures
        are_answered(
            ran(s, config, window, rounds).state.messages,
            ran(s, config, window, rounds).end,
        ),
{
    law_run(s, config, window, rounds, s.messages);
    let run = ran(s, config, window, rounds);
    let new = said(s, config, window, rounds);
    let log = s.messages + new;
    lemma_answered_parts(s.messages, new, run.end);
    let messages = run.state.messages;
    if let Some((kept, summary)) = run.state.compaction_state {
        let k = choose|k: int| #[trigger] is_summarized(messages, log, summary, k);
        let tail = log.skip(k);
        assert forall|i: int| 0 <= i < messages.len() implies (#[trigger] has_results(messages, i)
            || (i == messages.len() - 1 && run.end matches Some(EndView::Failed(_)))) by {
            if i == 0 {
                assert(messages[0] == summary_message(summary));
                assert(calls_of(messages[0]) =~= seq![]);
            } else {
                let at = k + i - 1;
                assert(messages[i] == log[at]);
                if has_results(log, at) {
                    let calls = calls_of(log[at]);
                    assert forall|j: int| 0 <= j < calls.len() implies {
                        &&& (#[trigger] messages[i + 1 + j]).role == Role::Tool
                        &&& messages[i + 1 + j].tool_call_id == Some(calls[j].id)
                        &&& messages[i + 1 + j].name == Some(calls[j].name)
                    } by {
                        assert(messages[i + 1 + j] == tail[i + j]);
                        assert(tail[i + j] == log[at + 1 + j]);
                    }
                    assert(has_results(messages, i));
                }
            }
        }
    }
}

} // verus!
