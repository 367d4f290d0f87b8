//! What holds of normalized messages.

use vstd::prelude::*;

use crate::message_normalization::{
    adapted, completed, completion, completion_step, image_placeholder, images_replaced,
    missing_results, normalized_messages, results_completed, synthetic_result, takes_images,
    thinking_as_text, thinking_replaced, transformed, Completion, ToolCallIdNormalizer,
};
use crate::types::{BlockView, ContentView, MessageView, ModelInputKind, Role, ToolCallView};

verus! {

// ---------------------------------------------------------------------------
// Every tool call has a result
// ---------------------------------------------------------------------------

/// The tool call with an identifier that the message at `i` makes has a result:
/// a tool message with that identifier, before the assistant or the user speaks
/// again.
pub open spec fn is_answered(messages: Seq<MessageView>, i: int, id: Seq<char>) -> bool {
    exists|j: int| answers(messages, i, j, id)
}

/// The message at `j` is the result of a tool call that the message at `i` makes.
pub open spec fn answers(messages: Seq<MessageView>, i: int, j: int, id: Seq<char>) -> bool {
    &&& i < j < messages.len()
    &&& messages[j].role == Role::Tool
    &&& messages[j].tool_call_id == Some(id)
    &&& forall|k: int|
        i < k < j ==> (#[trigger] messages[k]).role != Role::Assistant && messages[k].role
            != Role::User
}

/// The tool calls that a message makes.
pub open spec fn calls_of(m: MessageView) -> Seq<ToolCallView> {
    match m.tool_calls {
        Some(calls) => if m.role == Role::Assistant {
            calls
        } else {
            seq![]
        },
        None => seq![],
    }
}

/// Every tool call that the message at `i` makes has a result.
pub open spec fn is_complete_at(messages: Seq<MessageView>, i: int) -> bool {
    forall|k: int|
        0 <= k < calls_of(messages[i]).len() ==> is_answered(
            messages,
            i,
            (#[trigger] calls_of(messages[i])[k]).id,
        )
}

/// What holds on the way: all calls have results but those of the message at
/// `p`, which are pending; no other assistant or user message follows it.
spec fn on_the_way(c: Completion, p: int) -> bool {
    &&& -1 <= p < c.result.len()
    &&& c.pending == if p >= 0 {
        calls_of(c.result[p])
    } else {
        seq![]
    }
    &&& forall|k: int|
        p >= 0 && p < k < c.result.len() ==> (#[trigger] c.result[k]).role != Role::Assistant
            && c.result[k].role != Role::User
    &&& forall|i: int|
        0 <= i < c.result.len() && i != p ==> #[trigger] is_complete_at(c.result, i)
    &&& forall|a: int|
        p >= 0 && 0 <= a < c.there.len() ==> is_answered(c.result, p, #[trigger] c.there[a])
}

proof fn lemma_answered_stays(
    messages: Seq<MessageView>,
    more: Seq<MessageView>,
    i: int,
    id: Seq<char>,
)
    requires
        0 <= i,
        is_answered(messages, i, id),
    ensures
        is_answered(messages + more, i, id),
{
    let j = choose|j: int| answers(messages, i, j, id);
    let all = messages + more;
    assert forall|k: int| i < k < j implies (#[trigger] all[k]).role != Role::Assistant
        && all[k].role != Role::User by {
        assert(all[k] == messages[k]);
    }
    assert(answers(all, i, j, id));
}

proof fn lemma_complete_stays(messages: Seq<MessageView>, more: Seq<MessageView>, i: int)
    requires
        0 <= i < messages.len(),
        is_complete_at(messages, i),
    ensures
        is_complete_at(messages + more, i),
{
    let all = messages + more;
    assert(all[i] == messages[i]);
    assert forall|k: int| 0 <= k < calls_of(all[i]).len() implies is_answered(
        all,
        i,
        (#[trigger] calls_of(all[i])[k]).id,
    ) by {
        assert(is_answered(messages, i, calls_of(messages[i])[k].id));
        lemma_answered_stays(messages, more, i, calls_of(all[i])[k].id);
    }
}

/// Each call has a result among those that are there or among the missing ones,
/// which are all results.
proof fn lemma_missing_results(calls: Seq<ToolCallView>, there: Seq<Seq<char>>)
    ensures
        forall|k: int|
            0 <= k < calls.len() ==> there.contains((#[trigger] calls[k]).id) || exists|j: int|
                0 <= j < missing_results(calls, there).len() && (#[trigger] missing_results(
                    calls,
                    there,
                )[j]).tool_call_id == Some(calls[k].id),
        forall|j: int|
            0 <= j < missing_results(calls, there).len() ==> {
                let m = #[trigger] missing_results(calls, there)[j];
                &&& m.role == Role::Tool
                &&& m.tool_call_id is Some
                &&& !there.contains(m.tool_call_id->0)
                &&& m.content is Some
                &&& m.content->0 is Text
                &&& m.tool_calls is None
            },
    decreases calls.len(),
{
    if calls.len() > 0 {
        let front = missing_results(calls.drop_last(), there);
        let whole = missing_results(calls, there);
        lemma_missing_results(calls.drop_last(), there);
        assert forall|j: int| 0 <= j < whole.len() implies {
            let m = #[trigger] whole[j];
            &&& m.role == Role::Tool
            &&& m.tool_call_id is Some
            &&& !there.contains(m.tool_call_id->0)
            &&& m.content is Some
            &&& m.content->0 is Text
            &&& m.tool_calls is None
        } by {
            if j < front.len() {
                assert(whole[j] == front[j]);
            }
        }
        assert forall|k: int| 0 <= k < calls.len() implies there.contains((#[trigger] calls[k]).id)
            || exists|j: int|
            0 <= j < whole.len() && (#[trigger] whole[j]).tool_call_id == Some(calls[k].id) by {
            if k < calls.len() - 1 {
                assert(calls.drop_last()[k] == calls[k]);
                if !there.contains(calls[k].id) {
                    let j = choose|j: int|
                        0 <= j < front.len() && (#[trigger] front[j]).tool_call_id == Some(
                            calls[k].id,
                        );
                    assert(whole[j] == front[j]);
                }
            } else if !there.contains(calls[k].id) {
                assert(whole[whole.len() - 1] == synthetic_result(calls[k]));
            }
        }
    }
}

/// Once the missing results are in, every call has one.
proof fn lemma_completed(c: Completion, p: int)
    requires
        on_the_way(c, p),
    ensures
        forall|i: int|
            0 <= i < completed(c).result.len() ==> #[trigger] is_complete_at(
                completed(c).result,
                i,
            ),
{
    let missing = missing_results(c.pending, c.there);
    let all = c.result + missing;
    lemma_missing_results(c.pending, c.there);
    assert forall|i: int| 0 <= i < all.len() implies #[trigger] is_complete_at(all, i) by {
        if i >= c.result.len() {
            assert(all[i] == missing[i - c.result.len()]);
        } else if i != p {
            assert(is_complete_at(c.result, i));
            lemma_complete_stays(c.result, missing, i);
        } else {
            assert(all[p] == c.result[p]);
            assert forall|k: int| 0 <= k < calls_of(all[p]).len() implies is_answered(
                all,
                p,
                (#[trigger] calls_of(all[p])[k]).id,
            ) by {
                let id = c.pending[k].id;
                if c.there.contains(id) {
                    let a = choose|a: int| 0 <= a < c.there.len() && c.there[a] == id;
                    assert(is_answered(c.result, p, c.there[a]));
                    lemma_answered_stays(c.result, missing, p, id);
                } else {
                    let j = choose|j: int|
                        0 <= j < missing.len() && (#[trigger] missing[j]).tool_call_id == Some(id);
                    assert(all[c.result.len() + j] == missing[j]);
                    assert forall|k2: int| p < k2 < c.result.len() + j implies (
                    #[trigger] all[k2]).role != Role::Assistant && all[k2].role != Role::User by {
                        if k2 < c.result.len() {
                            assert(all[k2] == c.result[k2]);
                        } else {
                            assert(all[k2] == missing[k2 - c.result.len()]);
                        }
                    }
                    assert(answers(all, p, c.result.len() + j, id));
                }
            }
        }
    }
}

proof fn lemma_on_the_way(messages: Seq<MessageView>) -> (p: int)
    ensures
        on_the_way(completion(messages), p),
    decreases messages.len(),
{
    if messages.len() == 0 {
        -1
    } else {
        let c = completion(messages.drop_last());
        let m = messages.last();
        let next = completion_step(c, m);
        let p = lemma_on_the_way(messages.drop_last());
        match m.role {
            Role::Assistant => {
                let done = completed(c).result;
                lemma_completed(c, p);
                let q = done.len() as int;
                assert(next.result =~= done + seq![m]);
                assert forall|i: int| 0 <= i < next.result.len() && i != q implies #[trigger] is_complete_at(
                next.result, i) by {
                    assert(is_complete_at(done, i));
                    lemma_complete_stays(done, seq![m], i);
                }
                q
            },
            Role::User => {
                let done = completed(c).result;
                lemma_completed(c, p);
                assert(next.result =~= done + seq![m]);
                assert forall|i: int| 0 <= i < next.result.len() implies #[trigger] is_complete_at(
                    next.result,
                    i,
                ) by {
                    if i < done.len() {
                        assert(is_complete_at(done, i));
                        lemma_complete_stays(done, seq![m], i);
                    } else {
                        assert(next.result[i] == m);
                    }
                }
                -1
            },
            _ => {
                assert(next.result =~= c.result + seq![m]);
                let n = c.result.len() as int;
                assert(next.result[n] == m);
                assert forall|i: int| 0 <= i < next.result.len() && i != p implies #[trigger] is_complete_at(
                next.result, i) by {
                    if i < n {
                        assert(is_complete_at(c.result, i));
                        lemma_complete_stays(c.result, seq![m], i);
                    }
                }
                assert(p >= 0 ==> next.result[p] == c.result[p]);
                assert forall|k: int| p >= 0 && p < k < next.result.len() implies (
                #[trigger] next.result[k]).role != Role::Assistant && next.result[k].role
                    != Role::User by {
                    if k < n {
                        assert(next.result[k] == c.result[k]);
                    }
                }
                assert forall|a: int| p >= 0 && 0 <= a < next.there.len() implies is_answered(
                    next.result,
                    p,
                    #[trigger] next.there[a],
                ) by {
                    if a < c.there.len() {
                        assert(next.there[a] == c.there[a]);
                        assert(is_answered(c.result, p, c.there[a]));
                        lemma_answered_stays(c.result, seq![m], p, c.there[a]);
                    } else {
                        assert(answers(next.result, p, n, next.there[a]));
                    }
                }
                p
            },
        }
    }
}

/// In normalized messages, every tool call that the assistant makes has a result
/// before the assistant or the user speaks again.
pub proof fn law_every_call_has_a_result<N: ToolCallIdNormalizer>(
    messages: Seq<MessageView>,
    input: Seq<ModelInputKind>,
    n: Option<N>,
    preserve_thinking: bool,
    i: int,
)
    requires
        0 <= i < normalized_messages(messages, input, n, preserve_thinking).len(),
    ensures
        is_complete_at(normalized_messages(messages, input, n, preserve_thinking), i),
{
    let x = transformed(messages, takes_images(input), n, preserve_thinking).0;
    let p = lemma_on_the_way(x);
    lemma_completed(completion(x), p);
}

// ---------------------------------------------------------------------------
// Normalizing twice
// ---------------------------------------------------------------------------

proof fn lemma_replay_results(c: Completion, calls: Seq<ToolCallView>, n: int)
    requires
        completion(c.result) == c,
        0 <= n <= missing_results(calls, c.there).len(),
    ensures
        ({
            let missing = missing_results(calls, c.there).take(n);
            completion(c.result + missing) == (Completion {
                result: c.result + missing,
                pending: c.pending,
                there: c.there + missing.map_values(|m: MessageView| m.tool_call_id->0),
            })
        }),
    decreases n,
{
    let all = missing_results(calls, c.there);
    let missing = all.take(n);
    lemma_missing_results(calls, c.there);
    if n == 0 {
        assert(c.result + missing =~= c.result);
        assert(c.there + missing.map_values(|m: MessageView| m.tool_call_id->0) =~= c.there);
    } else {
        lemma_replay_results(c, calls, n - 1);
        let front = all.take(n - 1);
        assert((c.result + missing).drop_last() =~= c.result + front);
        assert((c.result + missing).last() == all[n - 1]);
        let next = completion(c.result + missing);
        assert(next.result =~= c.result + missing);
        assert(next.there =~= c.there + missing.map_values(|m: MessageView| m.tool_call_id->0));
    }
}

/// Putting in missing results is nothing to do where they are all there.
proof fn lemma_nothing_missing(calls: Seq<ToolCallView>, there: Seq<Seq<char>>)
    requires
        forall|k: int| 0 <= k < calls.len() ==> there.contains((#[trigger] calls[k]).id),
    ensures
        missing_results(calls, there) == Seq::<MessageView>::empty(),
    decreases calls.len(),
{
    if calls.len() > 0 {
        assert forall|k: int| 0 <= k < calls.drop_last().len() implies there.contains(
            (#[trigger] calls.drop_last()[k]).id,
        ) by {
            assert(calls.drop_last()[k] == calls[k]);
        }
        lemma_nothing_missing(calls.drop_last(), there);
        assert(calls.last() == calls[calls.len() - 1]);
    }
}

/// Taking in messages whose results are complete changes nothing.
proof fn lemma_replay_completed(c: Completion)
    requires
        completion(c.result) == c,
    ensures
        completed(completion(completed(c).result)).result == completed(c).result,
{
    let missing = missing_results(c.pending, c.there);
    lemma_replay_results(c, c.pending, missing.len() as int);
    assert(missing.take(missing.len() as int) =~= missing);
    let again = completion(c.result + missing);
    let ids = missing.map_values(|m: MessageView| m.tool_call_id->0);
    lemma_missing_results(c.pending, c.there);
    assert forall|k: int| 0 <= k < c.pending.len() implies again.there.contains(
        (#[trigger] c.pending[k]).id,
    ) by {
        let id = c.pending[k].id;
        if c.there.contains(id) {
            let a = choose|a: int| 0 <= a < c.there.len() && c.there[a] == id;
            assert(again.there[a] == id);
        } else {
            let j = choose|j: int|
                0 <= j < missing.len() && (#[trigger] missing[j]).tool_call_id == Some(id);
            assert(ids[j] == id);
            assert(again.there[c.there.len() + j] == id);
        }
    }
    lemma_nothing_missing(c.pending, again.there);
    assert(completed(again).result =~= c.result + missing);
}

proof fn lemma_replay(messages: Seq<MessageView>)
    ensures
        completion(completion(messages).result) == completion(messages),
    decreases messages.len(),
{
    let whole = completion(messages);
    if messages.len() == 0 {
        assert(whole.result =~= seq![]);
    } else {
        let c = completion(messages.drop_last());
        let m = messages.last();
        lemma_replay(messages.drop_last());
        if m.role == Role::Assistant || m.role == Role::User {
            lemma_replay_completed(c);
            let done = completed(c).result;
            assert(whole.result =~= done.push(m));
            assert(whole.result.drop_last() =~= done);
            assert(completed(completion(done)).result == done);
        } else {
            assert(whole.result.drop_last() =~= c.result);
            assert(whole.result.last() == m);
        }
    }
}

/// Completing tool results twice is the same as completing them once.
pub proof fn law_completing_twice(messages: Seq<MessageView>)
    ensures
        results_completed(results_completed(messages)) == results_completed(messages),
{
    lemma_replay(messages);
    lemma_replay_completed(completion(messages));
}

proof fn lemma_no_images_left(blocks: Seq<BlockView>, placeholder: Seq<char>)
    ensures
        forall|i: int|
            0 <= i < images_replaced(blocks, placeholder).len() ==> !((#[trigger] images_replaced(
                blocks,
                placeholder,
            )[i]) is Image),
    decreases blocks.len(),
{
    if blocks.len() > 0 {
        lemma_no_images_left(blocks.drop_last(), placeholder);
        let front = images_replaced(blocks.drop_last(), placeholder);
        let whole = images_replaced(blocks, placeholder);
        assert forall|i: int| 0 <= i < whole.len() implies !((#[trigger] whole[i]) is Image) by {
            if i < front.len() {
                assert(whole[i] == front[i]);
            }
        }
    }
}

proof fn lemma_no_images_unchanged(blocks: Seq<BlockView>, placeholder: Seq<char>)
    requires
        forall|i: int| 0 <= i < blocks.len() ==> !((#[trigger] blocks[i]) is Image),
    ensures
        images_replaced(blocks, placeholder) == blocks,
    decreases blocks.len(),
{
    if blocks.len() > 0 {
        assert forall|i: int| 0 <= i < blocks.drop_last().len() implies !((
        #[trigger] blocks.drop_last()[i]) is Image) by {
            assert(blocks.drop_last()[i] == blocks[i]);
        }
        lemma_no_images_unchanged(blocks.drop_last(), placeholder);
        assert(!(blocks[blocks.len() - 1] is Image));
        assert(blocks.drop_last().push(blocks.last()) =~= blocks);
    } else {
        assert(blocks =~= seq![]);
    }
}

proof fn lemma_no_thinking_left(blocks: Seq<BlockView>)
    ensures
        forall|i: int|
            0 <= i < thinking_replaced(blocks).len() ==> !((#[trigger] thinking_replaced(
                blocks,
            )[i]) is Thinking),
    decreases blocks.len(),
{
    if blocks.len() > 0 {
        lemma_no_thinking_left(blocks.drop_last());
        let front = thinking_replaced(blocks.drop_last());
        let whole = thinking_replaced(blocks);
        assert forall|i: int| 0 <= i < whole.len() implies !((#[trigger] whole[i]) is Thinking) by {
            if i < front.len() {
                assert(whole[i] == front[i]);
            } else {
                assert(whole[i] == thinking_as_text(blocks.last())[i - front.len()]);
            }
        }
    }
}

proof fn lemma_no_thinking_unchanged(blocks: Seq<BlockView>)
    requires
        forall|i: int| 0 <= i < blocks.len() ==> !((#[trigger] blocks[i]) is Thinking),
    ensures
        thinking_replaced(blocks) == blocks,
    decreases blocks.len(),
{
    if blocks.len() > 0 {
        assert forall|i: int| 0 <= i < blocks.drop_last().len() implies !((
        #[trigger] blocks.drop_last()[i]) is Thinking) by {
            assert(blocks.drop_last()[i] == blocks[i]);
        }
        lemma_no_thinking_unchanged(blocks.drop_last());
        assert(!(blocks[blocks.len() - 1] is Thinking));
        assert(blocks.drop_last() + seq![blocks.last()] =~= blocks);
    } else {
        assert(blocks =~= seq![]);
    }
}

/// Adapting a message twice is the same as adapting it once.
pub proof fn law_adapting_twice(m: MessageView, images: bool, preserve_thinking: bool)
    ensures
        adapted(adapted(m, images, preserve_thinking), images, preserve_thinking) == adapted(
            m,
            images,
            preserve_thinking,
        ),
{
    match m.content {
        Some(ContentView::Blocks(blocks)) => {
            if let Some(placeholder) = image_placeholder(m.role) {
                lemma_no_images_left(blocks, placeholder);
                lemma_no_images_unchanged(images_replaced(blocks, placeholder), placeholder);
            }
            lemma_no_thinking_left(blocks);
            lemma_no_thinking_unchanged(thinking_replaced(blocks));
        },
        _ => {},
    }
}

/// Without a normalizer of identifiers, each message is adapted on its own.
proof fn lemma_transformed_alone<N: ToolCallIdNormalizer>(
    messages: Seq<MessageView>,
    images: bool,
    preserve_thinking: bool,
)
    ensures
        transformed(messages, images, None::<N>, preserve_thinking).0 == messages.map_values(
            |m: MessageView| adapted(m, images, preserve_thinking),
        ),
    decreases messages.len(),
{
    let mapped = messages.map_values(|m: MessageView| adapted(m, images, preserve_thinking));
    if messages.len() > 0 {
        lemma_transformed_alone::<N>(messages.drop_last(), images, preserve_thinking);
        assert(mapped =~= messages.drop_last().map_values(
            |m: MessageView| adapted(m, images, preserve_thinking),
        ).push(adapted(messages.last(), images, preserve_thinking)));
    } else {
        assert(mapped =~= seq![]);
    }
}

proof fn lemma_results_adapted(messages: Seq<MessageView>, images: bool, preserve_thinking: bool)
    requires
        forall|i: int|
            0 <= i < messages.len() ==> adapted(
                #[trigger] messages[i],
                images,
                preserve_thinking,
            ) == messages[i],
    ensures
        forall|i: int|
            0 <= i < completion(messages).result.len() ==> adapted(
                #[trigger] completion(messages).result[i],
                images,
                preserve_thinking,
            ) == completion(messages).result[i],
        forall|i: int|
            0 <= i < results_completed(messages).len() ==> adapted(
                #[trigger] results_completed(messages)[i],
                images,
                preserve_thinking,
            ) == results_completed(messages)[i],
    decreases messages.len(),
{
    let whole = completion(messages);
    if messages.len() > 0 {
        let front = messages.drop_last();
        let m = messages.last();
        assert forall|i: int| 0 <= i < front.len() implies adapted(
            #[trigger] front[i],
            images,
            preserve_thinking,
        ) == front[i] by {
            assert(front[i] == messages[i]);
        }
        lemma_results_adapted(front, images, preserve_thinking);
        let c = completion(front);
        assert(adapted(messages[messages.len() - 1], images, preserve_thinking) == m);
        assert forall|i: int| 0 <= i < whole.result.len() implies adapted(
            #[trigger] whole.result[i],
            images,
            preserve_thinking,
        ) == whole.result[i] by {
            if i < whole.result.len() - 1 {
                if m.role == Role::Assistant || m.role == Role::User {
                    assert(whole.result[i] == results_completed(front)[i]);
                } else {
                    assert(whole.result[i] == c.result[i]);
                }
            }
        }
    }
    let missing = missing_results(whole.pending, whole.there);
    lemma_missing_results(whole.pending, whole.there);
    assert forall|i: int| 0 <= i < results_completed(messages).len() implies adapted(
        #[trigger] results_completed(messages)[i],
        images,
        preserve_thinking,
    ) == results_completed(messages)[i] by {
        if i < whole.result.len() {
            assert(results_completed(messages)[i] == whole.result[i]);
        } else {
            assert(results_completed(messages)[i] == missing[i - whole.result.len()]);
        }
    }
}

/// Normalizing messages twice is the same as normalizing them once, where
/// identifiers are left as they are.
pub proof fn law_normalizing_twice<N: ToolCallIdNormalizer>(
    messages: Seq<MessageView>,
    input: Seq<ModelInputKind>,
    preserve_thinking: bool,
)
    ensures
        ({
            let once = normalized_messages(messages, input, None::<N>, preserve_thinking);
            normalized_messages(once, input, None::<N>, preserve_thinking) == once
        }),
{
    let images = takes_images(input);
    let once = normalized_messages(messages, input, None::<N>, preserve_thinking);
    let x = transformed(messages, images, None::<N>, preserve_thinking).0;
    lemma_transformed_alone::<N>(messages, images, preserve_thinking);
    assert forall|i: int| 0 <= i < x.len() implies adapted(
        #[trigger] x[i],
        images,
        preserve_thinking,
    ) == x[i] by {
        law_adapting_twice(messages[i], images, preserve_thinking);
    }
    lemma_results_adapted(x, images, preserve_thinking);
    lemma_transformed_alone::<N>(once, images, preserve_thinking);
    assert(transformed(once, images, None::<N>, preserve_thinking).0 =~= once);
    law_completing_twice(x);
}

} // verus!
