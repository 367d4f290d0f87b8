//! What normalizing messages keeps, and what it changes.

use vstd::prelude::*;

use crate::listing::{is_taken_from, law_selected, selected};
use crate::message_normalization::{
    adapted, completed, completion, ids_normalized, image_placeholder, images_replaced,
    missing_results, normalized_messages, renamed, renames_after_calls, results_completed,
    takes_images, thinking_replaced, transformed, Completion, Renames, ToolCallIdNormalizer,
};
use crate::text::is_white_space;
use crate::text_laws::law_trimmed;
use crate::types::{BlockView, ContentView, MessageView, ModelInputKind, Role, ToolCallView};

verus! {

// ---------------------------------------------------------------------------
// Identifiers
// ---------------------------------------------------------------------------

/// A message is one of the assistant that calls a tool under an identifier.
pub open spec fn calls_under(m: MessageView, id: Seq<char>) -> bool {
    &&& m.role == Role::Assistant
    &&& m.tool_calls matches Some(calls) && exists|c: int|
        0 <= c < calls.len() && (#[trigger] calls[c]).id == id
}

/// The message at `k` is the last before `i` that calls a tool under an identifier
/// for which the normalizer has another one.
pub open spec fn is_last_renaming<N: ToolCallIdNormalizer>(
    n: N,
    messages: Seq<MessageView>,
    i: int,
    id: Seq<char>,
    k: int,
) -> bool {
    &&& 0 <= k < i
    &&& calls_under(messages[k], id)
    &&& n.normalized(id, messages[k]) != id
    &&& forall|j: int|
        k < j < i && calls_under(#[trigger] messages[j], id) ==> n.normalized(id, messages[j]) == id
}

/// No message before `i` calls a tool under an identifier for which the normalizer
/// has another one.
pub open spec fn is_not_renamed<N: ToolCallIdNormalizer>(
    n: N,
    messages: Seq<MessageView>,
    i: int,
    id: Seq<char>,
) -> bool {
    forall|j: int|
        0 <= j < i && calls_under(#[trigger] messages[j], id) ==> n.normalized(id, messages[j])
            == id
}

/// What became of a message whose identifiers were normalized: each call of the
/// assistant has the normalizer's identifier, each tool result that of its call,
/// and nothing else has changed.
pub open spec fn has_normal_ids<N: ToolCallIdNormalizer>(
    n: N,
    messages: Seq<MessageView>,
    i: int,
    out: MessageView,
) -> bool {
    let m = messages[i];
    &&& out.role == m.role
    &&& out.content == m.content
    &&& out.name == m.name
    &&& if m.role == Role::Assistant {
        &&& out.tool_call_id == m.tool_call_id
        &&& match (m.tool_calls, out.tool_calls) {
            (None, None) => true,
            (Some(calls), Some(others)) => {
                &&& others.len() == calls.len()
                &&& forall|c: int|
                    0 <= c < calls.len() ==> {
                        &&& (#[trigger] others[c]).id == n.normalized(calls[c].id, m)
                        &&& others[c].name == calls[c].name
                        &&& others[c].arguments == calls[c].arguments
                    }
            },
            _ => false,
        }
    } else {
        &&& out.tool_calls == m.tool_calls
        &&& match (m.tool_call_id, out.tool_call_id) {
            (None, None) => true,
            (Some(id), Some(new_id)) => if m.role == Role::Tool {
                ||| is_not_renamed(n, messages, i, id) && new_id == id
                ||| exists|k: int| #[trigger]
                    is_last_renaming(n, messages, i, id, k) && new_id == n.normalized(
                        id,
                        messages[k],
                    )
            } else {
                new_id == id
            },
            _ => false,
        }
    }
}

proof fn lemma_renamed_after_calls<N: ToolCallIdNormalizer>(
    n: N,
    renames: Renames,
    calls: Seq<ToolCallView>,
    m: MessageView,
    id: Seq<char>,
)
    ensures
        renamed(renames_after_calls(n, renames, calls, m), id) == if (exists|c: int|
            0 <= c < calls.len() && (#[trigger] calls[c]).id == id) && n.normalized(id, m) != id {
            Some(n.normalized(id, m))
        } else {
            renamed(renames, id)
        },
    decreases calls.len(),
{
    if calls.len() > 0 {
        let front = calls.drop_last();
        lemma_renamed_after_calls(n, renames, front, m, id);
        let before = renames_after_calls(n, renames, front, m);
        let next = before.push((calls.last().id, n.normalized(calls.last().id, m)));
        assert(next.drop_last() =~= before);
        if exists|c: int| 0 <= c < front.len() && (#[trigger] front[c]).id == id {
            let c = choose|c: int| 0 <= c < front.len() && (#[trigger] front[c]).id == id;
            assert(calls[c].id == id);
        } else if calls.last().id == id {
            assert(calls[calls.len() - 1].id == id);
        } else {
            assert forall|c: int| 0 <= c < calls.len() implies (#[trigger] calls[c]).id != id by {
                if c < front.len() {
                    assert(front[c] == calls[c]);
                }
            }
        }
    }
}

/// The messages as they are before their identifiers are normalized.
pub open spec fn all_adapted(
    messages: Seq<MessageView>,
    images: bool,
    preserve_thinking: bool,
) -> Seq<MessageView> {
    messages.map_values(|m: MessageView| adapted(m, images, preserve_thinking))
}

proof fn lemma_renames<N: ToolCallIdNormalizer>(
    messages: Seq<MessageView>,
    images: bool,
    n: N,
    preserve_thinking: bool,
    id: Seq<char>,
)
    ensures
        ({
            let all = all_adapted(messages, images, preserve_thinking);
            match renamed(transformed(messages, images, Some(n), preserve_thinking).1, id) {
                Some(new_id) => exists|k: int| #[trigger]
                    is_last_renaming(n, all, all.len() as int, id, k) && new_id == n.normalized(
                        id,
                        all[k],
                    ),
                None => is_not_renamed(n, all, all.len() as int, id),
            }
        }),
    decreases messages.len(),
{
    let all = all_adapted(messages, images, preserve_thinking);
    let len = all.len() as int;
    if messages.len() > 0 {
        let front = messages.drop_last();
        let before = all_adapted(front, images, preserve_thinking);
        let (_, renames) = transformed(front, images, Some(n), preserve_thinking);
        let m = adapted(messages.last(), images, preserve_thinking);
        assert(before =~= all.drop_last());
        assert(all[len - 1] == m);
        lemma_renames(front, images, n, preserve_thinking, id);
        if let Some(calls) = m.tool_calls {
            lemma_renamed_after_calls(n, renames, calls, m, id);
        }
        if calls_under(m, id) && n.normalized(id, m) != id {
            assert(is_last_renaming(n, all, len, id, len - 1));
        } else if renamed(renames, id) is Some {
            let k = choose|k: int| #[trigger]
                is_last_renaming(n, before, len - 1, id, k) && renamed(renames, id)->0
                    == n.normalized(id, before[k]);
            assert forall|j: int| k < j < len && calls_under(#[trigger] all[j], id) implies
                n.normalized(id, all[j]) == id by {
                if j < len - 1 {
                    assert(before[j] == all[j]);
                }
            }
            assert(is_last_renaming(n, all, len, id, k));
        } else {
            assert forall|j: int| 0 <= j < len && calls_under(#[trigger] all[j], id) implies
                n.normalized(id, all[j]) == id by {
                if j < len - 1 {
                    assert(before[j] == all[j]);
                }
            }
        }
    }
}

proof fn lemma_renaming_stays<N: ToolCallIdNormalizer>(
    n: N,
    front: Seq<MessageView>,
    all: Seq<MessageView>,
    i: int,
    out: MessageView,
)
    requires
        0 <= i < front.len() <= all.len(),
        forall|j: int| 0 <= j < front.len() ==> #[trigger] front[j] == all[j],
        has_normal_ids(n, front, i, out),
    ensures
        has_normal_ids(n, all, i, out),
{
    assert(front[i] == all[i]);
    if all[i].role == Role::Tool && all[i].tool_call_id is Some {
        let id = all[i].tool_call_id->0;
        if is_not_renamed(n, front, i, id) {
            assert forall|j: int| 0 <= j < i && calls_under(#[trigger] all[j], id) implies
                n.normalized(id, all[j]) == id by {
                assert(front[j] == all[j]);
            }
        } else {
            let k = choose|k: int| #[trigger]
                is_last_renaming(n, front, i, id, k) && out.tool_call_id->0 == n.normalized(
                    id,
                    front[k],
                );
            assert(front[k] == all[k]);
            assert forall|j: int| k < j < i && calls_under(#[trigger] all[j], id) implies
                n.normalized(id, all[j]) == id by {
                assert(front[j] == all[j]);
            }
            assert(is_last_renaming(n, all, i, id, k));
        }
    }
}

proof fn lemma_transformed<N: ToolCallIdNormalizer>(
    messages: Seq<MessageView>,
    images: bool,
    n: N,
    preserve_thinking: bool,
)
    ensures
        ({
            let all = all_adapted(messages, images, preserve_thinking);
            let out = transformed(messages, images, Some(n), preserve_thinking).0;
            &&& out.len() == all.len()
            &&& forall|i: int|
                0 <= i < all.len() ==> has_normal_ids(n, all, i, #[trigger] out[i])
        }),
    decreases messages.len(),
{
    let all = all_adapted(messages, images, preserve_thinking);
    let out = transformed(messages, images, Some(n), preserve_thinking).0;
    if messages.len() > 0 {
        let len = messages.len() - 1;
        let front = messages.drop_last();
        let before = all_adapted(front, images, preserve_thinking);
        let (done, renames) = transformed(front, images, Some(n), preserve_thinking);
        let m = adapted(messages.last(), images, preserve_thinking);
        assert(before =~= all.drop_last());
        assert(all[len] == m);
        lemma_transformed(front, images, n, preserve_thinking);
        assert(out[len] == ids_normalized(Some(n), renames, m));
        if m.role == Role::Tool && m.tool_call_id is Some {
            let id = m.tool_call_id->0;
            lemma_renames(front, images, n, preserve_thinking, id);
            if renamed(renames, id) is Some {
                let k = choose|k: int| #[trigger]
                    is_last_renaming(n, before, len, id, k) && renamed(renames, id)->0
                        == n.normalized(id, before[k]);
                assert(before[k] == all[k]);
                assert forall|j: int| k < j < len && calls_under(#[trigger] all[j], id) implies
                    n.normalized(id, all[j]) == id by {
                    assert(before[j] == all[j]);
                }
                assert(is_last_renaming(n, all, len, id, k));
            } else {
                assert forall|j: int| 0 <= j < len && calls_under(#[trigger] all[j], id) implies
                    n.normalized(id, all[j]) == id by {
                    assert(before[j] == all[j]);
                }
            }
        }
        assert(has_normal_ids(n, all, len, out[len]));
        assert forall|i: int| 0 <= i < all.len() implies has_normal_ids(
            n,
            all,
            i,
            #[trigger] out[i],
        ) by {
            if i < len {
                assert(out[i] == done[i]);
                lemma_renaming_stays(n, before, all, i, out[i]);
            }
        }
    }
}

// ---------------------------------------------------------------------------
// Which messages come out
// ---------------------------------------------------------------------------

/// The message at `k` stands for a result that no tool gave: that of a call of the
/// assistant message at `p`, of which no message of the conversation is the result.
/// The next message of the conversation is one of the assistant or the user.
pub open spec fn is_filled_in(
    out: Seq<MessageView>,
    places: Seq<int>,
    k: int,
    p: int,
) -> bool {
    &&& 0 <= p < k < out.len()
    &&& out[k].role == Role::Tool
    &&& out[k].content == Some(ContentView::Text("No result provided"@))
    &&& out[k].tool_calls is None
    &&& out[p].role == Role::Assistant
    &&& out[p].tool_calls matches Some(calls) && exists|c: int|
        0 <= c < calls.len() && out[k].tool_call_id == Some((#[trigger] calls[c]).id)
            && out[k].name == Some(calls[c].name)
    &&& forall|j: int|
        p < j < k ==> (#[trigger] out[j]).role != Role::Assistant && out[j].role != Role::User
    &&& forall|j: int|
        p < j < k && places.contains(j) ==> (#[trigger] out[j]).tool_call_id
            != out[k].tool_call_id || out[j].role != Role::Tool
    &&& exists|j: int| #[trigger] is_next_turn(out, places, k, j)
}

/// The next message of the conversation after that at `k` is that at `j`, one of
/// the assistant or the user, or there is none and `j` is the end.
pub open spec fn is_next_turn(out: Seq<MessageView>, places: Seq<int>, k: int, j: int) -> bool {
    &&& k < j <= out.len()
    &&& forall|i: int| k < i < j ==> !#[trigger] places.contains(i)
    &&& j < out.len() ==> places.contains(j) && (out[j].role == Role::Assistant || out[j].role
        == Role::User)
}

/// Messages came out at places that rise, and all others were filled in.
pub open spec fn came_out_at(
    messages: Seq<MessageView>,
    out: Seq<MessageView>,
    places: Seq<int>,
) -> bool {
    &&& places.len() == messages.len()
    &&& forall|i: int|
        0 <= i < messages.len() ==> 0 <= #[trigger] places[i] < out.len() && out[places[i]]
            == messages[i]
    &&& forall|i: int, j: int|
        0 <= i < j < places.len() ==> (#[trigger] places[i]) < (#[trigger] places[j])
    &&& forall|k: int|
        0 <= k < out.len() && !places.contains(k) ==> exists|p: int| #[trigger]
            is_filled_in(out, places, k, p)
}

/// The message whose calls are pending, and the results that came for them.
spec fn is_pending_at(c: Completion, places: Seq<int>, p: int) -> bool {
    if c.pending.len() == 0 {
        true
    } else {
        &&& 0 <= p < c.result.len()
        &&& c.result[p].role == Role::Assistant
        &&& c.result[p].tool_calls == Some(c.pending)
        &&& forall|j: int|
            p < j < c.result.len() ==> {
                &&& (#[trigger] c.result[j]).role != Role::Assistant
                &&& c.result[j].role != Role::User
                &&& c.result[j].role == Role::Tool && c.result[j].tool_call_id is Some
                    ==> c.there.contains(c.result[j].tool_call_id->0)
            }
    }
}

/// The results that are missing are those of the calls that have none, in the order
/// of the calls, each under the identifier and the name of its call.
pub proof fn law_missing_results(calls: Seq<ToolCallView>, there: Seq<Seq<char>>) -> (places: Seq<
    int,
>)
    ensures
        is_taken_from(
            missing_results(calls, there),
            calls,
            |call: ToolCallView|
                if there.contains(call.id) {
                    None
                } else {
                    Some(
                        MessageView {
                            role: Role::Tool,
                            content: Some(ContentView::Text("No result provided"@)),
                            tool_calls: None,
                            tool_call_id: Some(call.id),
                            name: Some(call.name),
                        },
                    )
                },
            places,
        ),
{
    let give = |call: ToolCallView|
        if there.contains(call.id) {
            None
        } else {
            Some(
                MessageView {
                    role: Role::Tool,
                    content: Some(ContentView::Text("No result provided"@)),
                    tool_calls: None,
                    tool_call_id: Some(call.id),
                    name: Some(call.name),
                },
            )
        };
    lemma_missing_selected(calls, there, give);
    law_selected(calls, give)
}

proof fn lemma_missing_selected(
    calls: Seq<ToolCallView>,
    there: Seq<Seq<char>>,
    give: spec_fn(ToolCallView) -> Option<MessageView>,
)
    requires
        forall|call: ToolCallView| #[trigger]
            give(call) == if there.contains(call.id) {
                None
            } else {
                Some(
                    MessageView {
                        role: Role::Tool,
                        content: Some(ContentView::Text("No result provided"@)),
                        tool_calls: None,
                        tool_call_id: Some(call.id),
                        name: Some(call.name),
                    },
                )
            },
    ensures
        missing_results(calls, there) == selected(calls, give),
    decreases calls.len(),
{
    if calls.len() > 0 {
        lemma_missing_selected(calls.drop_last(), there, give);
    }
}

/// What was filled in stays so when more follows, of which the first is a message
/// of the conversation.
proof fn lemma_filled_stays(
    out: Seq<MessageView>,
    places: Seq<int>,
    m: MessageView,
    k: int,
    p: int,
)
    requires
        is_filled_in(out, places, k, p),
        forall|i: int| 0 <= i < places.len() ==> #[trigger] places[i] < out.len(),
        m.role == Role::Assistant || m.role == Role::User || exists|j: int|
            j < out.len() && #[trigger] is_next_turn(out, places, k, j),
    ensures
        is_filled_in(out.push(m), places.push(out.len() as int), k, p),
{
    let more = out.push(m);
    let end = out.len() as int;
    let others = places.push(end);
    assert forall|i: int| 0 <= i < end implies #[trigger] others.contains(i) == places.contains(
        i,
    ) by {
        if places.contains(i) {
            let a = choose|a: int| 0 <= a < places.len() && places[a] == i;
            assert(others[a] == i);
        }
        if others.contains(i) {
            let a = choose|a: int| 0 <= a < others.len() && others[a] == i;
            assert(places[a] == i);
        }
    }
    assert(others[places.len() as int] == end);
    assert(others.contains(end));
    assert forall|j: int| p < j < k && others.contains(j) implies (#[trigger] more[j]).tool_call_id
        != more[k].tool_call_id || more[j].role != Role::Tool by {
        assert(places.contains(j));
        assert(out[j] == more[j]);
    }
    assert forall|j: int| p < j < k implies (#[trigger] more[j]).role != Role::Assistant
        && more[j].role != Role::User by {
        assert(out[j] == more[j]);
    }
    if m.role == Role::Assistant || m.role == Role::User {
        let j = choose|j: int| #[trigger] is_next_turn(out, places, k, j);
        if j < end {
            assert(is_next_turn(more, others, k, j));
        } else {
            assert(is_next_turn(more, others, k, end));
        }
    } else {
        let j = choose|j: int| j < out.len() && #[trigger] is_next_turn(out, places, k, j);
        assert(is_next_turn(more, others, k, j));
    }
}

/// What holds on the way: the last message is one of the conversation, so that each
/// filled in one has a next turn.
spec fn is_on_the_way(
    messages: Seq<MessageView>,
    c: Completion,
    places: Seq<int>,
    p: int,
) -> bool {
    &&& came_out_at(messages, c.result, places)
    &&& is_pending_at(c, places, p)
    &&& forall|k: int|
        0 <= k < c.result.len() && !places.contains(k) ==> exists|j: int|
            j < c.result.len() && #[trigger] is_next_turn(c.result, places, k, j)
}

/// Once the missing results are in, the messages are at their places still.
proof fn lemma_completed_places(
    messages: Seq<MessageView>,
    c: Completion,
    places: Seq<int>,
    p: int,
)
    requires
        is_on_the_way(messages, c, places, p),
    ensures
        came_out_at(messages, completed(c).result, places),
{
    let out = c.result;
    let missing = missing_results(c.pending, c.there);
    let all = completed(c).result;
    let taken = law_missing_results(c.pending, c.there);
    assert forall|i: int| 0 <= i < messages.len() implies 0 <= #[trigger] places[i] < all.len()
        && all[places[i]] == messages[i] by {
        assert(all[places[i]] == out[places[i]]);
    }
    assert forall|i: int| places.contains(i) implies 0 <= i < out.len() by {
        let a = choose|a: int| 0 <= a < places.len() && places[a] == i;
        assert(0 <= places[a] < out.len());
    }
    assert forall|k: int| 0 <= k < all.len() && !places.contains(k) implies exists|q: int|
        #[trigger] is_filled_in(all, places, k, q) by {
        if k < out.len() {
            let q = choose|q: int| #[trigger] is_filled_in(out, places, k, q);
            let j = choose|j: int| j < out.len() && #[trigger] is_next_turn(out, places, k, j);
            assert(is_next_turn(all, places, k, j));
            assert(all[k] == out[k]);
            assert(all[q] == out[q]);
            assert forall|a: int| q < a < k implies #[trigger] all[a] == out[a] by {}
            assert(is_filled_in(all, places, k, q));
        } else {
            let a = k - out.len();
            assert(all[k] == missing[a]);
            let call = c.pending[taken[a]];
            assert(!c.there.contains(call.id));
            assert(all[k].tool_call_id == Some(call.id));
            assert(all[p] == out[p]);
            assert forall|j: int| p < j < k implies (#[trigger] all[j]).role != Role::Assistant
                && all[j].role != Role::User by {
                if j < out.len() {
                    assert(all[j] == out[j]);
                } else {
                    assert(all[j] == missing[j - out.len()]);
                    assert(0 <= taken[j - out.len()] < c.pending.len());
                }
            }
            assert forall|j: int| p < j < k && places.contains(j) implies (
            #[trigger] all[j]).tool_call_id != all[k].tool_call_id || all[j].role != Role::Tool by {
                assert(all[j] == out[j]);
            }
            assert(is_next_turn(all, places, k, all.len() as int));
            assert(0 <= taken[a] < c.pending.len());
            assert(all[p].tool_calls->0[taken[a]] == call);
            assert(all[k].name == Some(call.name));
            assert(all[k].content == Some(ContentView::Text("No result provided"@)));
            assert(is_filled_in(all, places, k, p));
        }
    }
}

/// One more message of the conversation keeps the others at their places.
proof fn lemma_next_place(
    messages: Seq<MessageView>,
    m: MessageView,
    out: Seq<MessageView>,
    places: Seq<int>,
)
    requires
        came_out_at(messages, out, places),
        m.role == Role::Assistant || m.role == Role::User || forall|k: int|
            0 <= k < out.len() && !places.contains(k) ==> exists|j: int|
                j < out.len() && #[trigger] is_next_turn(out, places, k, j),
    ensures
        came_out_at(messages.push(m), out.push(m), places.push(out.len() as int)),
        forall|k: int|
            0 <= k < out.len() + 1 && !#[trigger] places.push(out.len() as int).contains(k)
                ==> exists|j: int|
                j < out.len() + 1 && #[trigger] is_next_turn(
                    out.push(m),
                    places.push(out.len() as int),
                    k,
                    j,
                ),
{
    let end = out.len() as int;
    let more = out.push(m);
    let others = places.push(end);
    let all = messages.push(m);
    assert forall|i: int| 0 <= i < end implies #[trigger] others.contains(i) == places.contains(
        i,
    ) by {
        if places.contains(i) {
            let a = choose|a: int| 0 <= a < places.len() && places[a] == i;
            assert(others[a] == i);
        }
        if others.contains(i) {
            let a = choose|a: int| 0 <= a < others.len() && others[a] == i;
            assert(places[a] == i);
        }
    }
    assert(others[places.len() as int] == end);
    assert(others.contains(end));
    assert forall|i: int| 0 <= i < all.len() implies 0 <= #[trigger] others[i] < more.len()
        && more[others[i]] == all[i] by {
        if i < messages.len() {
            assert(others[i] == places[i]);
            assert(more[places[i]] == out[places[i]]);
        }
    }
    assert forall|i: int, j: int| 0 <= i < j < others.len() implies (#[trigger] others[i]) < (
    #[trigger] others[j]) by {
        assert(others[i] == places[i]);
        if j < places.len() {
            assert(others[j] == places[j]);
        }
    }
    assert forall|k: int| 0 <= k < more.len() && !#[trigger] others.contains(k) implies (
    exists|p: int| #[trigger] is_filled_in(more, others, k, p)) && (exists|j: int|
        j < more.len() && #[trigger] is_next_turn(more, others, k, j)) by {
        assert(k < end);
        assert(!places.contains(k));
        let p = choose|p: int| #[trigger] is_filled_in(out, places, k, p);
        lemma_filled_stays(out, places, m, k, p);
        if m.role == Role::Assistant || m.role == Role::User {
            let j = choose|j: int| #[trigger] is_next_turn(out, places, k, j);
            if j < end {
                assert(is_next_turn(more, others, k, j));
            } else {
                assert(is_next_turn(more, others, k, end));
            }
        } else {
            let j = choose|j: int| j < out.len() && #[trigger] is_next_turn(out, places, k, j);
            assert(is_next_turn(more, others, k, j));
        }
    }
}

proof fn lemma_places(messages: Seq<MessageView>) -> (r: (Seq<int>, int))
    ensures
        is_on_the_way(messages, completion(messages), r.0, r.1),
    decreases messages.len(),
{
    if messages.len() == 0 {
        (seq![], 0)
    } else {
        let front = messages.drop_last();
        let m = messages.last();
        let c = completion(front);
        let next = completion(messages);
        let (places, p) = lemma_places(front);
        assert(front.push(m) =~= messages);
        match m.role {
            Role::Assistant | Role::User => {
                lemma_completed_places(front, c, places, p);
                let done = completed(c).result;
                lemma_next_place(front, m, done, places);
                (places.push(done.len() as int), done.len() as int)
            },
            _ => {
                let end = c.result.len() as int;
                lemma_next_place(front, m, c.result, places);
                if c.pending.len() > 0 {
                    assert(next.result[p] == c.result[p]);
                    assert forall|j: int| p < j < next.result.len() implies {
                        &&& (#[trigger] next.result[j]).role != Role::Assistant
                        &&& next.result[j].role != Role::User
                        &&& next.result[j].role == Role::Tool && next.result[j].tool_call_id is Some
                            ==> next.there.contains(next.result[j].tool_call_id->0)
                    } by {
                        if j < end {
                            assert(next.result[j] == c.result[j]);
                            if c.result[j].role == Role::Tool && c.result[j].tool_call_id is Some {
                                let id = c.result[j].tool_call_id->0;
                                let a = choose|a: int| 0 <= a < c.there.len() && c.there[a] == id;
                                assert(next.there[a] == id);
                            }
                        } else if m.role == Role::Tool && m.tool_call_id is Some {
                            assert(next.there[c.there.len() as int] == m.tool_call_id->0);
                        }
                    }
                }
                (places.push(end), p)
            },
        }
    }
}

/// Completing tool results keeps every message, in order, and adds nothing but a
/// result for each call of the assistant that none of the messages answers, before
/// the next turn.
pub proof fn law_completing_keeps_messages(messages: Seq<MessageView>) -> (places: Seq<int>)
    ensures
        came_out_at(messages, results_completed(messages), places),
{
    let (places, p) = lemma_places(messages);
    lemma_completed_places(messages, completion(messages), places, p);
    places
}

/// Normalizing messages keeps each of them, in order, at some place. With a
/// normalizer, each call of the assistant comes out under the normalizer's
/// identifier, and a tool result under that of the last call before it to which the
/// normalizer gave another one; where there is none, under its own. Nothing else of
/// a message is changed on that account, and nothing at all without a normalizer.
pub proof fn law_normalized_messages<N: ToolCallIdNormalizer>(
    messages: Seq<MessageView>,
    input: Seq<ModelInputKind>,
    n: Option<N>,
    preserve_thinking: bool,
) -> (places: Seq<int>)
    ensures
        ({
            let out = normalized_messages(messages, input, n, preserve_thinking);
            let all = all_adapted(messages, input.contains(ModelInputKind::Image), preserve_thinking);
            &&& places.len() == messages.len()
            &&& forall|i: int|
                0 <= i < messages.len() ==> 0 <= #[trigger] places[i] < out.len() && match n {
                    Some(n) => has_normal_ids(n, all, i, out[places[i]]),
                    None => out[places[i]] == all[i],
                }
            &&& forall|i: int, j: int|
                0 <= i < j < places.len() ==> (#[trigger] places[i]) < (#[trigger] places[j])
            &&& forall|k: int|
                0 <= k < out.len() && !places.contains(k) ==> exists|p: int| #[trigger]
                    is_filled_in(out, places, k, p)
        }),
{
    let images = takes_images(input);
    let x = transformed(messages, images, n, preserve_thinking).0;
    let places = law_completing_keeps_messages(x);
    match n {
        Some(n) => {
            lemma_transformed(messages, images, n, preserve_thinking);
            let out = results_completed(x);
            let all = all_adapted(messages, images, preserve_thinking);
            assert forall|i: int| 0 <= i < messages.len() implies 0 <= #[trigger] places[i]
                < out.len() && has_normal_ids(n, all, i, out[places[i]]) by {
                assert(out[places[i]] == x[i]);
            }
        },
        None => {
            lemma_transformed_alone::<N>(messages, images, preserve_thinking);
        },
    }
    places
}

proof fn lemma_transformed_alone<N: ToolCallIdNormalizer>(
    messages: Seq<MessageView>,
    images: bool,
    preserve_thinking: bool,
)
    ensures
        transformed(messages, images, None::<N>, preserve_thinking).0 == all_adapted(
            messages,
            images,
            preserve_thinking,
        ),
    decreases messages.len(),
{
    let all = all_adapted(messages, images, preserve_thinking);
    if messages.len() > 0 {
        lemma_transformed_alone::<N>(messages.drop_last(), images, preserve_thinking);
        assert(all =~= all_adapted(messages.drop_last(), images, preserve_thinking).push(
            adapted(messages.last(), images, preserve_thinking),
        ));
    } else {
        assert(all =~= seq![]);
    }
}

/// A tool result whose identifier is that of an earlier call of the assistant comes
/// out under the normalizer's identifier for that call, and one whose identifier no
/// earlier call had keeps it. This holds of a normalizer that has one identifier for
/// the calls under it, whichever message they stand in.
pub proof fn law_result_follows_its_call<N: ToolCallIdNormalizer>(
    messages: Seq<MessageView>,
    images: bool,
    n: N,
    preserve_thinking: bool,
    i: int,
    id: Seq<char>,
)
    requires
        0 <= i < messages.len(),
        messages[i].role == Role::Tool,
        messages[i].tool_call_id == Some(id),
        forall|j: int, k: int|
            0 <= j < k < i && calls_under(#[trigger] messages[j], id) && calls_under(
                #[trigger] messages[k],
                id,
            ) ==> n.normalized(id, adapted(messages[j], images, preserve_thinking)) == n.normalized(
                id,
                adapted(messages[k], images, preserve_thinking),
            ),
    ensures
        ({
            let out = transformed(messages, images, Some(n), preserve_thinking).0[i];
            &&& out.role == Role::Tool
            &&& forall|k: int|
                0 <= k < i && calls_under(#[trigger] messages[k], id) ==> out.tool_call_id == Some(
                    n.normalized(id, adapted(messages[k], images, preserve_thinking)),
                )
            &&& (forall|k: int| 0 <= k < i ==> !calls_under(#[trigger] messages[k], id))
                ==> out.tool_call_id == Some(id)
        }),
{
    let all = all_adapted(messages, images, preserve_thinking);
    let out = transformed(messages, images, Some(n), preserve_thinking).0;
    lemma_transformed(messages, images, n, preserve_thinking);
    assert(has_normal_ids(n, all, i, out[i]));
    assert(all[i].role == Role::Tool && all[i].tool_call_id == Some(id));
    assert forall|j: int| 0 <= j < i implies #[trigger] calls_under(messages[j], id) == calls_under(
        all[j],
        id,
    ) by {
        assert(all[j].role == messages[j].role && all[j].tool_calls == messages[j].tool_calls);
    }
    assert forall|k: int| 0 <= k < i && calls_under(#[trigger] messages[k], id) implies
        out[i].tool_call_id == Some(
        n.normalized(id, adapted(messages[k], images, preserve_thinking)),
    ) by {
        assert(calls_under(all[k], id));
        if is_not_renamed(n, all, i, id) {
            assert(n.normalized(id, all[k]) == id);
        } else {
            let j = choose|j: int| #[trigger]
                is_last_renaming(n, all, i, id, j) && out[i].tool_call_id->0 == n.normalized(
                    id,
                    all[j],
                );
            assert(calls_under(messages[j], id));
            if j < k {
                assert(n.normalized(id, all[j]) == n.normalized(id, all[k]));
            } else if k < j {
                assert(n.normalized(id, all[k]) == n.normalized(id, all[j]));
            }
        }
    }
    if forall|k: int| 0 <= k < i ==> !calls_under(#[trigger] messages[k], id) {
        assert forall|j: int| 0 <= j < i implies !calls_under(#[trigger] all[j], id) by {
            assert(!calls_under(messages[j], id));
        }
        if !is_not_renamed(n, all, i, id) {
            let j = choose|j: int| #[trigger]
                is_last_renaming(n, all, i, id, j) && out[i].tool_call_id->0 == n.normalized(
                    id,
                    all[j],
                );
            assert(!calls_under(all[j], id));
        }
    }
}

// ---------------------------------------------------------------------------
// Contents
// ---------------------------------------------------------------------------

/// Blocks without images: each other block stands where it stood, and each run of
/// images is one text that stands for them. A text of that kind before a run stands
/// for the run, too. `at` tells where each block went.
pub open spec fn is_without_images(
    out: Seq<BlockView>,
    blocks: Seq<BlockView>,
    placeholder: Seq<char>,
    at: Seq<int>,
) -> bool {
    &&& at.len() == blocks.len()
    &&& forall|i: int|
        0 <= i < blocks.len() ==> 0 <= #[trigger] at[i] < out.len() && out[at[i]] == if blocks[i] is Image {
            BlockView::Text { text: placeholder }
        } else {
            blocks[i]
        }
    &&& if blocks.len() == 0 {
        out.len() == 0
    } else {
        &&& at[0] == 0
        &&& at.last() == out.len() - 1
    }
    &&& forall|i: int|
        1 <= i < blocks.len() ==> #[trigger] at[i] == if blocks[i] is Image && (blocks[i
            - 1] is Image || blocks[i - 1] == BlockView::Text { text: placeholder }) {
            at[i - 1]
        } else {
            at[i - 1] + 1
        }
}

proof fn lemma_images_replaced(blocks: Seq<BlockView>, placeholder: Seq<char>) -> (at: Seq<int>)
    ensures
        is_without_images(images_replaced(blocks, placeholder), blocks, placeholder, at),
    decreases blocks.len(),
{
    if blocks.len() == 0 {
        seq![]
    } else {
        let n = blocks.len() - 1;
        let front = blocks.drop_last();
        let before = lemma_images_replaced(front, placeholder);
        let done = images_replaced(front, placeholder);
        let out = images_replaced(blocks, placeholder);
        let at = before.push(out.len() - 1);
        assert forall|i: int| 0 <= i < blocks.len() implies 0 <= #[trigger] at[i] < out.len()
            && out[at[i]] == if blocks[i] is Image {
            BlockView::Text { text: placeholder }
        } else {
            blocks[i]
        } by {
            if i < n {
                assert(front[i] == blocks[i]);
                assert(at[i] == before[i]);
                assert(out[at[i]] == done[before[i]]);
            } else if blocks.last() is Image && n > 0 {
                assert(front[n - 1] == blocks[n - 1]);
                assert(before[n - 1] == done.len() - 1);
            }
        }
        assert forall|i: int| 1 <= i < blocks.len() implies #[trigger] at[i] == if blocks[i] is Image
            && (blocks[i - 1] is Image || blocks[i - 1] == BlockView::Text { text: placeholder }) {
            at[i - 1]
        } else {
            at[i - 1] + 1
        } by {
            assert(front[i - 1] == blocks[i - 1]);
            assert(at[i - 1] == before[i - 1]);
            if i < n {
                assert(front[i] == blocks[i]);
                assert(at[i] == before[i]);
            }
        }
        at
    }
}

/// The user and the tools show a model that takes no images a text in their place,
/// and nothing else of what they say is changed. Where the model takes images, all
/// stays.
pub proof fn law_images_are_replaced(
    m: MessageView,
    blocks: Seq<BlockView>,
    images: bool,
    preserve_thinking: bool,
) -> (at: Seq<int>)
    requires
        m.role == Role::User || m.role == Role::Tool,
        m.content == Some(ContentView::Blocks(blocks)),
    ensures
        adapted(m, images, preserve_thinking).content matches Some(ContentView::Blocks(out)) && if images {
            out == blocks
        } else {
            is_without_images(
                out,
                blocks,
                if m.role == Role::User {
                    "(image omitted: model does not support images)"@
                } else {
                    "(tool image omitted: model does not support images)"@
                },
                at,
            )
        },
{
    lemma_images_replaced(blocks, image_placeholder(m.role)->0)
}

/// Where the provider takes no thinking, the assistant's blocks are the same without
/// it: what was thought is a text, unless it was redacted or is blank. Where it
/// takes thinking, all stays.
pub proof fn law_thinking_is_told(
    m: MessageView,
    blocks: Seq<BlockView>,
    images: bool,
    preserve_thinking: bool,
) -> (places: Seq<int>)
    requires
        m.role == Role::Assistant,
        m.content == Some(ContentView::Blocks(blocks)),
    ensures
        adapted(m, images, preserve_thinking).content matches Some(ContentView::Blocks(out))
            && if preserve_thinking {
            out == blocks
        } else {
            is_taken_from(
                out,
                blocks,
                |block: BlockView|
                    match block {
                        BlockView::Thinking { thinking, redacted, .. } => if redacted || (forall|
                            i: int,
                        |
                            0 <= i < thinking.len() ==> is_white_space(#[trigger] thinking[i])) {
                            None
                        } else {
                            Some(BlockView::Text { text: thinking })
                        },
                        other => Some(other),
                    },
                places,
            )
        },
{
    let give = |block: BlockView|
        match block {
            BlockView::Thinking { thinking, redacted, .. } => if redacted || (forall|i: int|
                0 <= i < thinking.len() ==> is_white_space(#[trigger] thinking[i])) {
                None
            } else {
                Some(BlockView::Text { text: thinking })
            },
            other => Some(other),
        };
    lemma_thinking_selected(blocks, give);
    law_selected(blocks, give)
}

proof fn lemma_thinking_selected(
    blocks: Seq<BlockView>,
    give: spec_fn(BlockView) -> Option<BlockView>,
)
    requires
        forall|block: BlockView| #[trigger]
            give(block) == match block {
                BlockView::Thinking { thinking, redacted, .. } => if redacted || (forall|i: int|
                    0 <= i < thinking.len() ==> is_white_space(#[trigger] thinking[i])) {
                    None
                } else {
                    Some(BlockView::Text { text: thinking })
                },
                other => Some(other),
            },
    ensures
        thinking_replaced(blocks) == selected(blocks, give),
    decreases blocks.len(),
{
    if blocks.len() > 0 {
        lemma_thinking_selected(blocks.drop_last(), give);
        if let BlockView::Thinking { thinking, .. } = blocks.last() {
            law_trimmed(thinking);
        }
        assert(thinking_replaced(blocks) =~= selected(blocks, give));
    }
}

/// Adapting a message changes nothing but blocks: who speaks, the name, the calls and
/// the identifiers stay, and so does a text.
pub proof fn law_adapting_keeps_the_rest(m: MessageView, images: bool, preserve_thinking: bool)
    ensures
        ({
            let out = adapted(m, images, preserve_thinking);
            &&& out.role == m.role
            &&& out.name == m.name
            &&& out.tool_calls == m.tool_calls
            &&& out.tool_call_id == m.tool_call_id
            &&& !(m.content matches Some(ContentView::Blocks(_))) ==> out.content == m.content
            &&& m.role == Role::System ==> out.content == m.content
        }),
{
}

} // verus!
