//! What holds of a response that is streamed, over all of its chunks.

use vstd::prelude::*;

use crate::agent_loop::{
    are_in_order, call_position, chunk_events, finished_call, finished_calls, fragment_events,
    fragments_events, law_calls_in_index_order, merged_call, place_for, streamed_message,
    streamed_usage, with_chunk, with_fragments, EventView, StreamView,
};
use crate::token_estimation::estimated;
use crate::traits::{ChunkView, DeltaView};
use crate::types::{BlockView, ContentView, FinishReason, Role, ToolCallView, Usage};

verus! {

// ---------------------------------------------------------------------------
// What the chunks say
// ---------------------------------------------------------------------------

/// The texts of the chunks, one after the other.
pub open spec fn text_said(chunks: Seq<ChunkView>) -> Seq<char>
    decreases chunks.len(),
{
    if chunks.len() == 0 {
        seq![]
    } else {
        text_said(chunks.drop_last()) + match chunks.last().delta {
            Some(text) => text,
            None => seq![],
        }
    }
}

/// The fragments of the chunks, one after the other.
pub open spec fn fragments_said(chunks: Seq<ChunkView>) -> Seq<DeltaView>
    decreases chunks.len(),
{
    if chunks.len() == 0 {
        seq![]
    } else {
        fragments_said(chunks.drop_last()) + chunks.last().tool_calls
    }
}

/// The usage that was reported last.
pub open spec fn usage_said(chunks: Seq<ChunkView>) -> Option<Usage>
    decreases chunks.len(),
{
    if chunks.len() == 0 {
        None
    } else if chunks.last().usage is Some {
        chunks.last().usage
    } else {
        usage_said(chunks.drop_last())
    }
}

/// The arguments of the fragments with an index, one after the other.
pub open spec fn arguments_said(ds: Seq<DeltaView>, index: u32) -> Seq<char>
    decreases ds.len(),
{
    if ds.len() == 0 {
        seq![]
    } else {
        arguments_said(ds.drop_last(), index) + match ds.last().arguments_delta {
            Some(text) => if ds.last().index == index {
                text
            } else {
                seq![]
            },
            None => seq![],
        }
    }
}

/// An ID is the one of the last fragment with an index that has any.
pub open spec fn is_id_said(ds: Seq<DeltaView>, index: u32, id: Option<Seq<char>>) -> bool {
    match id {
        Some(id) => exists|j: int|
            0 <= j < ds.len() && (#[trigger] ds[j]).index == index && ds[j].id == Some(id)
                && forall|k: int|
                j < k < ds.len() && (#[trigger] ds[k]).index == index ==> ds[k].id is None,
        None => forall|k: int|
            0 <= k < ds.len() && (#[trigger] ds[k]).index == index ==> ds[k].id is None,
    }
}

/// A name is the one of the last fragment with an index that has any.
pub open spec fn is_name_said(ds: Seq<DeltaView>, index: u32, name: Option<Seq<char>>) -> bool {
    match name {
        Some(name) => exists|j: int|
            0 <= j < ds.len() && (#[trigger] ds[j]).index == index && ds[j].name == Some(name)
                && forall|k: int|
                j < k < ds.len() && (#[trigger] ds[k]).index == index ==> ds[k].name is None,
        None => forall|k: int|
            0 <= k < ds.len() && (#[trigger] ds[k]).index == index ==> ds[k].name is None,
    }
}

/// A tool call is the one with an index that the fragments tell of.
pub open spec fn is_call_said(ds: Seq<DeltaView>, index: u32, call: ToolCallView) -> bool {
    &&& is_id_said(ds, index, Some(call.id))
    &&& is_name_said(ds, index, Some(call.name))
    &&& call.arguments == arguments_said(ds, index)
}

/// Tool calls are those that the fragments tell of, in the order of their indices:
/// all that have an ID and a name.
pub open spec fn are_calls_said(
    ds: Seq<DeltaView>,
    calls: Seq<ToolCallView>,
    indices: Seq<u32>,
) -> bool {
    &&& indices.len() == calls.len()
    &&& forall|i: int|
        0 <= i < calls.len() ==> is_call_said(ds, #[trigger] indices[i], calls[i])
    &&& forall|i: int, j: int|
        0 <= i < j < indices.len() ==> (#[trigger] indices[i]) < (#[trigger] indices[j])
    &&& forall|index: u32|
        !is_id_said(ds, index, None) && !is_name_said(ds, index, None) ==> #[trigger] indices.contains(
            index,
        )
}

/// The state of a stream after its chunks.
pub open spec fn streamed(chunks: Seq<ChunkView>) -> StreamView
    decreases chunks.len(),
{
    if chunks.len() == 0 {
        StreamView { text: seq![], calls: seq![], finish_reason: None, usage: None }
    } else {
        with_chunk(streamed(chunks.drop_last()), chunks.last())
    }
}

/// The events that are reported of the chunks of a stream.
pub open spec fn events_streamed(chunks: Seq<ChunkView>) -> Seq<EventView>
    decreases chunks.len(),
{
    if chunks.len() == 0 {
        seq![]
    } else {
        events_streamed(chunks.drop_last()) + chunk_events(
            streamed(chunks.drop_last()),
            chunks.last(),
        )
    }
}

// ---------------------------------------------------------------------------
// Steps of the proofs
// ---------------------------------------------------------------------------

/// A partial call holds what the fragments with its index say.
#[verifier::opaque]
spec fn holds_said(ds: Seq<DeltaView>, call: DeltaView) -> bool {
    &&& is_id_said(ds, call.index, call.id)
    &&& is_name_said(ds, call.index, call.name)
    &&& match call.arguments_delta {
        Some(text) => text == arguments_said(ds, call.index),
        None => arguments_said(ds, call.index).len() == 0,
    }
}

spec fn all_hold_said(ds: Seq<DeltaView>, calls: Seq<DeltaView>) -> bool {
    &&& are_in_order(calls)
    &&& forall|i: int| 0 <= i < calls.len() ==> holds_said(ds, #[trigger] calls[i])
    &&& forall|k: int|
        0 <= k < ds.len() ==> exists|i: int|
            0 <= i < calls.len() && (#[trigger] calls[i]).index == (#[trigger] ds[k]).index
}

proof fn lemma_arguments_absent(ds: Seq<DeltaView>, index: u32)
    requires
        forall|k: int| 0 <= k < ds.len() ==> (#[trigger] ds[k]).index != index,
    ensures
        arguments_said(ds, index) == Seq::<char>::empty(),
    decreases ds.len(),
{
    if ds.len() > 0 {
        let front = ds.drop_last();
        assert forall|k: int| 0 <= k < front.len() implies (#[trigger] front[k]).index != index by {
            assert(front[k] == ds[k]);
        }
        lemma_arguments_absent(front, index);
        assert(ds.last() == ds[ds.len() - 1]);
        assert(arguments_said(ds, index) =~= Seq::<char>::empty());
    }
}

/// Of an index of which no fragment has come, nothing was said.
proof fn lemma_fresh_holds_said(ds: Seq<DeltaView>, index: u32)
    requires
        forall|k: int| 0 <= k < ds.len() ==> (#[trigger] ds[k]).index != index,
    ensures
        holds_said(ds, DeltaView { index, id: None, name: None, arguments_delta: None }),
{
    reveal(holds_said);
    lemma_arguments_absent(ds, index);
}

/// A call that holds what was said goes on doing so with one more fragment of its
/// own.
proof fn lemma_merged_holds_said(ds: Seq<DeltaView>, call: DeltaView)
    requires
        ds.len() > 0,
        call.index == ds.last().index,
        holds_said(ds.drop_last(), call),
    ensures
        holds_said(ds, merged_call(call, ds.last())),
        merged_call(call, ds.last()).index == call.index,
{
    let front = ds.drop_last();
    let d = ds.last();
    let n = ds.len() - 1;
    let merged = merged_call(call, d);
    let index = call.index;
    reveal(holds_said);
    assert forall|k: int| 0 <= k < front.len() implies #[trigger] front[k] == ds[k] by {}
    assert(ds[n] == d);
    if d.id is Some {
        assert(ds[n].id == merged.id);
        assert(is_id_said(ds, index, merged.id));
    } else if call.id is Some {
        let id = call.id->0;
        let j = choose|j: int|
            0 <= j < front.len() && (#[trigger] front[j]).index == index && front[j].id == Some(id)
                && forall|k: int|
                j < k < front.len() && (#[trigger] front[k]).index == index ==> front[k].id is None;
        assert(ds[j] == front[j]);
        assert forall|k: int| j < k < ds.len() && (#[trigger] ds[k]).index == index implies
            ds[k].id is None by {
            if k < n {
                assert(front[k] == ds[k]);
            }
        }
        assert(is_id_said(ds, index, merged.id));
    } else {
        assert forall|k: int| 0 <= k < ds.len() && (#[trigger] ds[k]).index == index implies
            ds[k].id is None by {
            if k < n {
                assert(front[k] == ds[k]);
            }
        }
    }
    if d.name is Some {
        assert(ds[n].name == merged.name);
        assert(is_name_said(ds, index, merged.name));
    } else if call.name is Some {
        let name = call.name->0;
        let j = choose|j: int|
            0 <= j < front.len() && (#[trigger] front[j]).index == index && front[j].name == Some(
                name,
            ) && forall|k: int|
                j < k < front.len() && (#[trigger] front[k]).index == index ==> front[k].name is None;
        assert(ds[j] == front[j]);
        assert forall|k: int| j < k < ds.len() && (#[trigger] ds[k]).index == index implies
            ds[k].name is None by {
            if k < n {
                assert(front[k] == ds[k]);
            }
        }
        assert(is_name_said(ds, index, merged.name));
    } else {
        assert forall|k: int| 0 <= k < ds.len() && (#[trigger] ds[k]).index == index implies
            ds[k].name is None by {
            if k < n {
                assert(front[k] == ds[k]);
            }
        }
    }
    let before = arguments_said(front, index);
    assert(before + Seq::<char>::empty() =~= before);
    if let Some(more) = d.arguments_delta {
        if call.arguments_delta is None {
            assert(before + more =~= more);
        }
    }
}

/// A call goes on holding what was said when a fragment of another one comes.
proof fn lemma_other_holds_said(ds: Seq<DeltaView>, call: DeltaView)
    requires
        ds.len() > 0,
        call.index != ds.last().index,
        holds_said(ds.drop_last(), call),
    ensures
        holds_said(ds, call),
{
    let front = ds.drop_last();
    let n = ds.len() - 1;
    let index = call.index;
    reveal(holds_said);
    assert forall|k: int| 0 <= k < front.len() implies #[trigger] front[k] == ds[k] by {}
    if call.id is Some {
        let j = choose|j: int|
            0 <= j < front.len() && (#[trigger] front[j]).index == index && front[j].id == call.id
                && forall|k: int|
                j < k < front.len() && (#[trigger] front[k]).index == index ==> front[k].id is None;
        assert(ds[j] == front[j]);
        assert forall|k: int| j < k < ds.len() && (#[trigger] ds[k]).index == index implies
            ds[k].id is None by {
            assert(front[k] == ds[k]);
        }
    } else {
        assert forall|k: int| 0 <= k < ds.len() && (#[trigger] ds[k]).index == index implies
            ds[k].id is None by {
            assert(front[k] == ds[k]);
        }
    }
    if call.name is Some {
        let j = choose|j: int|
            0 <= j < front.len() && (#[trigger] front[j]).index == index && front[j].name
                == call.name && forall|k: int|
                j < k < front.len() && (#[trigger] front[k]).index == index ==> front[k].name is None;
        assert(ds[j] == front[j]);
        assert forall|k: int| j < k < ds.len() && (#[trigger] ds[k]).index == index implies
            ds[k].name is None by {
            assert(front[k] == ds[k]);
        }
    } else {
        assert forall|k: int| 0 <= k < ds.len() && (#[trigger] ds[k]).index == index implies
            ds[k].name is None by {
            assert(front[k] == ds[k]);
        }
    }
    assert(arguments_said(front, index) + Seq::<char>::empty() =~= arguments_said(front, index));
}

proof fn lemma_position(calls: Seq<DeltaView>, index: u32)
    ensures
        match call_position(calls, index) {
            Some(i) => 0 <= i < calls.len() && calls[i].index == index,
            None => forall|j: int| 0 <= j < calls.len() ==> (#[trigger] calls[j]).index != index,
        },
    decreases calls.len(),
{
    if calls.len() > 0 {
        let front = calls.drop_last();
        lemma_position(front, index);
        assert forall|j: int| 0 <= j < calls.len() && call_position(calls, index) is None implies (
        #[trigger] calls[j]).index != index by {
            if j < front.len() {
                assert(front[j] == calls[j]);
            }
        }
    }
}

proof fn lemma_place_range(calls: Seq<DeltaView>, index: u32)
    ensures
        0 <= place_for(calls, index) <= calls.len(),
    decreases calls.len(),
{
    if calls.len() > 0 {
        lemma_place_range(calls.drop_last(), index);
    }
}

proof fn lemma_all_hold_said(ds: Seq<DeltaView>)
    ensures
        all_hold_said(ds, with_fragments(seq![], ds)),
    decreases ds.len(),
{
    law_calls_in_index_order(seq![], ds);
    if ds.len() > 0 {
        let front = ds.drop_last();
        let d = ds.last();
        lemma_all_hold_said(front);
        let before = with_fragments(seq![], front);
        let after = with_fragments(seq![], ds);
        lemma_position(before, d.index);
        lemma_place_range(before, d.index);
        match call_position(before, d.index) {
            Some(at) => {
                lemma_merged_holds_said(ds, before[at]);
                assert forall|i: int| 0 <= i < after.len() implies holds_said(
                    ds,
                    #[trigger] after[i],
                ) by {
                    if i != at {
                        assert(after[i] == before[i]);
                        lemma_other_holds_said(ds, before[i]);
                    }
                }
                assert forall|i: int| 0 <= i < after.len() implies (#[trigger] after[i]).index
                    == before[i].index by {}
                assert forall|k: int| 0 <= k < ds.len() implies exists|i: int|
                    0 <= i < after.len() && (#[trigger] after[i]).index == (#[trigger] ds[k]).index by {
                    if k < front.len() {
                        assert(front[k] == ds[k]);
                        let i = choose|i: int|
                            0 <= i < before.len() && (#[trigger] before[i]).index == front[k].index;
                        assert(after[i].index == before[i].index);
                    } else {
                        assert(after[at].index == d.index);
                    }
                }
            },
            None => {
                let at = place_for(before, d.index);
                let fresh = DeltaView {
                    index: d.index,
                    id: None,
                    name: None,
                    arguments_delta: None,
                };
                assert forall|k: int| 0 <= k < front.len() implies (#[trigger] front[k]).index
                    != d.index by {
                    let i = choose|i: int|
                        0 <= i < before.len() && (#[trigger] before[i]).index == front[k].index;
                    assert(before[i].index != d.index);
                }
                lemma_fresh_holds_said(front, d.index);
                lemma_merged_holds_said(ds, fresh);
                assert forall|i: int| 0 <= i < after.len() implies holds_said(
                    ds,
                    #[trigger] after[i],
                ) by {
                    if i < at {
                        assert(after[i] == before[i]);
                        lemma_other_holds_said(ds, before[i]);
                    } else if i > at {
                        assert(after[i] == before[i - 1]);
                        lemma_other_holds_said(ds, before[i - 1]);
                    }
                }
                assert forall|k: int| 0 <= k < ds.len() implies exists|i: int|
                    0 <= i < after.len() && (#[trigger] after[i]).index == (#[trigger] ds[k]).index by {
                    if k < front.len() {
                        assert(front[k] == ds[k]);
                        let i = choose|i: int|
                            0 <= i < before.len() && (#[trigger] before[i]).index == front[k].index;
                        if i < at {
                            assert(after[i] == before[i]);
                        } else {
                            assert(after[i + 1] == before[i]);
                        }
                    } else {
                        assert(after[at].index == d.index);
                    }
                }
            },
        }
    }
}

/// The finished calls of partial calls that hold what was said.
proof fn lemma_finished_said(ds: Seq<DeltaView>, calls: Seq<DeltaView>) -> (indices: Seq<u32>)
    requires
        are_in_order(calls),
        forall|i: int| 0 <= i < calls.len() ==> holds_said(ds, #[trigger] calls[i]),
    ensures
        indices.len() == finished_calls(calls).len(),
        forall|i: int|
            0 <= i < indices.len() ==> is_call_said(
                ds,
                #[trigger] indices[i],
                finished_calls(calls)[i],
            ) && exists|k: int|
                0 <= k < calls.len() && (#[trigger] calls[k]).index == indices[i],
        forall|i: int, j: int|
            0 <= i < j < indices.len() ==> (#[trigger] indices[i]) < (#[trigger] indices[j]),
        forall|k: int|
            0 <= k < calls.len() && (#[trigger] calls[k]).id is Some && calls[k].name is Some
                ==> indices.contains(calls[k].index),
    decreases calls.len(),
{
    if calls.len() == 0 {
        seq![]
    } else {
        let front = calls.drop_last();
        let n = calls.len() - 1;
        assert forall|i: int| 0 <= i < front.len() implies #[trigger] front[i] == calls[i] by {}
        assert forall|i: int, j: int| 0 <= i < j < front.len() implies (#[trigger] front[i]).index
            < (#[trigger] front[j]).index by {
            assert(calls[i].index < calls[j].index);
        }
        assert forall|i: int| 0 <= i < front.len() implies holds_said(ds, #[trigger] front[i]) by {
            assert(front[i] == calls[i]);
        }
        let before = lemma_finished_said(ds, front);
        let call = calls.last();
        assert(calls[n] == call);
        assert(holds_said(ds, calls[n]));
        reveal(holds_said);
        let whole = call.id is Some && call.name is Some;
        let indices = if whole {
            before.push(call.index)
        } else {
            before
        };
        let done = finished_calls(calls);
        if whole {
            assert(done =~= finished_calls(front).push(finished_call(call)[0]));
        } else {
            assert(done =~= finished_calls(front));
        }
        assert forall|i: int| 0 <= i < indices.len() implies is_call_said(
            ds,
            #[trigger] indices[i],
            done[i],
        ) && exists|k: int| 0 <= k < calls.len() && (#[trigger] calls[k]).index == indices[i] by {
            if i < before.len() {
                assert(indices[i] == before[i]);
                let k = choose|k: int|
                    0 <= k < front.len() && (#[trigger] front[k]).index == before[i];
                assert(calls[k] == front[k]);
            } else {
                assert(calls[n].index == indices[i]);
                if call.arguments_delta is None {
                    assert(arguments_said(ds, call.index) =~= seq![]);
                }
            }
        }
        assert forall|i: int, j: int| 0 <= i < j < indices.len() implies (#[trigger] indices[i]) < (
        #[trigger] indices[j]) by {
            assert(indices[i] == before[i]);
            if j < before.len() {
                assert(indices[j] == before[j]);
            } else {
                let k = choose|k: int|
                    0 <= k < front.len() && (#[trigger] front[k]).index == before[i];
                assert(calls[k] == front[k]);
                assert(calls[k].index < calls[n].index);
            }
        }
        assert forall|k: int|
            0 <= k < calls.len() && (#[trigger] calls[k]).id is Some
                && calls[k].name is Some implies indices.contains(calls[k].index) by {
            if k < n {
                assert(front[k] == calls[k]);
                let i = choose|i: int| 0 <= i < before.len() && before[i] == front[k].index;
                assert(indices[i] == calls[k].index);
            } else {
                assert(indices[before.len() as int] == call.index);
            }
        }
        indices
    }
}

proof fn lemma_fragments_in_parts(a: Seq<DeltaView>, b: Seq<DeltaView>)
    ensures
        with_fragments(with_fragments(seq![], a), b) == with_fragments(seq![], a + b),
    decreases b.len(),
{
    if b.len() == 0 {
        assert(a + b =~= a);
    } else {
        lemma_fragments_in_parts(a, b.drop_last());
        assert((a + b).drop_last() =~= a + b.drop_last());
        assert((a + b).last() == b.last());
    }
}

proof fn lemma_streamed(chunks: Seq<ChunkView>)
    ensures
        streamed(chunks) == (StreamView {
            text: text_said(chunks),
            calls: with_fragments(seq![], fragments_said(chunks)),
            finish_reason: if chunks.len() == 0 {
                None
            } else {
                chunks.last().finish_reason
            },
            usage: usage_said(chunks),
        }),
    decreases chunks.len(),
{
    if chunks.len() > 0 {
        lemma_streamed(chunks.drop_last());
        lemma_fragments_in_parts(fragments_said(chunks.drop_last()), chunks.last().tool_calls);
        let before = text_said(chunks.drop_last());
        assert(before + Seq::<char>::empty() =~= before);
    }
}

// ---------------------------------------------------------------------------
// Laws
// ---------------------------------------------------------------------------

/// The message of a streamed response holds all that its chunks say, however they
/// are cut and whichever order its parts come in. Its text is the texts of the
/// chunks put together. Its tool calls are those of which an ID and a name have
/// come, in the order of their indices; each has the last ID and the last name that
/// came for its index, and the arguments of all fragments with its index put
/// together.
pub proof fn law_streamed_message(chunks: Seq<ChunkView>) -> (indices: Seq<u32>)
    ensures
        ({
            let m = streamed_message(streamed(chunks));
            let ds = fragments_said(chunks);
            &&& m.role == Role::Assistant
            &&& m.tool_call_id is None
            &&& m.name is None
            &&& match m.content {
                None => text_said(chunks).len() == 0,
                Some(content) => text_said(chunks).len() > 0 && content == ContentView::Blocks(
                    seq![BlockView::Text { text: text_said(chunks) }],
                ),
            }
            &&& match m.tool_calls {
                None => indices.len() == 0 && are_calls_said(ds, seq![], indices),
                Some(calls) => calls.len() > 0 && are_calls_said(ds, calls, indices),
            }
        }),
{
    lemma_streamed(chunks);
    let ds = fragments_said(chunks);
    let calls = with_fragments(seq![], ds);
    lemma_all_hold_said(ds);
    let indices = lemma_finished_said(ds, calls);
    assert forall|index: u32|
        !is_id_said(ds, index, None) && !is_name_said(ds, index, None) implies #[trigger] indices.contains(
        index,
    ) by {
        let k = choose|k: int|
            0 <= k < ds.len() && (#[trigger] ds[k]).index == index && ds[k].id is Some;
        assert(ds[k].index == index);
        let i = choose|i: int| 0 <= i < calls.len() && (#[trigger] calls[i]).index == ds[k].index;
        assert(holds_said(ds, calls[i]));
        reveal(holds_said);
        assert(calls[i].id is Some);
        assert(calls[i].name is Some);
    }
    let done = finished_calls(calls);
    if done.len() == 0 {
        assert(done =~= seq![]);
        assert(are_calls_said(ds, seq![], indices));
    }
    indices
}

/// The usage of a streamed response is the one that was reported last, or else the
/// estimate of its message; its finish reason is the one of its last chunk.
pub proof fn law_streamed_usage(chunks: Seq<ChunkView>)
    ensures
        streamed(chunks).finish_reason == if chunks.len() == 0 {
            None::<FinishReason>
        } else {
            chunks.last().finish_reason
        },
        match usage_said(chunks) {
            Some(usage) => streamed_usage(streamed(chunks)) == usage,
            None => {
                let usage = streamed_usage(streamed(chunks));
                &&& usage.prompt_tokens == 0
                &&& usage.completion_tokens == estimated(streamed_message(streamed(chunks)))
                &&& usage.total_tokens == usage.completion_tokens
            },
        },
{
    lemma_streamed(chunks);
}

/// The texts that some events report, one after the other.
pub open spec fn text_reported(events: Seq<EventView>) -> Seq<char>
    decreases events.len(),
{
    if events.len() == 0 {
        seq![]
    } else {
        text_reported(events.drop_last()) + match events.last() {
            EventView::TextDelta { text } => text,
            _ => seq![],
        }
    }
}

proof fn lemma_text_reported_parts(a: Seq<EventView>, b: Seq<EventView>)
    ensures
        text_reported(a + b) == text_reported(a) + text_reported(b),
    decreases b.len(),
{
    if b.len() == 0 {
        assert(a + b =~= a);
        assert(text_reported(a) + text_reported(b) =~= text_reported(a));
    } else {
        lemma_text_reported_parts(a, b.drop_last());
        assert((a + b).drop_last() =~= a + b.drop_last());
        assert((a + b).last() == b.last());
        assert(text_reported(a + b) =~= text_reported(a) + text_reported(b));
    }
}

proof fn lemma_fragments_report_no_text(calls: Seq<DeltaView>, ds: Seq<DeltaView>)
    ensures
        text_reported(fragments_events(calls, ds)) == Seq::<char>::empty(),
    decreases ds.len(),
{
    if ds.len() > 0 {
        lemma_fragments_report_no_text(calls, ds.drop_last());
        let front = fragments_events(calls, ds.drop_last());
        let back = fragment_events(with_fragments(calls, ds.drop_last()), ds.last());
        lemma_text_reported_parts(front, back);
        reveal_with_fuel(text_reported, 3);
        assert(text_reported(back) =~= Seq::<char>::empty());
    }
}

/// What is reported of a streamed response is its text: no part of it is left out,
/// added, or reported in another order.
pub proof fn law_streamed_text_is_reported(chunks: Seq<ChunkView>)
    ensures
        text_reported(events_streamed(chunks)) == text_said(chunks),
    decreases chunks.len(),
{
    if chunks.len() > 0 {
        let front = chunks.drop_last();
        let chunk = chunks.last();
        law_streamed_text_is_reported(front);
        let s = streamed(front);
        let events = chunk_events(s, chunk);
        let head = match chunk.delta {
            Some(text) => seq![EventView::TextDelta { text }],
            None => Seq::<EventView>::empty(),
        };
        let tail = fragments_events(s.calls, chunk.tool_calls);
        assert(events =~= head + tail);
        lemma_fragments_report_no_text(s.calls, chunk.tool_calls);
        lemma_text_reported_parts(head, tail);
        lemma_text_reported_parts(events_streamed(front), events);
        reveal_with_fuel(text_reported, 2);
        if let Some(text) = chunk.delta {
            assert(head.drop_last() =~= seq![]);
            assert(text_reported(head) =~= text);
        }
        assert(text_reported(events) =~= text_reported(head));
        assert(text_reported(events_streamed(chunks)) =~= text_said(chunks));
    }
}

/// What is reported of a fragment, once fragments have come: that a call starts,
/// where the fragment has an ID and a name; and its arguments, where it has any,
/// under the last ID that came for its index, where one has come. Nothing else is
/// reported.
pub proof fn law_fragment_is_reported(ds: Seq<DeltaView>)
    requires
        ds.len() > 0,
    ensures
        ({
            let d = ds.last();
            let events = fragment_events(with_fragments(seq![], ds.drop_last()), d);
            &&& events.len() <= 2
            &&& d.id is Some && d.name is Some ==> events.contains(
                EventView::ToolCallStart { id: d.id->0, name: d.name->0 },
            )
            &&& forall|id: Seq<char>|
                is_id_said(ds, d.index, Some(id)) && d.arguments_delta is Some
                    ==> #[trigger] events.contains(
                    EventView::ToolCallDelta { id, arguments_delta: d.arguments_delta->0 },
                )
            &&& forall|i: int|
                0 <= i < events.len() ==> match #[trigger] events[i] {
                    EventView::ToolCallStart { id, name } => d.id == Some(id) && d.name == Some(
                        name,
                    ),
                    EventView::ToolCallDelta { id, arguments_delta } => d.arguments_delta == Some(
                        arguments_delta,
                    ) && is_id_said(ds, d.index, Some(id)),
                    _ => false,
                }
        }),
{
    let d = ds.last();
    let front = ds.drop_last();
    let before = with_fragments(seq![], front);
    let events = fragment_events(before, d);
    lemma_all_hold_said(front);
    lemma_position(before, d.index);
    let call = crate::agent_loop::call_with_index(before, d.index);
    if call_position(before, d.index) is None {
        assert forall|k: int| 0 <= k < front.len() implies (#[trigger] front[k]).index
            != d.index by {
            let i = choose|i: int|
                0 <= i < before.len() && (#[trigger] before[i]).index == front[k].index;
            assert(before[i].index != d.index);
        }
        lemma_fresh_holds_said(front, d.index);
    }
    lemma_merged_holds_said(ds, call);
    let merged = merged_call(call, d);
    reveal(holds_said);
    if d.id is Some && d.name is Some {
        assert(events[0] == EventView::ToolCallStart { id: d.id->0, name: d.name->0 });
    }
    assert forall|id: Seq<char>|
        is_id_said(ds, d.index, Some(id)) && d.arguments_delta is Some implies #[trigger] events.contains(
        EventView::ToolCallDelta { id, arguments_delta: d.arguments_delta->0 },
    ) by {
        lemma_one_id_said(ds, d.index, merged.id, Some(id));
        assert(events.last() == EventView::ToolCallDelta {
            id,
            arguments_delta: d.arguments_delta->0,
        });
        assert(events[events.len() - 1] == events.last());
    }
}

/// One ID was said last.
proof fn lemma_one_id_said(
    ds: Seq<DeltaView>,
    index: u32,
    a: Option<Seq<char>>,
    b: Option<Seq<char>>,
)
    requires
        is_id_said(ds, index, a),
        is_id_said(ds, index, b),
    ensures
        a == b,
{
    if a is Some && b is Some {
        let i = choose|j: int|
            0 <= j < ds.len() && (#[trigger] ds[j]).index == index && ds[j].id == a && forall|k: int|
                j < k < ds.len() && (#[trigger] ds[k]).index == index ==> ds[k].id is None;
        let j = choose|j: int|
            0 <= j < ds.len() && (#[trigger] ds[j]).index == index && ds[j].id == b && forall|k: int|
                j < k < ds.len() && (#[trigger] ds[k]).index == index ==> ds[k].id is None;
        assert(ds[i].index == index && ds[j].index == index);
    }
}

} // verus!
