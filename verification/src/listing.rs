//! Sequences that are taken from others.

use vstd::prelude::*;

verus! {

/// What some items give, of those that give anything, in the order of the items.
pub open spec fn selected<A, B>(items: Seq<A>, give: spec_fn(A) -> Option<B>) -> Seq<B>
    decreases items.len(),
{
    if items.len() == 0 {
        seq![]
    } else {
        let front = selected(items.drop_last(), give);
        match give(items.last()) {
            Some(b) => front.push(b),
            None => front,
        }
    }
}

/// A sequence is what the items at some places give: the places rise, and no other
/// item gives anything.
pub open spec fn is_taken_from<A, B>(
    taken: Seq<B>,
    items: Seq<A>,
    give: spec_fn(A) -> Option<B>,
    places: Seq<int>,
) -> bool {
    &&& places.len() == taken.len()
    &&& forall|i: int| #![trigger places[i]]
        0 <= i < places.len() ==> 0 <= places[i] < items.len() && give(items[places[i]]) == Some(
            taken[i],
        )
    &&& forall|i: int, j: int|
        0 <= i < j < places.len() ==> (#[trigger] places[i]) < (#[trigger] places[j])
    &&& forall|k: int|
        0 <= k < items.len() && give(#[trigger] items[k]) is Some ==> places.contains(k)
}

/// What is selected is all that the items give, and nothing else, in their order.
pub proof fn law_selected<A, B>(items: Seq<A>, give: spec_fn(A) -> Option<B>) -> (places: Seq<int>)
    ensures
        is_taken_from(selected(items, give), items, give, places),
    decreases items.len(),
{
    if items.len() == 0 {
        seq![]
    } else {
        let front = items.drop_last();
        let n = items.len() - 1;
        let before = law_selected(front, give);
        let places = if give(items.last()) is Some {
            before.push(n)
        } else {
            before
        };
        let taken = selected(items, give);
        assert forall|i: int| 0 <= i < places.len() implies 0 <= #[trigger] places[i] < items.len()
            && give(items[places[i]]) == Some(taken[i]) by {
            if i < before.len() {
                assert(places[i] == before[i]);
                assert(front[before[i]] == items[before[i]]);
            }
        }
        assert forall|i: int, j: int| 0 <= i < j < places.len() implies (#[trigger] places[i]) < (
        #[trigger] places[j]) by {
            assert(places[i] == before[i]);
            if j < before.len() {
                assert(places[j] == before[j]);
            }
        }
        assert forall|k: int|
            0 <= k < items.len() && give(#[trigger] items[k]) is Some implies places.contains(k) by {
            if k < n {
                assert(front[k] == items[k]);
                let i = choose|i: int| 0 <= i < before.len() && before[i] == k;
                assert(places[i] == k);
            } else {
                assert(places[before.len() as int] == k);
            }
        }
        places
    }
}

} // verus!
