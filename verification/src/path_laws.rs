//! What holds of the tree of a session's entries: which entries are on its path, and
//! what they give to the context.

use vstd::prelude::*;

use crate::agent_loop::summary_message;
use crate::session::{
    chain, context_along, context_at, covered, current_entry, entry_ids, entry_with_id, is_compacted,
    leaf_target, lemma_unseen_shrinks, session_path_ids, summary_before, with_entry, EntryKind,
    EntryView, SessionView,
};

verus! {

// ---------------------------------------------------------------------------
// Looking up entries
// ---------------------------------------------------------------------------

/// The entry at a place is the last with an identifier.
pub open spec fn is_last_with(entries: Seq<EntryView>, id: Seq<char>, i: int) -> bool {
    &&& 0 <= i < entries.len()
    &&& entries[i].id == id
    &&& forall|j: int| i < j < entries.len() ==> (#[trigger] entries[j]).id != id
}

/// The entry with an identifier is the last that has it; there is none exactly where no
/// entry has it.
pub proof fn law_entry_with_id(entries: Seq<EntryView>, id: Seq<char>)
    ensures
        match entry_with_id(entries, id) {
            Some(e) => exists|i: int| #[trigger] is_last_with(entries, id, i) && e == entries[i],
            None => forall|j: int| 0 <= j < entries.len() ==> (#[trigger] entries[j]).id != id,
        },
    decreases entries.len(),
{
    if entries.len() > 0 {
        let n = entries.len() - 1;
        if entries.last().id == id {
            assert(is_last_with(entries, id, n));
        } else {
            let front = entries.drop_last();
            law_entry_with_id(front, id);
            assert(forall|j: int| 0 <= j < n ==> front[j] == #[trigger] entries[j]);
            if let Some(e) = entry_with_id(front, id) {
                let i = choose|i: int| #[trigger] is_last_with(front, id, i) && e == front[i];
                assert(is_last_with(entries, id, i));
            }
        }
    }
}

/// An entry is a leaf with an identifier.
pub open spec fn is_leaf_with(e: EntryView, id: Seq<char>) -> bool {
    e.id == id && e.kind is Leaf
}

/// What a leaf points to is told by the first leaf with its identifier. A session whose
/// leaf is not there is at its own root.
pub proof fn law_current_entry(s: SessionView)
    ensures
        (forall|i: int| 0 <= i < s.entries.len() ==> !is_leaf_with(#[trigger] s.entries[i], s.leaf_id))
            ==> current_entry(s) == s.session_id,
        forall|i: int|
            0 <= i < s.entries.len() && is_leaf_with(#[trigger] s.entries[i], s.leaf_id) && (
            forall|j: int| 0 <= j < i ==> !is_leaf_with(#[trigger] s.entries[j], s.leaf_id))
                ==> current_entry(s) == s.entries[i].kind->target_id,
{
    lemma_leaf_target(s.entries, s.leaf_id);
    if let Some(target) = leaf_target(s.entries, s.leaf_id) {
        let k = choose|k: int| #[trigger] is_first_leaf(s.entries, s.leaf_id, k) && target
            == s.entries[k].kind->target_id;
        assert(is_leaf_with(s.entries[k], s.leaf_id));
        assert forall|i: int|
            0 <= i < s.entries.len() && is_leaf_with(#[trigger] s.entries[i], s.leaf_id) && (
            forall|j: int|
                0 <= j < i ==> !is_leaf_with(#[trigger] s.entries[j], s.leaf_id)) implies current_entry(
            s,
        ) == s.entries[i].kind->target_id by {
            if k < i {
                assert(!is_leaf_with(s.entries[k], s.leaf_id));
            } else if i < k {
                assert(!is_leaf_with(s.entries[i], s.leaf_id));
            }
        }
    }
}

/// The entry at a place is the first leaf with an identifier.
pub open spec fn is_first_leaf(entries: Seq<EntryView>, id: Seq<char>, i: int) -> bool {
    &&& 0 <= i < entries.len()
    &&& is_leaf_with(entries[i], id)
    &&& forall|j: int| 0 <= j < i ==> !is_leaf_with(#[trigger] entries[j], id)
}

proof fn lemma_leaf_target(entries: Seq<EntryView>, id: Seq<char>)
    ensures
        match leaf_target(entries, id) {
            Some(target) => exists|i: int| #[trigger]
                is_first_leaf(entries, id, i) && target == entries[i].kind->target_id,
            None => forall|i: int|
                0 <= i < entries.len() ==> !is_leaf_with(#[trigger] entries[i], id),
        },
    decreases entries.len(),
{
    if entries.len() > 0 {
        if is_leaf_with(entries[0], id) {
            assert(is_first_leaf(entries, id, 0));
        } else {
            let rest = entries.skip(1);
            lemma_leaf_target(rest, id);
            assert(forall|j: int| 0 < j < entries.len() ==> rest[j - 1] == #[trigger] entries[j]);
            if let Some(target) = leaf_target(rest, id) {
                let i = choose|i: int| #[trigger]
                    is_first_leaf(rest, id, i) && target == rest[i].kind->target_id;
                assert(entries[i + 1] == rest[i]);
                assert(is_first_leaf(entries, id, i + 1));
            }
        }
    }
}

/// An entry is a compaction whose kept messages start at an entry.
pub open spec fn keeps_from(e: EntryView, id: Seq<char>) -> bool {
    e.kind matches EntryKind::Compaction { first_kept_entry_id, .. } && first_kept_entry_id == id
}

/// The summary that stands before an entry is that of the first compaction whose kept
/// messages start there; there is none exactly where there is no such compaction.
pub proof fn law_summary_before(entries: Seq<EntryView>, id: Seq<char>)
    ensures
        match summary_before(entries, id) {
            Some(summary) => exists|i: int|
                0 <= i < entries.len() && keeps_from(#[trigger] entries[i], id) && summary
                    == entries[i].kind->summary && forall|j: int|
                    0 <= j < i ==> !keeps_from(#[trigger] entries[j], id),
            None => forall|i: int|
                0 <= i < entries.len() ==> !keeps_from(#[trigger] entries[i], id),
        },
    decreases entries.len(),
{
    if entries.len() > 0 {
        if keeps_from(entries[0], id) {
            assert(summary_before(entries, id) == Some(entries[0].kind->summary));
        } else {
            let rest = entries.skip(1);
            law_summary_before(rest, id);
            assert(forall|j: int| 0 < j < entries.len() ==> rest[j - 1] == #[trigger] entries[j]);
            if let Some(summary) = summary_before(rest, id) {
                let i = choose|i: int|
                    0 <= i < rest.len() && keeps_from(#[trigger] rest[i], id) && summary
                        == rest[i].kind->summary && forall|j: int|
                        0 <= j < i ==> !keeps_from(#[trigger] rest[j], id);
                assert(keeps_from(entries[i + 1], id));
            }
        }
    }
}

// ---------------------------------------------------------------------------
// Paths
// ---------------------------------------------------------------------------

/// A walk goes no further than to an identifier: it is where the walk is to stop, it was
/// seen before, or no entry has it.
pub open spec fn ends_before(
    entries: Seq<EntryView>,
    id: Seq<char>,
    stop: Option<Seq<char>>,
    seen: Set<Seq<char>>,
) -> bool {
    stop == Some(id) || seen.contains(id) || entry_with_id(entries, id) is None
}

/// A walk from an entry goes from each entry to its parent, meets none twice, and goes
/// on until it has to end.
pub open spec fn is_walk(
    ids: Seq<Seq<char>>,
    entries: Seq<EntryView>,
    id: Seq<char>,
    stop: Option<Seq<char>>,
    seen: Set<Seq<char>>,
) -> bool {
    &&& ids.len() == 0 <==> ends_before(entries, id, stop, seen)
    &&& ids.len() > 0 ==> ids[0] == id
    &&& forall|i: int|
        0 <= i < ids.len() ==> entry_with_id(entries, #[trigger] ids[i]) is Some && stop != Some(
            ids[i],
        ) && !seen.contains(ids[i])
    &&& forall|i: int, j: int| 0 <= i < j < ids.len() ==> #[trigger] ids[i] != #[trigger] ids[j]
    &&& forall|i: int|
        0 <= i < ids.len() - 1 ==> entry_with_id(entries, #[trigger] ids[i])->0.parent_id == Some(
            ids[i + 1],
        )
    &&& ids.len() > 0 ==> (entry_with_id(entries, ids.last())->0.parent_id matches Some(parent)
        ==> ids.contains(parent) || ends_before(entries, parent, stop, seen))
}

/// The identifiers from an entry up are a walk from it.
pub proof fn law_chain_is_a_walk(
    entries: Seq<EntryView>,
    id: Seq<char>,
    stop: Option<Seq<char>>,
    seen: Set<Seq<char>>,
)
    ensures
        is_walk(chain(entries, id, stop, seen), entries, id, stop, seen),
    decreases entry_ids(entries).difference(seen).len(),
{
    let ids = chain(entries, id, stop, seen);
    if !ends_before(entries, id, stop, seen) {
        let e = entry_with_id(entries, id)->0;
        match e.parent_id {
            None => {
                assert(ids =~= seq![id]);
            },
            Some(parent) => {
                lemma_unseen_shrinks(entries, id, seen);
                let more = seen.insert(id);
                law_chain_is_a_walk(entries, parent, stop, more);
                let rest = chain(entries, parent, stop, more);
                assert(ids == seq![id] + rest);
                assert(forall|i: int| 0 < i < ids.len() ==> #[trigger] ids[i] == rest[i - 1]);
                assert forall|i: int| 0 <= i < ids.len() implies entry_with_id(
                    entries,
                    #[trigger] ids[i],
                ) is Some && stop != Some(ids[i]) && !seen.contains(ids[i]) by {
                    if i > 0 {
                        assert(!more.contains(rest[i - 1]));
                    }
                }
                assert forall|i: int, j: int| 0 <= i < j < ids.len() implies #[trigger] ids[i]
                    != #[trigger] ids[j] by {
                    assert(ids[j] == rest[j - 1]);
                    if i == 0 {
                        assert(!more.contains(rest[j - 1]));
                    } else {
                        assert(ids[i] == rest[i - 1]);
                    }
                }
                assert forall|i: int| 0 <= i < ids.len() - 1 implies entry_with_id(
                    entries,
                    #[trigger] ids[i],
                )->0.parent_id == Some(ids[i + 1]) by {
                    assert(ids[i + 1] == rest[i]);
                    if i > 0 {
                        assert(ids[i] == rest[i - 1]);
                    }
                }
                if rest.len() > 0 {
                    assert(ids.last() == rest.last());
                    if let Some(above) = entry_with_id(entries, rest.last())->0.parent_id {
                        if rest.contains(above) {
                            let k = choose|k: int| 0 <= k < rest.len() && rest[k] == above;
                            assert(ids[k + 1] == above);
                        } else if more.contains(above) && !seen.contains(above) {
                            assert(ids[0] == above);
                        }
                    }
                } else {
                    assert(ids =~= seq![id]);
                    if more.contains(parent) && !seen.contains(parent) {
                        assert(ids[0] == parent);
                    }
                }
            },
        }
    }
}

/// The path of a session ends with its current entry and goes, from the end, from each
/// entry to its parent, up to one that has none.
pub proof fn law_path_follows_parents(s: SessionView)
    ensures
        is_walk(session_path_ids(s).reverse(), s.entries, current_entry(s), None, Set::empty()),
        session_path_ids(s).len() > 0 ==> session_path_ids(s).last() == current_entry(s),
        session_path_ids(s).len() == 0 <==> entry_with_id(s.entries, current_entry(s)) is None,
{
    let ids = chain(s.entries, current_entry(s), None, Set::empty());
    law_chain_is_a_walk(s.entries, current_entry(s), None, Set::empty());
    assert(ids.reverse().reverse() =~= ids);
}

// ---------------------------------------------------------------------------
// Context
// ---------------------------------------------------------------------------

/// What a path gives to the context is what each entry on it gives, in order.
pub proof fn law_context_in_parts(
    entries: Seq<EntryView>,
    a: Seq<Seq<char>>,
    b: Seq<Seq<char>>,
    id: Seq<char>,
)
    ensures
        context_along(entries, a + b) == context_along(entries, a) + context_along(entries, b),
        context_along(entries, seq![id]) == context_at(entries, id),
    decreases b.len(),
{
    assert(seq![id].drop_last() =~= seq![]);
    assert(context_along(entries, seq![id].drop_last()) =~= seq![]);
    assert(context_along(entries, seq![id]) =~= context_at(entries, id));
    if b.len() == 0 {
        assert(a + b =~= a);
        assert(context_along(entries, a) + context_along(entries, b) =~= context_along(
            entries,
            a,
        ));
    } else {
        law_context_in_parts(entries, a, b.drop_last(), id);
        assert((a + b).drop_last() =~= a + b.drop_last());
        assert((a + b).last() == b.last());
        assert(context_along(entries, a + b) =~= context_along(entries, a) + context_along(
            entries,
            b,
        ));
    }
}

/// A compaction covers the entries above its first kept one, from the parent of that
/// one up. One whose first kept entry is not there, or is a root, covers none. What was
/// compacted is what some compaction covers.
pub proof fn law_compaction_covers_what_is_above(
    entries: Seq<EntryView>,
    compaction: EntryView,
    id: Seq<char>,
)
    requires
        entries.contains(compaction),
        compaction.kind is Compaction,
    ensures
        match entry_with_id(entries, compaction.kind->first_kept_entry_id) {
            Some(kept) => match kept.parent_id {
                Some(parent) => is_walk(
                    covered(entries, compaction),
                    entries,
                    parent,
                    Some(compaction.id),
                    Set::empty(),
                ),
                None => covered(entries, compaction).len() == 0,
            },
            None => covered(entries, compaction).len() == 0,
        },
        covered(entries, compaction).contains(id) ==> is_compacted(entries, id),
        is_compacted(entries, id) ==> exists|c: EntryView| #[trigger]
            entries.contains(c) && c.kind is Compaction && covered(entries, c).contains(id),
{
    if let Some(kept) = entry_with_id(entries, compaction.kind->first_kept_entry_id) {
        if let Some(parent) = kept.parent_id {
            law_chain_is_a_walk(entries, parent, Some(compaction.id), Set::empty());
        }
    }
    let m = choose|m: int| 0 <= m < entries.len() && entries[m] == compaction;
    assert(entries[m].kind is Compaction);
    if is_compacted(entries, id) {
        let k = choose|k: int|
            0 <= k < entries.len() && (#[trigger] entries[k]).kind is Compaction && covered(
                entries,
                entries[k],
            ).contains(id);
        assert(entries.contains(entries[k]));
    }
}

/// A message on the path that no compaction covers stands in the context under its
/// identifier, after the summary that stands before it, if any. One that a compaction
/// covers does not, nor does an entry that is no message.
pub proof fn law_context_of_an_entry(entries: Seq<EntryView>, id: Seq<char>)
    ensures
        ({
            let given = context_at(entries, id);
            let first: int = if summary_before(entries, id) is Some {
                1
            } else {
                0
            };
            &&& summary_before(entries, id) matches Some(summary) ==> given.len() > 0
                && given[0].message == summary_message(summary) && given[0].entry_id is None
            &&& match entry_with_id(entries, id) {
                Some(e) => match e.kind {
                    EntryKind::Message { message } => if is_compacted(entries, id) {
                        given.len() == first
                    } else {
                        &&& given.len() == first + 1
                        &&& given[first].message == message
                        &&& given[first].entry_id == Some(id)
                    },
                    _ => given.len() == first,
                },
                None => given.len() == first,
            }
        }),
{
}

/// An entry that is added to a session stands below the current one, and the session
/// goes on from it. What was there stays.
pub proof fn law_entry_is_added(
    s: SessionView,
    kind: EntryKind,
    entry_id: Seq<char>,
    leaf_id: Seq<char>,
)
    requires
        forall|i: int| 0 <= i < s.entries.len() ==> (#[trigger] s.entries[i]).id != leaf_id,
        entry_id != leaf_id,
    ensures
        ({
            let next = with_entry(s, kind, entry_id, leaf_id);
            let n = s.entries.len() as int;
            &&& next.entries.len() == n + 2
            &&& forall|i: int| 0 <= i < n ==> next.entries[i] == #[trigger] s.entries[i]
            &&& next.entries[n].id == entry_id
            &&& next.entries[n].parent_id == Some(current_entry(s))
            &&& next.entries[n].kind == kind
            &&& next.leaf_id == leaf_id
            &&& current_entry(next) == entry_id
            &&& next.session_id == s.session_id
            &&& next.created_at == s.created_at
            &&& next.model == s.model
            &&& next.metadata == s.metadata
        }),
{
    let next = with_entry(s, kind, entry_id, leaf_id);
    let n = s.entries.len() as int;
    assert(forall|i: int| 0 <= i < n ==> next.entries[i] == #[trigger] s.entries[i]);
    assert forall|j: int| 0 <= j < n + 1 implies !is_leaf_with(
        #[trigger] next.entries[j],
        leaf_id,
    ) by {
        if j < n {
            assert(s.entries[j].id != leaf_id);
        }
    }
    assert(is_leaf_with(next.entries[n + 1], leaf_id));
    law_current_entry(next);
}

} // verus!
