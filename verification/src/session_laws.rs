//! What holds of sessions over several operations.

use vstd::prelude::*;

use crate::agent::{law_turn_extends_session, stay_fresh, with_ids, with_messages};
use crate::agent_loop::{compacted_messages, summary_message};
use crate::session::{
    chain, context_along, context_at, context_messages, covered, current_entry, entry_ids,
    entry_with_id, is_compacted, leaf_target, lemma_entry_with_id, lemma_unseen_shrinks,
    new_session, session_context, session_path_ids, summary_before, with_compaction, with_entry,
    with_message, ContextView, EntryKind, EntryView, SessionView, Timestamp,
};
use crate::session_store::{
    first_meta, id_of, last_leaf, last_message, line_entries, loaded, migrated, needs_migration,
    relinked, LineView,
};
use crate::types::MessageView;

verus! {

/// Nothing in a session has an ID or refers to it.
pub open spec fn is_fresh(s: SessionView, id: Seq<char>) -> bool {
    &&& current_entry(s) != id
    &&& forall|i: int|
        0 <= i < s.entries.len() ==> {
            &&& (#[trigger] s.entries[i]).id != id
            &&& s.entries[i].parent_id != Some(id)
            &&& s.entries[i].kind is Compaction ==> s.entries[i].kind->first_kept_entry_id != id
        }
}

/// Two IDs that are new to a session, and distinct.
pub open spec fn are_fresh(s: SessionView, entry_id: Seq<char>, leaf_id: Seq<char>) -> bool {
    is_fresh(s, entry_id) && is_fresh(s, leaf_id) && entry_id != leaf_id
}

// ---------------------------------------------------------------------------
// Looking up entries in a longer list
// ---------------------------------------------------------------------------

proof fn lemma_leaf_target_push(entries: Seq<EntryView>, e: EntryView, leaf_id: Seq<char>)
    ensures
        leaf_target(entries, leaf_id) is Some ==> leaf_target(entries.push(e), leaf_id)
            == leaf_target(entries, leaf_id),
        leaf_target(entries, leaf_id) is None ==> leaf_target(entries.push(e), leaf_id) == (
        if e.id == leaf_id && e.kind is Leaf {
            Some(e.kind->target_id)
        } else {
            None
        }),
    decreases entries.len(),
{
    if entries.len() == 0 {
        assert(entries.push(e).skip(1) =~= seq![]);
        assert(leaf_target(entries.push(e).skip(1), leaf_id) is None);
    } else {
        assert(entries.push(e)[0] == entries[0]);
        assert(entries.push(e).skip(1) =~= entries.skip(1).push(e));
        lemma_leaf_target_push(entries.skip(1), e, leaf_id);
    }
}

proof fn lemma_no_leaf(entries: Seq<EntryView>, leaf_id: Seq<char>)
    requires
        forall|i: int| 0 <= i < entries.len() ==> (#[trigger] entries[i]).id != leaf_id,
    ensures
        leaf_target(entries, leaf_id) is None,
    decreases entries.len(),
{
    if entries.len() > 0 {
        assert forall|i: int| 0 <= i < entries.skip(1).len() implies (#[trigger] entries.skip(
            1,
        )[i]).id != leaf_id by {
            assert(entries.skip(1)[i] == entries[i + 1]);
        }
        lemma_no_leaf(entries.skip(1), leaf_id);
    }
}

proof fn lemma_entry_push(entries: Seq<EntryView>, e: EntryView, id: Seq<char>)
    ensures
        entry_with_id(entries.push(e), id) == (if e.id == id {
            Some(e)
        } else {
            entry_with_id(entries, id)
        }),
{
    assert(entries.push(e).drop_last() =~= entries);
}

proof fn lemma_summary_push(entries: Seq<EntryView>, e: EntryView, id: Seq<char>)
    ensures
        summary_before(entries, id) is Some ==> summary_before(entries.push(e), id)
            == summary_before(entries, id),
        summary_before(entries, id) is None ==> summary_before(entries.push(e), id) == (
        if e.kind is Compaction && e.kind->first_kept_entry_id == id {
            Some(e.kind->summary)
        } else {
            None
        }),
    decreases entries.len(),
{
    if entries.len() == 0 {
        assert(entries.push(e).skip(1) =~= seq![]);
        assert(summary_before(entries.push(e).skip(1), id) is None);
    } else {
        assert(entries.push(e)[0] == entries[0]);
        assert(entries.push(e).skip(1) =~= entries.skip(1).push(e));
        lemma_summary_push(entries.skip(1), e, id);
    }
}

/// The entries of a session with one more entry and its leaf.
spec fn extended(
    s: SessionView,
    kind: EntryKind,
    entry_id: Seq<char>,
    leaf_id: Seq<char>,
) -> Seq<EntryView> {
    with_entry(s, kind, entry_id, leaf_id).entries
}

proof fn lemma_extended_lookup(
    s: SessionView,
    kind: EntryKind,
    entry_id: Seq<char>,
    leaf_id: Seq<char>,
    id: Seq<char>,
)
    requires
        entry_id != leaf_id,
    ensures
        id != entry_id && id != leaf_id ==> entry_with_id(extended(s, kind, entry_id, leaf_id), id)
            == entry_with_id(s.entries, id),
        id == entry_id ==> entry_with_id(extended(s, kind, entry_id, leaf_id), id) == Some(
            EntryView { id: entry_id, parent_id: Some(current_entry(s)), kind },
        ),
{
    let e = EntryView { id: entry_id, parent_id: Some(current_entry(s)), kind };
    let leaf = EntryView {
        id: leaf_id,
        parent_id: Some(s.leaf_id),
        kind: EntryKind::Leaf { target_id: entry_id },
    };
    lemma_entry_push(s.entries, e, id);
    lemma_entry_push(s.entries.push(e), leaf, id);
}

/// A walk that starts among the entries of a session stays there when the
/// session gets longer.
proof fn lemma_extended_chain(
    s: SessionView,
    kind: EntryKind,
    entry_id: Seq<char>,
    leaf_id: Seq<char>,
    id: Seq<char>,
    stop: Option<Seq<char>>,
    seen: Set<Seq<char>>,
    seen_after: Set<Seq<char>>,
)
    requires
        are_fresh(s, entry_id, leaf_id),
        id != entry_id,
        id != leaf_id,
        forall|x: Seq<char>| x != entry_id ==> (seen.contains(x) == seen_after.contains(x)),
    ensures
        chain(extended(s, kind, entry_id, leaf_id), id, stop, seen_after) == chain(
            s.entries,
            id,
            stop,
            seen,
        ),
    decreases entry_ids(s.entries).difference(seen).len(),
{
    let after = extended(s, kind, entry_id, leaf_id);
    lemma_extended_lookup(s, kind, entry_id, leaf_id, id);
    lemma_entry_with_id(s.entries, id);
    if stop != Some(id) && !seen.contains(id) && entry_with_id(s.entries, id) is Some {
        let e = entry_with_id(s.entries, id)->0;
        lemma_unseen_shrinks(s.entries, id, seen);
        if e.parent_id is Some {
            let k = choose|k: int| 0 <= k < s.entries.len() && s.entries[k] == e;
            assert(s.entries[k].parent_id != Some(entry_id));
            assert(s.entries[k].parent_id != Some(leaf_id));
            lemma_extended_chain(
                s,
                kind,
                entry_id,
                leaf_id,
                e.parent_id->0,
                stop,
                seen.insert(id),
                seen_after.insert(id),
            );
        }
    }
}

/// A walk meets no ID that it had seen, no ID twice, and only IDs of entries.
proof fn lemma_chain_members(
    entries: Seq<EntryView>,
    id: Seq<char>,
    stop: Option<Seq<char>>,
    seen: Set<Seq<char>>,
)
    ensures
        forall|i: int|
            0 <= i < chain(entries, id, stop, seen).len() ==> {
                let x = #[trigger] chain(entries, id, stop, seen)[i];
                !seen.contains(x) && entry_with_id(entries, x) is Some && stop != Some(x)
            },
        chain(entries, id, stop, seen).no_duplicates(),
        chain(entries, id, stop, seen).len() > 0 ==> chain(entries, id, stop, seen)[0] == id,
    decreases entry_ids(entries).difference(seen).len(),
{
    let whole = chain(entries, id, stop, seen);
    if stop != Some(id) && !seen.contains(id) && entry_with_id(entries, id) is Some {
        let e = entry_with_id(entries, id)->0;
        lemma_unseen_shrinks(entries, id, seen);
        if e.parent_id is Some {
            let rest = chain(entries, e.parent_id->0, stop, seen.insert(id));
            lemma_chain_members(entries, e.parent_id->0, stop, seen.insert(id));
            assert(whole =~= seq![id] + rest);
            assert forall|i: int| 0 <= i < whole.len() implies {
                let x = #[trigger] whole[i];
                !seen.contains(x) && entry_with_id(entries, x) is Some && stop != Some(x)
            } by {
                if i > 0 {
                    assert(whole[i] == rest[i - 1]);
                }
            }
            assert forall|i: int, j: int| 0 <= i < j < whole.len() implies whole[i] != whole[j] by {
                assert(whole[j] == rest[j - 1]);
                if i > 0 {
                    assert(whole[i] == rest[i - 1]);
                }
            }
        } else {
            assert(whole =~= seq![id]);
        }
    }
}

proof fn lemma_extended_covered(
    s: SessionView,
    kind: EntryKind,
    entry_id: Seq<char>,
    leaf_id: Seq<char>,
    k: int,
)
    requires
        are_fresh(s, entry_id, leaf_id),
        0 <= k < s.entries.len(),
        s.entries[k].kind is Compaction,
    ensures
        covered(extended(s, kind, entry_id, leaf_id), s.entries[k]) == covered(
            s.entries,
            s.entries[k],
        ),
{
    let c = s.entries[k];
    let first_kept = c.kind->first_kept_entry_id;
    lemma_extended_lookup(s, kind, entry_id, leaf_id, first_kept);
    lemma_entry_with_id(s.entries, first_kept);
    if entry_with_id(s.entries, first_kept) is Some {
        let kept = entry_with_id(s.entries, first_kept)->0;
        if kept.parent_id is Some {
            let j = choose|j: int| 0 <= j < s.entries.len() && s.entries[j] == kept;
            assert(s.entries[j].parent_id != Some(entry_id));
            assert(s.entries[j].parent_id != Some(leaf_id));
            lemma_extended_chain(
                s,
                kind,
                entry_id,
                leaf_id,
                kept.parent_id->0,
                Some(c.id),
                Set::empty(),
                Set::empty(),
            );
        }
    }
}

/// What an appended entry that is no compaction changes of what is compacted:
/// nothing.
proof fn lemma_extended_compacted(
    s: SessionView,
    kind: EntryKind,
    entry_id: Seq<char>,
    leaf_id: Seq<char>,
    id: Seq<char>,
)
    requires
        are_fresh(s, entry_id, leaf_id),
    ensures
        is_compacted(extended(s, kind, entry_id, leaf_id), id) == (is_compacted(s.entries, id) || (
        kind is Compaction && covered(
            extended(s, kind, entry_id, leaf_id),
            EntryView { id: entry_id, parent_id: Some(current_entry(s)), kind },
        ).contains(id))),
{
    let after = extended(s, kind, entry_id, leaf_id);
    let n = s.entries.len() as int;
    assert(after[n] == EntryView { id: entry_id, parent_id: Some(current_entry(s)), kind });
    assert(after[n + 1].kind is Leaf);
    assert forall|k: int| 0 <= k < n implies after[k] == s.entries[k] by {}
    if is_compacted(s.entries, id) {
        let k = choose|k: int|
            0 <= k < s.entries.len() && (#[trigger] s.entries[k]).kind is Compaction && covered(
                s.entries,
                s.entries[k],
            ).contains(id);
        lemma_extended_covered(s, kind, entry_id, leaf_id, k);
        assert(after[k].kind is Compaction && covered(after, after[k]).contains(id));
    }
    if is_compacted(after, id) {
        let k = choose|k: int|
            0 <= k < after.len() && (#[trigger] after[k]).kind is Compaction && covered(
                after,
                after[k],
            ).contains(id);
        if k < n {
            lemma_extended_covered(s, kind, entry_id, leaf_id, k);
            assert(s.entries[k].kind is Compaction);
        }
    }
}

/// The path of a longer session is the path of the session and the new entry.
proof fn lemma_extended_path(
    s: SessionView,
    kind: EntryKind,
    entry_id: Seq<char>,
    leaf_id: Seq<char>,
)
    requires
        are_fresh(s, entry_id, leaf_id),
    ensures
        session_path_ids(with_entry(s, kind, entry_id, leaf_id)) == session_path_ids(s).push(
            entry_id,
        ),
        current_entry(with_entry(s, kind, entry_id, leaf_id)) == entry_id,
{
    let t = with_entry(s, kind, entry_id, leaf_id);
    let e = EntryView { id: entry_id, parent_id: Some(current_entry(s)), kind };
    let leaf = EntryView {
        id: leaf_id,
        parent_id: Some(s.leaf_id),
        kind: EntryKind::Leaf { target_id: entry_id },
    };
    lemma_no_leaf(s.entries, leaf_id);
    lemma_leaf_target_push(s.entries, e, leaf_id);
    lemma_leaf_target_push(s.entries.push(e), leaf, leaf_id);
    assert(current_entry(t) == entry_id);
    lemma_extended_lookup(s, kind, entry_id, leaf_id, entry_id);
    let none: Set<Seq<char>> = Set::empty();
    lemma_extended_chain(
        s,
        kind,
        entry_id,
        leaf_id,
        current_entry(s),
        None,
        none,
        none.insert(entry_id),
    );
    let rest = chain(s.entries, current_entry(s), None, none);
    assert(chain(t.entries, entry_id, None, none) == seq![entry_id] + rest);
    assert((seq![entry_id] + rest).reverse() =~= rest.reverse().push(entry_id));
}

proof fn lemma_path_members(s: SessionView)
    ensures
        forall|i: int|
            0 <= i < session_path_ids(s).len() ==> entry_with_id(
                s.entries,
                #[trigger] session_path_ids(s)[i],
            ) is Some,
        session_path_ids(s).no_duplicates(),
{
    lemma_chain_members(s.entries, current_entry(s), None, Set::empty());
    let c = chain(s.entries, current_entry(s), None, Set::empty());
    assert forall|i: int| 0 <= i < session_path_ids(s).len() implies entry_with_id(
        s.entries,
        #[trigger] session_path_ids(s)[i],
    ) is Some by {
        assert(session_path_ids(s)[i] == c[c.len() - 1 - i]);
    }
    assert forall|i: int, j: int|
        0 <= i < j < session_path_ids(s).len() implies session_path_ids(s)[i] != session_path_ids(
        s,
    )[j] by {
        assert(session_path_ids(s)[i] == c[c.len() - 1 - i]);
        assert(session_path_ids(s)[j] == c[c.len() - 1 - j]);
    }
}

proof fn lemma_context_same(
    before: Seq<EntryView>,
    after: Seq<EntryView>,
    path: Seq<Seq<char>>,
)
    requires
        forall|i: int|
            0 <= i < path.len() ==> context_at(before, #[trigger] path[i]) == context_at(
                after,
                path[i],
            ),
    ensures
        context_along(before, path) == context_along(after, path),
    decreases path.len(),
{
    if path.len() > 0 {
        assert forall|i: int| 0 <= i < path.drop_last().len() implies context_at(
            before,
            #[trigger] path.drop_last()[i],
        ) == context_at(after, path.drop_last()[i]) by {
            assert(path.drop_last()[i] == path[i]);
        }
        lemma_context_same(before, after, path.drop_last());
        assert(path.last() == path[path.len() - 1]);
    }
}

/// A message that is appended stands at the end of the context, under its entry
/// ID; the rest of the context stays as it was.
pub proof fn law_appended_message_ends_context(
    s: SessionView,
    message: MessageView,
    entry_id: Seq<char>,
    leaf_id: Seq<char>,
)
    requires
        are_fresh(s, entry_id, leaf_id),
    ensures
        session_context(with_message(s, message, entry_id, leaf_id)) == session_context(s).push(
            ContextView { message, entry_id: Some(entry_id) },
        ),
{
    let kind = EntryKind::Message { message };
    let t = with_message(s, message, entry_id, leaf_id);
    let e = EntryView { id: entry_id, parent_id: Some(current_entry(s)), kind };
    let leaf = EntryView {
        id: leaf_id,
        parent_id: Some(s.leaf_id),
        kind: EntryKind::Leaf { target_id: entry_id },
    };
    let path = session_path_ids(s);
    lemma_extended_path(s, kind, entry_id, leaf_id);
    lemma_path_members(s);
    assert forall|i: int| 0 <= i < path.len() implies context_at(s.entries, #[trigger] path[i])
        == context_at(t.entries, path[i]) by {
        lemma_entry_with_id(s.entries, path[i]);
        lemma_extended_lookup(s, kind, entry_id, leaf_id, path[i]);
        lemma_extended_compacted(s, kind, entry_id, leaf_id, path[i]);
        lemma_summary_push(s.entries, e, path[i]);
        lemma_summary_push(s.entries.push(e), leaf, path[i]);
    }
    lemma_context_same(s.entries, t.entries, path);
    assert(path.push(entry_id).drop_last() =~= path);
    // The new entry has no summary before it, and nothing covers it.
    lemma_no_summary(s.entries, entry_id);
    lemma_summary_push(s.entries, e, entry_id);
    lemma_summary_push(s.entries.push(e), leaf, entry_id);
    lemma_extended_lookup(s, kind, entry_id, leaf_id, entry_id);
    lemma_extended_compacted(s, kind, entry_id, leaf_id, entry_id);
    lemma_fresh_not_compacted(s, entry_id);
    assert(context_at(t.entries, entry_id) =~= seq![
        ContextView { message, entry_id: Some(entry_id) },
    ]);
    assert(session_context(t) =~= session_context(s).push(
        ContextView { message, entry_id: Some(entry_id) },
    ));
}

proof fn lemma_no_summary(entries: Seq<EntryView>, id: Seq<char>)
    requires
        forall|i: int|
            0 <= i < entries.len() && (#[trigger] entries[i]).kind is Compaction
                ==> entries[i].kind->first_kept_entry_id != id,
    ensures
        summary_before(entries, id) is None,
    decreases entries.len(),
{
    if entries.len() > 0 {
        assert forall|i: int|
            0 <= i < entries.skip(1).len() && (#[trigger] entries.skip(1)[i]).kind is Compaction implies entries.skip(
        1)[i].kind->first_kept_entry_id != id by {
            assert(entries.skip(1)[i] == entries[i + 1]);
        }
        lemma_no_summary(entries.skip(1), id);
    }
}

proof fn lemma_fresh_not_compacted(s: SessionView, id: Seq<char>)
    requires
        is_fresh(s, id),
    ensures
        !is_compacted(s.entries, id),
{
    if is_compacted(s.entries, id) {
        let k = choose|k: int|
            0 <= k < s.entries.len() && (#[trigger] s.entries[k]).kind is Compaction && covered(
                s.entries,
                s.entries[k],
            ).contains(id);
        let c = s.entries[k];
        let kept = entry_with_id(s.entries, c.kind->first_kept_entry_id)->0;
        let walk = chain(s.entries, kept.parent_id->0, Some(c.id), Set::empty());
        lemma_chain_members(s.entries, kept.parent_id->0, Some(c.id), Set::empty());
        let i = choose|i: int| 0 <= i < walk.len() && walk[i] == id;
        lemma_entry_with_id(s.entries, id);
        assert(entry_with_id(s.entries, walk[i]) is Some);
        let e = entry_with_id(s.entries, id)->0;
        let j = choose|j: int| 0 <= j < s.entries.len() && s.entries[j] == e;
        assert(s.entries[j].id == id);
    }
}


// ---------------------------------------------------------------------------
// Compaction
// ---------------------------------------------------------------------------

/// Along a walk, each entry is below the next one.
proof fn lemma_chain_links(
    entries: Seq<EntryView>,
    id: Seq<char>,
    stop: Option<Seq<char>>,
    seen: Set<Seq<char>>,
)
    ensures
        forall|i: int|
            0 <= i < chain(entries, id, stop, seen).len() - 1 ==> entry_with_id(
                entries,
                #[trigger] chain(entries, id, stop, seen)[i],
            )->0.parent_id == Some(chain(entries, id, stop, seen)[i + 1]),
    decreases entry_ids(entries).difference(seen).len(),
{
    let whole = chain(entries, id, stop, seen);
    if stop != Some(id) && !seen.contains(id) && entry_with_id(entries, id) is Some {
        let e = entry_with_id(entries, id)->0;
        lemma_unseen_shrinks(entries, id, seen);
        if e.parent_id is Some {
            let rest = chain(entries, e.parent_id->0, stop, seen.insert(id));
            lemma_chain_links(entries, e.parent_id->0, stop, seen.insert(id));
            lemma_chain_members(entries, e.parent_id->0, stop, seen.insert(id));
            assert(whole =~= seq![id] + rest);
            assert forall|i: int| 0 <= i < whole.len() - 1 implies entry_with_id(
                entries,
                #[trigger] whole[i],
            )->0.parent_id == Some(whole[i + 1]) by {
                if i > 0 {
                    assert(whole[i] == rest[i - 1]);
                    assert(whole[i + 1] == rest[i]);
                } else {
                    assert(whole[1] == rest[0]);
                }
            }
        }
    }
}

/// An entry whose parent ends a walk: it has none, or no entry has its ID.
pub open spec fn ends_walk(entries: Seq<EntryView>, id: Seq<char>) -> bool {
    match entry_with_id(entries, id) {
        Some(e) => match e.parent_id {
            None => true,
            Some(parent) => entry_with_id(entries, parent) is None,
        },
        None => true,
    }
}

/// A walk that starts within another one goes the same way.
proof fn lemma_walk_again(
    entries: Seq<EntryView>,
    walk: Seq<Seq<char>>,
    i: int,
    stop: Seq<char>,
    seen: Set<Seq<char>>,
)
    requires
        0 <= i < walk.len(),
        walk.no_duplicates(),
        ends_walk(entries, walk.last()),
        forall|j: int|
            0 <= j < walk.len() ==> entry_with_id(entries, #[trigger] walk[j]) is Some && walk[j]
                != stop,
        forall|j: int| i <= j < walk.len() ==> !seen.contains(#[trigger] walk[j]),
        forall|j: int|
            0 <= j < walk.len() - 1 ==> entry_with_id(entries, #[trigger] walk[j])->0.parent_id
                == Some(walk[j + 1]),
    ensures
        chain(entries, walk[i], Some(stop), seen) == walk.skip(i),
    decreases walk.len() - i,
{
    let e = entry_with_id(entries, walk[i])->0;
    if i + 1 < walk.len() {
        assert(e.parent_id == Some(walk[i + 1]));
        assert forall|j: int| i + 1 <= j < walk.len() implies !seen.insert(walk[i]).contains(
            #[trigger] walk[j],
        ) by {
            assert(walk[i] != walk[j]);
        }
        lemma_walk_again(entries, walk, i + 1, stop, seen.insert(walk[i]));
        assert(seq![walk[i]] + walk.skip(i + 1) =~= walk.skip(i));
    } else {
        assert(walk.last() == walk[i]);
        if e.parent_id is Some {
            assert(chain(entries, e.parent_id->0, Some(stop), seen.insert(walk[i])) =~= seq![]);
        }
        assert(walk.skip(i) =~= seq![walk[i]]);
        assert(chain(entries, walk[i], Some(stop), seen) =~= seq![walk[i]]);
    }
}

proof fn lemma_context_append(
    entries: Seq<EntryView>,
    front: Seq<Seq<char>>,
    back: Seq<Seq<char>>,
)
    ensures
        context_along(entries, front + back) == context_along(entries, front) + context_along(
            entries,
            back,
        ),
    decreases back.len(),
{
    if back.len() == 0 {
        assert(front + back =~= front);
        assert(context_along(entries, front) + context_along(entries, back) =~= context_along(
            entries,
            front,
        ));
    } else {
        lemma_context_append(entries, front, back.drop_last());
        assert((front + back).drop_last() =~= front + back.drop_last());
        assert((front + back).last() == back.last());
        assert(context_along(entries, front + back) =~= context_along(entries, front)
            + context_along(entries, back));
    }
}

/// Where every message of a context has an entry, no summary stands in it.
proof fn lemma_no_summaries(entries: Seq<EntryView>, path: Seq<Seq<char>>)
    requires
        forall|j: int|
            0 <= j < context_along(entries, path).len() ==> (#[trigger] context_along(
                entries,
                path,
            )[j]).entry_id is Some,
    ensures
        forall|j: int| 0 <= j < path.len() ==> summary_before(entries, #[trigger] path[j]) is None,
    decreases path.len(),
{
    if path.len() > 0 {
        let front = context_along(entries, path.drop_last());
        let back = context_at(entries, path.last());
        let whole = context_along(entries, path);
        assert(whole =~= front + back);
        assert forall|j: int| 0 <= j < front.len() implies (#[trigger] front[j]).entry_id is Some by {
            assert(whole[j] == front[j]);
        }
        lemma_no_summaries(entries, path.drop_last());
        if summary_before(entries, path.last()) is Some {
            assert(back[0].entry_id is None);
            assert(whole[front.len() as int] == back[0]);
        }
        assert forall|j: int| 0 <= j < path.len() implies summary_before(
            entries,
            #[trigger] path[j],
        ) is None by {
            if j < path.len() - 1 {
                assert(path.drop_last()[j] == path[j]);
            }
        }
    }
}

/// The place on the path of the entry behind a message of the context.
proof fn lemma_place_on_path(entries: Seq<EntryView>, path: Seq<Seq<char>>, n: int) -> (k: int)
    requires
        0 <= n < context_along(entries, path).len(),
        forall|j: int|
            0 <= j <= n ==> (#[trigger] context_along(entries, path)[j]).entry_id is Some,
    ensures
        0 <= k < path.len(),
        context_along(entries, path)[n].entry_id == Some(path[k]),
        context_along(entries, path.take(k)).len() == n,
        forall|j: int| 0 <= j <= k ==> summary_before(entries, #[trigger] path[j]) is None,
        !is_compacted(entries, path[k]),
    decreases path.len(),
{
    let front = context_along(entries, path.drop_last());
    let back = context_at(entries, path.last());
    let whole = context_along(entries, path);
    assert(whole =~= front + back);
    if n < front.len() {
        assert forall|j: int| 0 <= j <= n implies (#[trigger] front[j]).entry_id is Some by {
            assert(whole[j] == front[j]);
        }
        let k = lemma_place_on_path(entries, path.drop_last(), n);
        assert(path.drop_last().take(k) =~= path.take(k));
        assert forall|j: int| 0 <= j <= k implies summary_before(
            entries,
            #[trigger] path[j],
        ) is None by {
            assert(path.drop_last()[j] == path[j]);
        }
        assert(path.drop_last()[k] == path[k]);
        k
    } else {
        let k = path.len() - 1;
        assert forall|j: int| 0 <= j < front.len() implies (#[trigger] front[j]).entry_id is Some by {
            assert(whole[j] == front[j]);
        }
        lemma_no_summaries(entries, path.drop_last());
        assert(whole[front.len() as int] == back[0]);
        assert(summary_before(entries, path.last()) is None);
        assert(path.take(k) =~= path.drop_last());
        assert forall|j: int| 0 <= j <= k implies summary_before(
            entries,
            #[trigger] path[j],
        ) is None by {
            if j < k {
                assert(path.drop_last()[j] == path[j]);
            }
        }
        k
    }
}

/// What a compaction covers of a session whose path reaches its root: the
/// entries of the path above the first kept one.
proof fn lemma_new_coverage(
    s: SessionView,
    kind: EntryKind,
    k: int,
    entry_id: Seq<char>,
    leaf_id: Seq<char>,
)
    requires
        are_fresh(s, entry_id, leaf_id),
        0 <= k < session_path_ids(s).len(),
        ends_walk(s.entries, session_path_ids(s)[0]),
        kind is Compaction,
        kind->first_kept_entry_id == session_path_ids(s)[k],
    ensures
        forall|j: int|
            0 <= j < session_path_ids(s).len() ==> covered(
                extended(s, kind, entry_id, leaf_id),
                EntryView { id: entry_id, parent_id: Some(current_entry(s)), kind },
            ).contains(#[trigger] session_path_ids(s)[j]) == (j < k),
{
    let path = session_path_ids(s);
    let walk = chain(s.entries, current_entry(s), None, Set::empty());
    let n = walk.len() as int;
    let i = n - 1 - k;
    lemma_chain_members(s.entries, current_entry(s), None, Set::empty());
    lemma_chain_links(s.entries, current_entry(s), None, Set::empty());
    assert forall|j: int| 0 <= j < n implies path[j] == walk[n - 1 - j] by {}
    let first_kept = path[k];
    assert(first_kept == walk[i]);
    assert(walk.last() == path[0]);
    assert forall|j: int| 0 <= j < n implies entry_with_id(s.entries, #[trigger] walk[j]) is Some
        && walk[j] != entry_id && walk[j] != leaf_id by {
        lemma_entry_with_id(s.entries, walk[j]);
        let e = entry_with_id(s.entries, walk[j])->0;
        let m = choose|m: int| 0 <= m < s.entries.len() && s.entries[m] == e;
        assert(s.entries[m].id == walk[j]);
    }
    lemma_extended_lookup(s, kind, entry_id, leaf_id, first_kept);
    lemma_entry_with_id(s.entries, first_kept);
    let kept = entry_with_id(s.entries, first_kept)->0;
    let compaction = EntryView { id: entry_id, parent_id: Some(current_entry(s)), kind };
    let after = extended(s, kind, entry_id, leaf_id);
    if kept.parent_id is Some {
        let m = choose|m: int| 0 <= m < s.entries.len() && s.entries[m] == kept;
        assert(s.entries[m].parent_id != Some(entry_id));
        assert(s.entries[m].parent_id != Some(leaf_id));
        lemma_extended_chain(
            s,
            kind,
            entry_id,
            leaf_id,
            kept.parent_id->0,
            Some(entry_id),
            Set::empty(),
            Set::empty(),
        );
    }
    if i + 1 < n {
        assert(entry_with_id(s.entries, walk[i])->0.parent_id == Some(walk[i + 1]));
        lemma_walk_again(s.entries, walk, i + 1, entry_id, Set::empty());
        assert(covered(after, compaction) == walk.skip(i + 1));
    } else {
        assert(walk[i] == walk.last());
        assert(covered(after, compaction) =~= walk.skip(i + 1));
    }
    let above = walk.skip(i + 1);
    assert forall|j: int| 0 <= j < path.len() implies above.contains(#[trigger] path[j]) == (j
        < k) by {
        if j < k {
            assert(above[k - 1 - j] == walk[n - 1 - j]);
        } else if above.contains(path[j]) {
            let m = choose|m: int| 0 <= m < above.len() && above[m] == path[j];
            assert(walk[i + 1 + m] == walk[n - 1 - j]);
        }
    }
}

/// Compacting a session gives the context that compacting the messages in
/// memory gives: the summary, then the messages from the first kept one on.
///
/// The session's path reaches its root, and no summary of an earlier compaction
/// stands at or before the first kept message: a session keeps such a summary,
/// where the messages in memory lose it.
pub proof fn law_session_compaction_matches_memory(
    s: SessionView,
    summary: Seq<char>,
    n: int,
    tokens_before: u32,
    entry_id: Seq<char>,
    leaf_id: Seq<char>,
)
    requires
        are_fresh(s, entry_id, leaf_id),
        session_path_ids(s).len() > 0 ==> ends_walk(s.entries, session_path_ids(s)[0]),
        0 <= n < session_context(s).len(),
        forall|j: int| 0 <= j <= n ==> (#[trigger] session_context(s)[j]).entry_id is Some,
    ensures
        context_messages(
            session_context(
                with_compaction(
                    s,
                    summary,
                    session_context(s)[n].entry_id->0,
                    tokens_before,
                    entry_id,
                    leaf_id,
                ),
            ),
        ) == compacted_messages(context_messages(session_context(s)), summary, n),
{
    let path = session_path_ids(s);
    let k = lemma_place_on_path(s.entries, path, n);
    let first_kept = path[k];
    let kind = EntryKind::Compaction { summary, first_kept_entry_id: first_kept, tokens_before };
    let t = with_compaction(s, summary, first_kept, tokens_before, entry_id, leaf_id);
    let e = EntryView { id: entry_id, parent_id: Some(current_entry(s)), kind };
    let leaf = EntryView {
        id: leaf_id,
        parent_id: Some(s.leaf_id),
        kind: EntryKind::Leaf { target_id: entry_id },
    };
    lemma_extended_path(s, kind, entry_id, leaf_id);
    lemma_path_members(s);
    lemma_new_coverage(s, kind, k, entry_id, leaf_id);

    let front = path.take(k);
    let back = path.skip(k);
    assert(path =~= front + back);
    assert(path.push(entry_id) =~= front + back + seq![entry_id]);
    lemma_context_append(s.entries, front, back);
    lemma_context_append(t.entries, front, back);
    lemma_context_append(t.entries, front + back, seq![entry_id]);

    assert forall|j: int| 0 <= j < path.len() implies context_at(t.entries, #[trigger] path[j]) == (
    if j < k {
        seq![]
    } else if j == k {
        seq![ContextView { message: summary_message(summary), entry_id: None }] + context_at(
            s.entries,
            path[j],
        )
    } else {
        context_at(s.entries, path[j])
    }) by {
        let id = path[j];
        lemma_entry_with_id(s.entries, id);
        lemma_extended_lookup(s, kind, entry_id, leaf_id, id);
        lemma_extended_compacted(s, kind, entry_id, leaf_id, id);
        lemma_summary_push(s.entries, e, id);
        lemma_summary_push(s.entries.push(e), leaf, id);
        let found = entry_with_id(s.entries, id)->0;
        let m = choose|m: int| 0 <= m < s.entries.len() && s.entries[m] == found;
        assert(s.entries[m].id == id);
        if j < k {
            assert(summary_before(s.entries, id) is None);
            assert(path[j] != path[k]);
            assert(context_at(t.entries, id) =~= seq![]);
        } else if j == k {
            assert(context_at(t.entries, id) =~= seq![
                ContextView { message: summary_message(summary), entry_id: None },
            ] + context_at(s.entries, id));
        } else {
            assert(path[j] != path[k]);
        }
    }
    lemma_context_empty(t.entries, front);
    lemma_context_head(s.entries, t.entries, back, summary);

    // The compaction entry itself gives nothing to the context.
    lemma_no_summary(s.entries, entry_id);
    lemma_summary_push(s.entries, e, entry_id);
    lemma_summary_push(s.entries.push(e), leaf, entry_id);
    lemma_extended_lookup(s, kind, entry_id, leaf_id, entry_id);
    let kept_entry = entry_with_id(s.entries, first_kept)->0;
    lemma_entry_with_id(s.entries, first_kept);
    let m = choose|m: int| 0 <= m < s.entries.len() && s.entries[m] == kept_entry;
    assert(s.entries[m].id == first_kept);
    assert(context_at(t.entries, entry_id) =~= seq![]);
    assert(seq![entry_id].drop_last() =~= seq![]);
    assert(context_along(t.entries, seq![entry_id].drop_last()) =~= seq![]);
    assert(context_along(t.entries, seq![entry_id]) =~= seq![]);

    let kept = context_along(s.entries, back);
    assert(session_context(t) =~= seq![
        ContextView { message: summary_message(summary), entry_id: None },
    ] + kept);
    assert(session_context(s) =~= context_along(s.entries, front) + kept);
    assert(context_messages(session_context(t)) =~= compacted_messages(
        context_messages(session_context(s)),
        summary,
        n,
    ));
}

proof fn lemma_context_empty(entries: Seq<EntryView>, path: Seq<Seq<char>>)
    requires
        forall|j: int|
            0 <= j < path.len() ==> context_at(entries, #[trigger] path[j]) == Seq::<
                ContextView,
            >::empty(),
    ensures
        context_along(entries, path) == Seq::<ContextView>::empty(),
    decreases path.len(),
{
    if path.len() > 0 {
        assert forall|j: int| 0 <= j < path.drop_last().len() implies context_at(
            entries,
            #[trigger] path.drop_last()[j],
        ) == Seq::<ContextView>::empty() by {
            assert(path.drop_last()[j] == path[j]);
        }
        lemma_context_empty(entries, path.drop_last());
        assert(path.last() == path[path.len() - 1]);
        assert(context_along(entries, path) =~= Seq::<ContextView>::empty());
    }
}

proof fn lemma_context_head(
    before: Seq<EntryView>,
    after: Seq<EntryView>,
    path: Seq<Seq<char>>,
    summary: Seq<char>,
)
    requires
        path.len() > 0,
        context_at(after, path[0]) == seq![
            ContextView { message: summary_message(summary), entry_id: None },
        ] + context_at(before, path[0]),
        forall|j: int|
            0 < j < path.len() ==> context_at(after, #[trigger] path[j]) == context_at(
                before,
                path[j],
            ),
    ensures
        context_along(after, path) == seq![
            ContextView { message: summary_message(summary), entry_id: None },
        ] + context_along(before, path),
    decreases path.len(),
{
    let head = seq![ContextView { message: summary_message(summary), entry_id: None }];
    if path.len() == 1 {
        assert(path.drop_last() =~= seq![]);
        assert(context_along(after, path.drop_last()) =~= seq![]);
        assert(context_along(before, path.drop_last()) =~= seq![]);
        assert(context_along(after, path) =~= head + context_along(before, path));
    } else {
        let front = path.drop_last();
        assert(front[0] == path[0]);
        assert forall|j: int| 0 < j < front.len() implies context_at(after, #[trigger] front[j])
            == context_at(before, front[j]) by {
            assert(front[j] == path[j]);
        }
        lemma_context_head(before, after, front, summary);
        assert(path.last() == path[path.len() - 1]);
        assert(context_along(after, path) =~= head + context_along(before, path));
    }
}

// ---------------------------------------------------------------------------
// Sessions that are built by appending
// ---------------------------------------------------------------------------

/// A session whose path starts at a root.
pub open spec fn is_rooted(s: SessionView) -> bool {
    &&& session_path_ids(s).len() > 0
    &&& ends_walk(s.entries, session_path_ids(s)[0])
}

/// A new session is rooted in its meta entry, and its context is empty.
pub proof fn law_new_session_rooted(
    model: Seq<char>,
    meta_id: Seq<char>,
    leaf_id: Seq<char>,
    created_at: Timestamp,
)
    requires
        meta_id != leaf_id,
    ensures
        is_rooted(new_session(model, meta_id, leaf_id, created_at)),
        session_context(new_session(model, meta_id, leaf_id, created_at)) == Seq::<
            ContextView,
        >::empty(),
{
    let s = new_session(model, meta_id, leaf_id, created_at);
    let rest = s.entries.skip(1);
    assert(rest[0] == s.entries[1]);
    assert(leaf_target(rest, leaf_id) == Some(meta_id));
    assert(current_entry(s) == meta_id);
    let front = s.entries.drop_last();
    assert(front.last() == s.entries[0]);
    assert(entry_with_id(front, meta_id) == Some(s.entries[0]));
    assert(entry_with_id(s.entries, meta_id) == Some(s.entries[0]));
    let walk = chain(s.entries, meta_id, None, Set::empty());
    assert(walk == seq![meta_id]);
    assert(walk.reverse() =~= seq![meta_id]);
    lemma_summary_absent(s.entries, meta_id);
    assert(context_at(s.entries, meta_id) =~= seq![]);
    assert(seq![meta_id].drop_last() =~= seq![]);
    assert(context_along(s.entries, seq![meta_id].drop_last()) =~= seq![]);
    assert(session_context(s) =~= Seq::<ContextView>::empty());
}

/// Where there is no compaction, no summary stands before any entry.
proof fn lemma_summary_absent(entries: Seq<EntryView>, id: Seq<char>)
    requires
        forall|i: int| 0 <= i < entries.len() ==> !((#[trigger] entries[i]).kind is Compaction),
    ensures
        summary_before(entries, id) is None,
    decreases entries.len(),
{
    if entries.len() > 0 {
        let rest = entries.skip(1);
        assert forall|i: int| 0 <= i < rest.len() implies !((
        #[trigger] rest[i]).kind is Compaction) by {
            assert(rest[i] == entries[i + 1]);
        }
        lemma_summary_absent(rest, id);
    }
}

/// Appending a message or a compaction under new IDs keeps a session rooted.
pub proof fn law_appending_keeps_rooted(
    s: SessionView,
    kind: EntryKind,
    entry_id: Seq<char>,
    leaf_id: Seq<char>,
)
    requires
        is_rooted(s),
        are_fresh(s, entry_id, leaf_id),
    ensures
        is_rooted(with_entry(s, kind, entry_id, leaf_id)),
{
    let t = with_entry(s, kind, entry_id, leaf_id);
    let path = session_path_ids(s);
    lemma_extended_path(s, kind, entry_id, leaf_id);
    lemma_path_members(s);
    let root = path[0];
    assert(session_path_ids(t)[0] == root);
    lemma_entry_with_id(s.entries, root);
    let e = entry_with_id(s.entries, root)->0;
    let m = choose|m: int| 0 <= m < s.entries.len() && s.entries[m] == e;
    assert(s.entries[m].id == root);
    lemma_extended_lookup(s, kind, entry_id, leaf_id, root);
    if let Some(parent) = e.parent_id {
        assert(s.entries[m].parent_id == Some(parent));
        lemma_extended_lookup(s, kind, entry_id, leaf_id, parent);
    }
}

/// Every ID that stands anywhere in a session is one of some IDs.
pub open spec fn uses_only(s: SessionView, used: Seq<Seq<char>>) -> bool {
    &&& used.contains(current_entry(s))
    &&& used.contains(s.leaf_id)
    &&& forall|i: int|
        0 <= i < s.entries.len() ==> {
            &&& used.contains((#[trigger] s.entries[i]).id)
            &&& s.entries[i].parent_id matches Some(parent) ==> used.contains(parent)
            &&& s.entries[i].kind is Compaction ==> used.contains(
                s.entries[i].kind->first_kept_entry_id,
            )
        }
}

proof fn lemma_unused_is_fresh(s: SessionView, used: Seq<Seq<char>>, id: Seq<char>)
    requires
        uses_only(s, used),
        !used.contains(id),
    ensures
        is_fresh(s, id),
{
}

proof fn lemma_appended_uses(
    s: SessionView,
    kind: EntryKind,
    entry_id: Seq<char>,
    leaf_id: Seq<char>,
    used: Seq<Seq<char>>,
)
    requires
        uses_only(s, used),
        are_fresh(s, entry_id, leaf_id),
        kind is Compaction ==> used.contains(kind->first_kept_entry_id),
    ensures
        uses_only(with_entry(s, kind, entry_id, leaf_id), used.push(entry_id).push(leaf_id)),
{
    let t = with_entry(s, kind, entry_id, leaf_id);
    let more = used.push(entry_id).push(leaf_id);
    lemma_extended_path(s, kind, entry_id, leaf_id);
    assert forall|id: Seq<char>| #[trigger] used.contains(id) implies more.contains(id) by {
        let i = choose|i: int| 0 <= i < used.len() && used[i] == id;
        assert(more[i] == id);
    }
    assert(more[used.len() as int] == entry_id);
    assert(more[used.len() as int + 1] == leaf_id);
    let n = s.entries.len() as int;
    assert forall|i: int| 0 <= i < t.entries.len() implies {
        &&& more.contains((#[trigger] t.entries[i]).id)
        &&& t.entries[i].parent_id matches Some(parent) ==> more.contains(parent)
        &&& t.entries[i].kind is Compaction ==> more.contains(t.entries[i].kind->first_kept_entry_id)
    } by {
        if i < n {
            assert(t.entries[i] == s.entries[i]);
        }
    }
}

/// The IDs of entries and leaves, one after the other.
pub open spec fn id_list(ids: Seq<(Seq<char>, Seq<char>)>) -> Seq<Seq<char>>
    decreases ids.len(),
{
    if ids.len() == 0 {
        seq![]
    } else {
        id_list(ids.drop_last()).push(ids.last().0).push(ids.last().1)
    }
}

/// No ID of a session that starts with two IDs and goes on with others stands twice.
pub open spec fn are_distinct(
    meta_id: Seq<char>,
    leaf_id: Seq<char>,
    ids: Seq<(Seq<char>, Seq<char>)>,
) -> bool {
    (seq![meta_id, leaf_id] + id_list(ids)).no_duplicates()
}

proof fn lemma_distinct_front(
    meta_id: Seq<char>,
    leaf_id: Seq<char>,
    ids: Seq<(Seq<char>, Seq<char>)>,
)
    requires
        ids.len() > 0,
        are_distinct(meta_id, leaf_id, ids),
    ensures
        are_distinct(meta_id, leaf_id, ids.drop_last()),
        !(seq![meta_id, leaf_id] + id_list(ids.drop_last())).contains(ids.last().0),
        !(seq![meta_id, leaf_id] + id_list(ids.drop_last())).contains(ids.last().1),
        ids.last().0 != ids.last().1,
{
    let all = seq![meta_id, leaf_id] + id_list(ids);
    let front = seq![meta_id, leaf_id] + id_list(ids.drop_last());
    let n = front.len() as int;
    assert(all =~= front.push(ids.last().0).push(ids.last().1));
    assert forall|i: int| 0 <= i < n implies front[i] == #[trigger] all[i] by {}
    assert forall|i: int, j: int| 0 <= i < n && 0 <= j < n && i != j implies front[i] != front[j] by {
        assert(all[i] != all[j]);
    }
    assert(all[n] == ids.last().0 && all[n + 1] == ids.last().1);
    if front.contains(ids.last().0) {
        let i = choose|i: int| 0 <= i < n && front[i] == ids.last().0;
        assert(all[i] != all[n]);
    }
    if front.contains(ids.last().1) {
        let i = choose|i: int| 0 <= i < n && front[i] == ids.last().1;
        assert(all[i] != all[n + 1]);
    }
}

/// What holds of a session that is built from messages under distinct IDs: it is
/// rooted, it holds no other IDs, and each ID was new when it was used.
pub proof fn law_built_session_is_rooted(
    model: Seq<char>,
    meta_id: Seq<char>,
    leaf_id: Seq<char>,
    created_at: Timestamp,
    messages: Seq<MessageView>,
    ids: Seq<(Seq<char>, Seq<char>)>,
)
    requires
        ids.len() == messages.len(),
        are_distinct(meta_id, leaf_id, ids),
    ensures
        ({
            let s = new_session(model, meta_id, leaf_id, created_at);
            &&& is_rooted(with_messages(s, messages, ids))
            &&& uses_only(
                with_messages(s, messages, ids),
                seq![meta_id, leaf_id] + id_list(ids),
            )
            &&& stay_fresh(s, messages, ids)
        }),
    decreases messages.len(),
{
    let s = new_session(model, meta_id, leaf_id, created_at);
    let used = seq![meta_id, leaf_id] + id_list(ids);
    if messages.len() == 0 {
        assert(used[0] == meta_id && used[1] == leaf_id);
        assert(meta_id != leaf_id);
        law_new_session_rooted(model, meta_id, leaf_id, created_at);
        let rest = s.entries.skip(1);
        assert(rest[0] == s.entries[1]);
        assert(leaf_target(rest, leaf_id) == Some(meta_id));
        assert(used.contains(meta_id) && used.contains(leaf_id));
    } else {
        let front = messages.drop_last();
        let front_ids = ids.drop_last();
        let n = messages.len() - 1;
        lemma_distinct_front(meta_id, leaf_id, ids);
        law_built_session_is_rooted(model, meta_id, leaf_id, created_at, front, front_ids);
        lemma_same_ids(s, front, front_ids, ids);
        let before = with_messages(s, front, ids);
        let used_before = seq![meta_id, leaf_id] + id_list(front_ids);
        let kind = EntryKind::Message { message: messages.last() };
        lemma_unused_is_fresh(before, used_before, ids[n].0);
        lemma_unused_is_fresh(before, used_before, ids[n].1);
        law_appending_keeps_rooted(before, kind, ids[n].0, ids[n].1);
        lemma_appended_uses(before, kind, ids[n].0, ids[n].1, used_before);
        assert(used =~= used_before.push(ids[n].0).push(ids[n].1));
        assert forall|i: int| 0 <= i < messages.len() implies are_fresh(
            with_messages(s, #[trigger] messages.take(i), ids),
            ids[i].0,
            ids[i].1,
        ) by {
            assert(messages.take(i) =~= front.take(i));
            if i < n {
                lemma_same_ids(s, front.take(i), front_ids, ids);
                assert(are_fresh(
                    with_messages(s, front.take(i), front_ids),
                    front_ids[i].0,
                    front_ids[i].1,
                ));
            } else {
                assert(front.take(i) =~= front);
            }
        }
    }
}

/// Only the IDs for the messages that there are count.
proof fn lemma_same_ids(
    s: SessionView,
    messages: Seq<MessageView>,
    a: Seq<(Seq<char>, Seq<char>)>,
    b: Seq<(Seq<char>, Seq<char>)>,
)
    requires
        messages.len() <= a.len() <= b.len(),
        forall|i: int| 0 <= i < a.len() ==> a[i] == b[i],
    ensures
        with_messages(s, messages, a) == with_messages(s, messages, b),
    decreases messages.len(),
{
    if messages.len() > 0 {
        lemma_same_ids(s, messages.drop_last(), a, b);
    }
}

/// A session that was built from messages and then compacted agrees with the same
/// messages compacted in memory, whichever message is the first that is kept.
pub proof fn law_built_session_compaction_matches_memory(
    model: Seq<char>,
    meta_id: Seq<char>,
    leaf_id: Seq<char>,
    created_at: Timestamp,
    messages: Seq<MessageView>,
    ids: Seq<(Seq<char>, Seq<char>)>,
    k: int,
    summary: Seq<char>,
    tokens_before: u32,
    compaction_ids: (Seq<char>, Seq<char>),
)
    requires
        ids.len() == messages.len(),
        0 <= k < messages.len(),
        are_distinct(meta_id, leaf_id, ids.push(compaction_ids)),
    ensures
        ({
            let s = with_messages(
                new_session(model, meta_id, leaf_id, created_at),
                messages,
                ids,
            );
            let t = with_compaction(
                s,
                summary,
                ids[k].0,
                tokens_before,
                compaction_ids.0,
                compaction_ids.1,
            );
            &&& context_messages(session_context(s)) == messages
            &&& context_messages(session_context(t)) == compacted_messages(messages, summary, k)
        }),
{
    let fresh = new_session(model, meta_id, leaf_id, created_at);
    let s = with_messages(fresh, messages, ids);
    let all_ids = ids.push(compaction_ids);
    lemma_distinct_front(meta_id, leaf_id, all_ids);
    assert(all_ids.drop_last() =~= ids);
    let used = seq![meta_id, leaf_id] + id_list(ids);
    assert(used[0] == meta_id && used[1] == leaf_id);
    assert(meta_id != leaf_id);
    law_built_session_is_rooted(model, meta_id, leaf_id, created_at, messages, ids);
    lemma_unused_is_fresh(s, used, compaction_ids.0);
    lemma_unused_is_fresh(s, used, compaction_ids.1);
    law_new_session_rooted(model, meta_id, leaf_id, created_at);
    law_turn_extends_session(fresh, messages, ids);
    assert(session_context(s) =~= with_ids(messages, ids));
    assert(session_context(s)[k].entry_id == Some(ids[k].0));
    assert(context_messages(session_context(s)) =~= messages);
    law_session_compaction_matches_memory(
        s,
        summary,
        k,
        tokens_before,
        compaction_ids.0,
        compaction_ids.1,
    );
}

// ---------------------------------------------------------------------------
// Saving and loading
// ---------------------------------------------------------------------------

/// A session whose own fields are those that its entries give: its first meta
/// entry has its ID, time and model, and its last leaf is its current one.
pub open spec fn is_consistent(s: SessionView) -> bool {
    &&& first_meta(s.entries) matches Some(meta)
    &&& meta.kind is Meta
    &&& meta.kind->session_id == s.session_id
    &&& meta.kind->created_at == s.created_at
    &&& meta.kind->model == s.model
    &&& last_leaf(s.entries) matches Some(leaf)
    &&& leaf.id == s.leaf_id
    &&& s.metadata.len() == 0
}

/// A new session is consistent.
pub proof fn law_new_session_consistent(
    model: Seq<char>,
    meta_id: Seq<char>,
    leaf_id: Seq<char>,
    created_at: Timestamp,
)
    ensures
        is_consistent(new_session(model, meta_id, leaf_id, created_at)),
{
    let s = new_session(model, meta_id, leaf_id, created_at);
    assert(s.entries[0].kind is Meta);
    assert(s.entries.last().kind is Leaf);
}

proof fn lemma_first_meta_push(entries: Seq<EntryView>, e: EntryView)
    requires
        first_meta(entries) is Some,
    ensures
        first_meta(entries.push(e)) == first_meta(entries),
    decreases entries.len(),
{
    assert(entries.push(e)[0] == entries[0]);
    if !(entries[0].kind is Meta) {
        assert(entries.push(e).skip(1) =~= entries.skip(1).push(e));
        lemma_first_meta_push(entries.skip(1), e);
    }
}

/// Appending a message or a compaction keeps a session consistent.
pub proof fn law_appending_keeps_consistent(
    s: SessionView,
    kind: EntryKind,
    entry_id: Seq<char>,
    leaf_id: Seq<char>,
)
    requires
        is_consistent(s),
    ensures
        is_consistent(with_entry(s, kind, entry_id, leaf_id)),
{
    let t = with_entry(s, kind, entry_id, leaf_id);
    let e = EntryView { id: entry_id, parent_id: Some(current_entry(s)), kind };
    lemma_first_meta_push(s.entries, e);
    lemma_first_meta_push(s.entries.push(e), t.entries.last());
    assert(t.entries.last().kind is Leaf);
}

/// The lines of a file that holds the entries of a session.
pub open spec fn saved_lines(s: SessionView) -> Seq<LineView> {
    s.entries.map_values(|e: EntryView| LineView::Entry(e))
}

proof fn lemma_saved_entries(session_id: Seq<char>, entries: Seq<EntryView>)
    ensures
        line_entries(session_id, entries.map_values(|e: EntryView| LineView::Entry(e))) == Ok::<
            Seq<EntryView>,
            crate::error::ErrorView,
        >(entries),
    decreases entries.len(),
{
    let lines = entries.map_values(|e: EntryView| LineView::Entry(e));
    if entries.len() > 0 {
        lemma_saved_entries(session_id, entries.drop_last());
        assert(lines.drop_last() =~= entries.drop_last().map_values(
            |e: EntryView| LineView::Entry(e),
        ));
        assert(entries.drop_last().push(entries.last()) =~= entries);
    } else {
        assert(entries =~= seq![]);
    }
}

/// A consistent session that is saved is loaded back as it was.
pub proof fn law_saved_session_loads_back(
    s: SessionView,
    session_id: Seq<char>,
    leaf_id: Seq<char>,
)
    requires
        is_consistent(s),
    ensures
        loaded(session_id, saved_lines(s), leaf_id) == Ok::<SessionView, crate::error::ErrorView>(s),
{
    lemma_saved_entries(session_id, s.entries);
    assert(!needs_migration(saved_lines(s)));
    assert(s.metadata =~= seq![]);
}

// ---------------------------------------------------------------------------
// Files of the flat format
// ---------------------------------------------------------------------------

/// Entries of a file of the flat format: meta entries and messages, not linked up,
/// each with an ID of its own.
pub open spec fn are_flat(entries: Seq<EntryView>, leaf_id: Seq<char>) -> bool {
    &&& forall|i: int|
        0 <= i < entries.len() ==> {
            &&& (#[trigger] entries[i]).kind is Meta || entries[i].kind is Message
            &&& entries[i].parent_id is None
            &&& entries[i].id != leaf_id
        }
    &&& forall|i: int, j: int|
        0 <= i < j < entries.len() ==> (#[trigger] entries[i]).id != (#[trigger] entries[j]).id
}

/// The messages among entries, in order, under their IDs.
pub open spec fn messages_among(entries: Seq<EntryView>) -> Seq<ContextView>
    decreases entries.len(),
{
    if entries.len() == 0 {
        seq![]
    } else {
        let front = messages_among(entries.drop_last());
        match entries.last().kind {
            EntryKind::Message { message } => front.push(
                ContextView { message, entry_id: Some(entries.last().id) },
            ),
            _ => front,
        }
    }
}

proof fn lemma_relinked_at(entries: Seq<EntryView>, root: Option<Seq<char>>, i: int)
    requires
        0 <= i < entries.len(),
    ensures
        relinked(entries, root).len() == entries.len(),
        relinked(entries, root)[i] == if entries[i].kind is Message {
            EntryView {
                parent_id: match last_message(entries.take(i)) {
                    Some(m) => Some(m.id),
                    None => root,
                },
                ..entries[i]
            }
        } else {
            entries[i]
        },
    decreases entries.len(),
{
    let front = entries.drop_last();
    if front.len() > 0 {
        lemma_relinked_at(
            front,
            root,
            if i < front.len() {
                i
            } else {
                0
            },
        );
    } else {
        assert(relinked(front, root) =~= seq![]);
    }
    if i < front.len() {
        assert(front.take(i) =~= entries.take(i));
        assert(front[i] == entries[i]);
    } else {
        assert(front =~= entries.take(i));
    }
}

proof fn lemma_first_meta_same(a: Seq<EntryView>, b: Seq<EntryView>)
    requires
        a.len() <= b.len(),
        first_meta(a) is Some,
        forall|i: int|
            0 <= i < a.len() ==> (#[trigger] a[i]).kind is Meta == b[i].kind is Meta,
        forall|i: int| 0 <= i < a.len() && (#[trigger] a[i]).kind is Meta ==> b[i] == a[i],
    ensures
        first_meta(b) == first_meta(a),
    decreases a.len(),
{
    if !(a[0].kind is Meta) {
        assert forall|i: int| 0 <= i < a.skip(1).len() implies (#[trigger] a.skip(
            1,
        )[i]).kind is Meta == b.skip(1)[i].kind is Meta && (a.skip(1)[i].kind is Meta ==> b.skip(
            1,
        )[i] == a.skip(1)[i]) by {
            assert(a.skip(1)[i] == a[i + 1] && b.skip(1)[i] == b[i + 1]);
        }
        lemma_first_meta_same(a.skip(1), b.skip(1));
    }
}

proof fn lemma_first_meta_is_there(entries: Seq<EntryView>) -> (k: int)
    requires
        first_meta(entries) is Some,
    ensures
        0 <= k < entries.len(),
        entries[k].kind is Meta,
        first_meta(entries) == Some(entries[k]),
    decreases entries.len(),
{
    if entries[0].kind is Meta {
        0
    } else {
        let k = lemma_first_meta_is_there(entries.skip(1));
        assert(entries.skip(1)[k] == entries[k + 1]);
        k + 1
    }
}

proof fn lemma_last_message_is_there(entries: Seq<EntryView>) -> (k: int)
    requires
        last_message(entries) is Some,
    ensures
        0 <= k < entries.len(),
        entries[k].kind is Message,
        last_message(entries) == Some(entries[k]),
    decreases entries.len(),
{
    if entries.last().kind is Message {
        entries.len() - 1
    } else {
        let k = lemma_last_message_is_there(entries.drop_last());
        assert(entries.drop_last()[k] == entries[k]);
        k
    }
}

/// An entry of a list in which no ID stands twice is the one with its ID.
proof fn lemma_found_at(entries: Seq<EntryView>, i: int)
    requires
        0 <= i < entries.len(),
        forall|j: int, k: int|
            0 <= j < k < entries.len() ==> (#[trigger] entries[j]).id != (
            #[trigger] entries[k]).id,
    ensures
        entry_with_id(entries, entries[i].id) == Some(entries[i]),
{
    lemma_entry_with_id(entries, entries[i].id);
    let e = entry_with_id(entries, entries[i].id);
    assert(e is Some);
    let k = choose|k: int| 0 <= k < entries.len() && entries[k] == e->0;
    assert(entries[k].id == entries[i].id);
}

/// The path to the last of the first messages of a file that was linked up: the
/// root, and then these messages.
spec fn flat_path(entries: Seq<EntryView>, root: Seq<char>) -> Seq<Seq<char>>
    decreases entries.len(),
{
    if entries.len() == 0 {
        seq![root]
    } else if entries.last().kind is Message {
        flat_path(entries.drop_last(), root).push(entries.last().id)
    } else {
        flat_path(entries.drop_last(), root)
    }
}

proof fn lemma_flat_path_end(entries: Seq<EntryView>, root: Seq<char>)
    ensures
        flat_path(entries, root).len() > 0,
        flat_path(entries, root).last() == match last_message(entries) {
            Some(m) => m.id,
            None => root,
        },
    decreases entries.len(),
{
    if entries.len() > 0 {
        lemma_flat_path_end(entries.drop_last(), root);
    }
}

proof fn lemma_flat_distinct(
    session_id: Seq<char>,
    entries: Seq<EntryView>,
    leaf_id: Seq<char>,
)
    requires
        are_flat(entries, leaf_id),
    ensures
        ({
            let all = migrated(session_id, entries, leaf_id);
            &&& all.len() == entries.len() + 1
            &&& forall|i: int|
                0 <= i < entries.len() ==> {
                    &&& (#[trigger] all[i]).id == entries[i].id
                    &&& all[i].kind == entries[i].kind
                }
            &&& forall|j: int, k: int|
                0 <= j < k < all.len() ==> (#[trigger] all[j]).id != (#[trigger] all[k]).id
            &&& forall|i: int| 0 <= i < all.len() ==> !((#[trigger] all[i]).kind is Compaction)
        }),
{
    let all = migrated(session_id, entries, leaf_id);
    let root = match first_meta(entries) {
        Some(m) => Some(m.id),
        None => None,
    };
    if entries.len() > 0 {
        lemma_relinked_at(entries, root, 0);
    }
    assert forall|i: int| 0 <= i < entries.len() implies (#[trigger] all[i]).id == entries[i].id
        && all[i].kind == entries[i].kind by {
        lemma_relinked_at(entries, root, i);
    }
    assert forall|j: int, k: int| 0 <= j < k < all.len() implies (#[trigger] all[j]).id != (
    #[trigger] all[k]).id by {
        assert(all[j].id == entries[j].id);
        if k < entries.len() {
            assert(all[k].id == entries[k].id);
        }
    }
    assert forall|i: int| 0 <= i < all.len() implies !((#[trigger] all[i]).kind is Compaction) by {
        if i < entries.len() {
            assert(all[i].kind == entries[i].kind);
        }
    }
}

/// The walk up from the last of the first messages takes their path.
proof fn lemma_flat_chain(
    session_id: Seq<char>,
    entries: Seq<EntryView>,
    leaf_id: Seq<char>,
    n: int,
    seen: Set<Seq<char>>,
)
    requires
        are_flat(entries, leaf_id),
        first_meta(entries) is Some,
        0 <= n <= entries.len(),
        !seen.contains(first_meta(entries)->0.id),
        forall|i: int| 0 <= i < n ==> !seen.contains((#[trigger] entries[i]).id),
    ensures
        ({
            let path = flat_path(entries.take(n), first_meta(entries)->0.id);
            chain(migrated(session_id, entries, leaf_id), path.last(), None, seen)
                == path.reverse()
        }),
    decreases n,
{
    let all = migrated(session_id, entries, leaf_id);
    let meta = first_meta(entries)->0;
    let root = meta.id;
    let path = flat_path(entries.take(n), root);
    lemma_flat_distinct(session_id, entries, leaf_id);
    lemma_flat_path_end(entries.take(n), root);
    if n == 0 {
        let k = lemma_first_meta_is_there(entries);
        lemma_relinked_at(entries, Some(root), k);
        lemma_found_at(all, k);
        assert(all[k] == entries[k]);
        assert(path =~= seq![root]);
        assert(path.reverse() =~= seq![root]);
        assert(chain(all, root, None, seen) =~= seq![root]);
    } else {
        let front = entries.take(n - 1);
        assert(entries.take(n).drop_last() =~= front);
        assert(entries.take(n).last() == entries[n - 1]);
        lemma_flat_path_end(front, root);
        if entries[n - 1].kind is Message {
            let id = entries[n - 1].id;
            let before = flat_path(front, root);
            lemma_relinked_at(entries, Some(root), n - 1);
            lemma_found_at(all, n - 1);
            assert(all[n - 1].parent_id == Some(before.last()));
            lemma_unseen_shrinks(all, id, seen);
            let k = lemma_first_meta_is_there(entries);
            assert(entries[k].id != id) by {
                if k < n - 1 {
                    assert(entries[k].id != entries[n - 1].id);
                } else if k > n - 1 {
                    assert(entries[n - 1].id != entries[k].id);
                }
            }
            assert forall|i: int| 0 <= i < n - 1 implies !seen.insert(id).contains(
                (#[trigger] entries[i]).id,
            ) by {
                assert(entries[i].id != entries[n - 1].id);
            }
            lemma_flat_chain(session_id, entries, leaf_id, n - 1, seen.insert(id));
            assert(path =~= before.push(id));
            assert(path.reverse() =~= seq![id] + before.reverse());
        } else {
            lemma_flat_chain(session_id, entries, leaf_id, n - 1, seen);
        }
    }
}

proof fn lemma_nothing_compacted(entries: Seq<EntryView>, id: Seq<char>)
    requires
        forall|i: int| 0 <= i < entries.len() ==> !((#[trigger] entries[i]).kind is Compaction),
    ensures
        summary_before(entries, id) is None,
        !is_compacted(entries, id),
    decreases entries.len(),
{
    if entries.len() > 0 {
        assert forall|i: int| 0 <= i < entries.skip(1).len() implies !((#[trigger] entries.skip(
            1,
        )[i]).kind is Compaction) by {
            assert(entries.skip(1)[i] == entries[i + 1]);
        }
        lemma_nothing_compacted(entries.skip(1), id);
    }
}

proof fn lemma_flat_context(
    session_id: Seq<char>,
    entries: Seq<EntryView>,
    leaf_id: Seq<char>,
    n: int,
)
    requires
        are_flat(entries, leaf_id),
        first_meta(entries) is Some,
        0 <= n <= entries.len(),
    ensures
        context_along(
            migrated(session_id, entries, leaf_id),
            flat_path(entries.take(n), first_meta(entries)->0.id),
        ) == messages_among(entries.take(n)),
    decreases n,
{
    let all = migrated(session_id, entries, leaf_id);
    let root = first_meta(entries)->0.id;
    let path = flat_path(entries.take(n), root);
    lemma_flat_distinct(session_id, entries, leaf_id);
    if n == 0 {
        let k = lemma_first_meta_is_there(entries);
        lemma_found_at(all, k);
        assert(all[k].kind == entries[k].kind);
        lemma_nothing_compacted(all, root);
        assert(path =~= seq![root]);
        assert(path.drop_last() =~= seq![]);
        assert(context_along(all, path.drop_last()) =~= seq![]);
        assert(context_at(all, root) =~= seq![]);
        assert(context_along(all, path) =~= seq![]);
        assert(messages_among(entries.take(0)) =~= seq![]);
    } else {
        let front = entries.take(n - 1);
        assert(entries.take(n).drop_last() =~= front);
        assert(entries.take(n).last() == entries[n - 1]);
        lemma_flat_context(session_id, entries, leaf_id, n - 1);
        if let EntryKind::Message { message } = entries[n - 1].kind {
            let id = entries[n - 1].id;
            lemma_found_at(all, n - 1);
            assert(all[n - 1].kind == entries[n - 1].kind && all[n - 1].id == id);
            lemma_nothing_compacted(all, id);
            assert(path.drop_last() =~= flat_path(front, root));
            assert(context_at(all, id) =~= seq![ContextView { message, entry_id: Some(id) }]);
            assert(context_along(all, path) =~= messages_among(entries.take(n)));
        }
    }
}

/// A file of the flat format is read without loss: the context of its session is
/// its messages, in order.
pub proof fn law_migration_keeps_messages(
    session_id: Seq<char>,
    lines: Seq<LineView>,
    entries: Seq<EntryView>,
    leaf_id: Seq<char>,
)
    requires
        needs_migration(lines),
        line_entries(session_id, lines) == Ok::<Seq<EntryView>, crate::error::ErrorView>(entries),
        are_flat(entries, leaf_id),
        first_meta(entries) is Some,
    ensures
        loaded(session_id, lines, leaf_id) matches Ok(s) && session_context(s) == messages_among(
            entries,
        ),
{
    let all = migrated(session_id, entries, leaf_id);
    let root = first_meta(entries)->0.id;
    lemma_flat_distinct(session_id, entries, leaf_id);
    assert forall|i: int| 0 <= i < entries.len() implies (#[trigger] entries[i]).kind is Meta
        == all[i].kind is Meta && (entries[i].kind is Meta ==> all[i] == entries[i]) by {
        lemma_relinked_at(entries, Some(root), i);
        assert(all[i].kind == entries[i].kind);
    }
    lemma_first_meta_same(entries, all);
    let k = lemma_first_meta_is_there(entries);
    let linked = relinked(entries, Some(root));
    assert forall|i: int| 0 <= i < linked.len() implies (#[trigger] linked[i]).id != leaf_id by {
        assert(all[i] == linked[i]);
        assert(all[i].id == entries[i].id);
    }
    lemma_no_leaf(linked, leaf_id);
    lemma_leaf_target_push(linked, all.last(), leaf_id);
    let s = loaded(session_id, lines, leaf_id)->Ok_0;
    assert(s.entries == all && s.leaf_id == leaf_id);
    lemma_flat_path_end(entries, root);
    assert(entries.take(entries.len() as int) =~= entries);
    let path = flat_path(entries, root);
    assert(current_entry(s) == path.last());
    lemma_flat_chain(session_id, entries, leaf_id, entries.len() as int, Set::empty());
    assert(path.reverse().reverse() =~= path);
    lemma_flat_context(session_id, entries, leaf_id, entries.len() as int);
}

proof fn lemma_legacy_metas(session_id: Seq<char>, lines: Seq<LineView>)
    requires
        forall|i: int| 0 <= i < lines.len() ==> !((#[trigger] lines[i]) is Entry),
    ensures
        line_entries(session_id, lines) matches Ok(entries) ==> forall|i: int|
            0 <= i < entries.len() ==> ((#[trigger] entries[i]).kind is Meta ==> entries[i].id
                == entries[i].kind->session_id),
    decreases lines.len(),
{
    if lines.len() > 0 {
        assert forall|i: int| 0 <= i < lines.drop_last().len() implies !((
        #[trigger] lines.drop_last()[i]) is Entry) by {
            assert(lines.drop_last()[i] == lines[i]);
        }
        lemma_legacy_metas(session_id, lines.drop_last());
        assert(lines.last() == lines[lines.len() - 1]);
    }
}

/// A session that is read from a file of the flat format has the ID of its root
/// meta entry.
pub proof fn law_migrated_session_has_its_root_id(
    session_id: Seq<char>,
    lines: Seq<LineView>,
    leaf_id: Seq<char>,
)
    requires
        forall|i: int| 0 <= i < lines.len() ==> !((#[trigger] lines[i]) is Entry),
    ensures
        loaded(session_id, lines, leaf_id) matches Ok(s) ==> first_meta(s.entries) matches Some(root)
            && root.id == s.session_id,
{
    lemma_legacy_metas(session_id, lines);
    if let Ok(entries) = line_entries(session_id, lines) {
        let all = if needs_migration(lines) {
            migrated(session_id, entries, leaf_id)
        } else {
            entries
        };
        if first_meta(all) is Some {
            let k = lemma_first_meta_is_there(all);
            if needs_migration(lines) && entries.len() > 0 {
                let root = id_of(first_meta(entries));
                lemma_relinked_at(
                    entries,
                    root,
                    if k < entries.len() {
                        k
                    } else {
                        0
                    },
                );
                assert(all[k].kind == entries[k].kind && all[k].id == entries[k].id);
            }
        }
    }
}

} // verus!
