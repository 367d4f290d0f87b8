//! Session management: JSONL-based persistent conversation storage.
//!
//! Sessions are tree-structured: each entry has an `id` and optional `parent_id`,
//! forming a linked list. A `Leaf` entry acts as a pointer to the current tip.
//! Compaction entries allow summarising old history while keeping recent messages.

use vstd::prelude::*;

use crate::agent_loop::{create_compaction_summary_message, summary_message};
use crate::json::{Json, JsonView};
use crate::text::{contains, list_contains, same_text};
use crate::types::{Message, MessageView};

verus! {

/// A point in time: seconds since the Unix epoch, and nanoseconds on top.
#[derive(Debug, Clone, Copy, PartialEq, Eq, Structural)]
pub struct Timestamp {
    /// Seconds since the Unix epoch.
    pub seconds: i64,
    /// Nanoseconds within the second.
    pub nanos: u32,
}

/// A message paired with its backing session entry ID.
#[derive(Debug)]
pub struct ContextMessage {
    /// The conversation message.
    pub message: Message,
    /// The session entry ID backing this message, or `None` for synthetic
    /// messages (e.g. compaction summaries).
    pub entry_id: Option<String>,
}

/// A JSONL session entry in the tree-structured session model.
#[derive(Debug)]
pub enum SessionEntry {
    /// Session metadata (root entry).
    Meta {
        /// Unique entry ID.
        id: String,
        /// Parent entry ID (always `None` for the root).
        parent_id: Option<String>,
        /// Session identifier (equals `id` for the root meta).
        session_id: String,
        /// Creation timestamp.
        created_at: Timestamp,
        /// Model used for this session.
        model: String,
    },
    /// A conversation message.
    Message {
        /// Unique entry ID.
        id: String,
        /// Parent entry ID.
        parent_id: Option<String>,
        /// The message.
        message: Message,
    },
    /// A compaction boundary: summarises history before this point.
    Compaction {
        /// Unique entry ID.
        id: String,
        /// Parent entry ID.
        parent_id: Option<String>,
        /// Summary of the compacted history.
        summary: String,
        /// Entry ID where kept (non-compacted) messages resume.
        first_kept_entry_id: String,
        /// Token count before compaction.
        tokens_before: u32,
    },
    /// A leaf pointer: tracks the current tip of the conversation.
    Leaf {
        /// Unique entry ID.
        id: String,
        /// Parent leaf ID (tracks leaf history).
        parent_id: Option<String>,
        /// Entry ID this leaf points to.
        target_id: String,
    },
}

/// A loaded session with all its entries in tree order.
#[derive(Debug)]
pub struct Session {
    /// Unique session ID (matches the root Meta entry's `id`).
    pub session_id: String,
    /// When the session was created.
    pub created_at: Timestamp,
    /// Model used for this session.
    pub model: String,
    /// All entries in the session (meta, messages, compactions, leaves).
    pub entries: Vec<SessionEntry>,
    /// ID of the current leaf entry.
    pub leaf_id: String,
    /// Additional metadata.
    pub metadata: Vec<(String, Json)>,
}

// ---------------------------------------------------------------------------
// What sessions hold
// ---------------------------------------------------------------------------

/// What a context message holds.
pub struct ContextView {
    pub message: MessageView,
    pub entry_id: Option<Seq<char>>,
}

/// What an entry holds beside its place in the tree.
pub enum EntryKind {
    Meta { session_id: Seq<char>, created_at: Timestamp, model: Seq<char> },
    Message { message: MessageView },
    Compaction { summary: Seq<char>, first_kept_entry_id: Seq<char>, tokens_before: u32 },
    Leaf { target_id: Seq<char> },
}

/// What an entry holds.
pub struct EntryView {
    pub id: Seq<char>,
    pub parent_id: Option<Seq<char>>,
    pub kind: EntryKind,
}

/// What a session holds.
pub struct SessionView {
    pub session_id: Seq<char>,
    pub created_at: Timestamp,
    pub model: Seq<char>,
    pub entries: Seq<EntryView>,
    pub leaf_id: Seq<char>,
    pub metadata: Seq<(Seq<char>, JsonView)>,
}

impl DeepView for ContextMessage {
    type V = ContextView;

    open spec fn deep_view(&self) -> ContextView {
        ContextView { message: self.message.deep_view(), entry_id: self.entry_id.deep_view() }
    }
}

impl DeepView for SessionEntry {
    type V = EntryView;

    open spec fn deep_view(&self) -> EntryView {
        match *self {
            SessionEntry::Meta { id, parent_id, session_id, created_at, model } => EntryView {
                id: id@,
                parent_id: parent_id.deep_view(),
                kind: EntryKind::Meta { session_id: session_id@, created_at, model: model@ },
            },
            SessionEntry::Message { id, parent_id, message } => EntryView {
                id: id@,
                parent_id: parent_id.deep_view(),
                kind: EntryKind::Message { message: message.deep_view() },
            },
            SessionEntry::Compaction {
                id,
                parent_id,
                summary,
                first_kept_entry_id,
                tokens_before,
            } => EntryView {
                id: id@,
                parent_id: parent_id.deep_view(),
                kind: EntryKind::Compaction {
                    summary: summary@,
                    first_kept_entry_id: first_kept_entry_id@,
                    tokens_before,
                },
            },
            SessionEntry::Leaf { id, parent_id, target_id } => EntryView {
                id: id@,
                parent_id: parent_id.deep_view(),
                kind: EntryKind::Leaf { target_id: target_id@ },
            },
        }
    }
}

impl DeepView for Session {
    type V = SessionView;

    open spec fn deep_view(&self) -> SessionView {
        SessionView {
            session_id: self.session_id@,
            created_at: self.created_at,
            model: self.model@,
            entries: self.entries.deep_view(),
            leaf_id: self.leaf_id@,
            metadata: self.metadata.deep_view(),
        }
    }
}

impl SessionEntry {
    /// Return the entry's unique ID.
    pub fn id(&self) -> (r: &str)
        ensures
            r@ == self.deep_view().id,
    {
        match self {
            SessionEntry::Meta { id, .. } => id.as_str(),
            SessionEntry::Message { id, .. } => id.as_str(),
            SessionEntry::Compaction { id, .. } => id.as_str(),
            SessionEntry::Leaf { id, .. } => id.as_str(),
        }
    }

    /// Return the parent entry ID, if any.
    pub fn parent_id(&self) -> (r: Option<&str>)
        ensures
            r.deep_view() == self.deep_view().parent_id,
    {
        let parent: &Option<String> = match self {
            SessionEntry::Meta { parent_id, .. } => parent_id,
            SessionEntry::Message { parent_id, .. } => parent_id,
            SessionEntry::Compaction { parent_id, .. } => parent_id,
            SessionEntry::Leaf { parent_id, .. } => parent_id,
        };
        match parent {
            Some(p) => Some(p.as_str()),
            None => None,
        }
    }
}

// ---------------------------------------------------------------------------
// Walking the tree
// ---------------------------------------------------------------------------

/// What the first leaf with an ID points to.
pub open spec fn leaf_target(entries: Seq<EntryView>, leaf_id: Seq<char>) -> Option<Seq<char>>
    decreases entries.len(),
{
    if entries.len() == 0 {
        None
    } else if entries[0].id == leaf_id && entries[0].kind is Leaf {
        Some(entries[0].kind->target_id)
    } else {
        leaf_target(entries.skip(1), leaf_id)
    }
}

/// The entry that the current leaf of a session points to: the session itself
/// where it has no such leaf.
pub open spec fn current_entry(s: SessionView) -> Seq<char> {
    match leaf_target(s.entries, s.leaf_id) {
        Some(target) => target,
        None => s.session_id,
    }
}

/// The last entry with an ID.
pub open spec fn entry_with_id(entries: Seq<EntryView>, id: Seq<char>) -> Option<EntryView>
    decreases entries.len(),
{
    if entries.len() == 0 {
        None
    } else if entries.last().id == id {
        Some(entries.last())
    } else {
        entry_with_id(entries.drop_last(), id)
    }
}

/// The IDs of all entries.
pub open spec fn entry_ids(entries: Seq<EntryView>) -> Set<Seq<char>> {
    entries.map_values(|e: EntryView| e.id).to_set()
}

/// The IDs from an entry up through its parents. The walk ends before `stop`,
/// before an ID that no entry has, before an ID that it has seen, and after an
/// entry without a parent.
pub open spec fn chain(
    entries: Seq<EntryView>,
    id: Seq<char>,
    stop: Option<Seq<char>>,
    seen: Set<Seq<char>>,
) -> Seq<Seq<char>>
    decreases entry_ids(entries).difference(seen).len(),
{
    if stop == Some(id) || seen.contains(id) {
        seq![]
    } else {
        match entry_with_id(entries, id) {
            None => seq![],
            Some(e) => {
                proof {
                    lemma_unseen_shrinks(entries, id, seen);
                }
                match e.parent_id {
                    None => seq![id],
                    Some(parent) => seq![id] + chain(entries, parent, stop, seen.insert(id)),
                }
            },
        }
    }
}

pub proof fn lemma_entry_with_id(entries: Seq<EntryView>, id: Seq<char>)
    ensures
        match entry_with_id(entries, id) {
            Some(e) => e.id == id && entries.contains(e) && entry_ids(entries).contains(id),
            None => forall|i: int| 0 <= i < entries.len() ==> entries[i].id != id,
        },
    decreases entries.len(),
{
    if entries.len() > 0 {
        if entries.last().id == id {
            let ids = entries.map_values(|e: EntryView| e.id);
            assert(ids[entries.len() - 1] == id);
            assert(entries[entries.len() - 1] == entries.last());
        } else {
            lemma_entry_with_id(entries.drop_last(), id);
            if entry_with_id(entries, id) is Some {
                let e = entry_with_id(entries, id)->0;
                let i = choose|i: int|
                    0 <= i < entries.drop_last().len() && entries.drop_last()[i] == e;
                assert(entries[i] == e);
                let ids = entries.map_values(|e: EntryView| e.id);
                assert(ids[i] == id);
            } else {
                assert forall|i: int| 0 <= i < entries.len() implies entries[i].id != id by {
                    if i < entries.len() - 1 {
                        assert(entries.drop_last()[i] == entries[i]);
                    }
                }
            }
        }
    }
}

pub proof fn lemma_unseen_shrinks(entries: Seq<EntryView>, id: Seq<char>, seen: Set<Seq<char>>)
    requires
        entry_with_id(entries, id) is Some,
        !seen.contains(id),
    ensures
        entry_ids(entries).difference(seen.insert(id)).len() < entry_ids(entries).difference(
            seen,
        ).len(),
{
    lemma_entry_with_id(entries, id);
    let ids = entry_ids(entries);
    vstd::seq_lib::seq_to_set_is_finite(entries.map_values(|e: EntryView| e.id));
    assert(ids.difference(seen.insert(id)) =~= ids.difference(seen).remove(id));
}

/// The last entry with an ID.
fn find_entry<'a>(entries: &'a Vec<SessionEntry>, id: &str) -> (r: Option<&'a SessionEntry>)
    ensures
        r.deep_view() == entry_with_id(entries.deep_view(), id@),
{
    let ghost all = entries.deep_view();
    let mut i: usize = entries.len();
    assert(all.take(all.len() as int) == all);
    while i > 0
        invariant
            all == entries.deep_view(),
            i <= entries@.len(),
            entry_with_id(all.take(i as int), id@) == entry_with_id(all, id@),
        decreases i,
    {
        i = i - 1;
        assert(all.take(i + 1).drop_last() == all.take(i as int));
        assert(all.take(i + 1).last() == all[i as int]);
        if same_text(entries[i].id(), id) {
            return Some(&entries[i]);
        }
    }
    None
}

/// The IDs from an entry up through its parents, up to `stop`.
fn chain_ids(entries: &Vec<SessionEntry>, start: &str, stop: Option<&str>) -> (r: Vec<String>)
    ensures
        r.deep_view() == chain(entries.deep_view(), start@, stop.deep_view(), Set::empty()),
{
    let ghost all = entries.deep_view();
    let ghost whole = chain(all, start@, stop.deep_view(), Set::empty());
    let mut ids: Vec<String> = Vec::new();
    let mut current: String = start.to_owned();
    let ghost mut seen: Set<Seq<char>> = Set::empty();
    assert(ids.deep_view() + whole =~= whole);
    loop
        invariant
            all == entries.deep_view(),
            whole == chain(all, start@, stop.deep_view(), Set::empty()),
            forall|id: Seq<char>| seen.contains(id) == ids.deep_view().contains(id),
            whole == ids.deep_view() + chain(all, current@, stop.deep_view(), seen),
        decreases entry_ids(all).difference(seen).len(),
    {
        let stops: bool = match stop {
            Some(s) => same_text(s, &current),
            None => false,
        };
        if stops || list_contains(&ids, &current) {
            assert(whole =~= ids.deep_view());
            return ids;
        }
        let entry: &SessionEntry = match find_entry(entries, &current) {
            Some(e) => e,
            None => {
                assert(whole =~= ids.deep_view());
                return ids;
            },
        };
        let ghost before = ids.deep_view();
        proof {
            lemma_unseen_shrinks(all, current@, seen);
        }
        ids.push(current.clone());
        assert(ids.deep_view() =~= before.push(current@));
        proof {
            let old_seen = seen;
            seen = seen.insert(current@);
            assert forall|id: Seq<char>| seen.contains(id) == ids.deep_view().contains(id) by {
                if before.contains(id) {
                    let k = choose|k: int| 0 <= k < before.len() && before[k] == id;
                    assert(ids.deep_view()[k] == id);
                }
                if id == current@ {
                    assert(ids.deep_view()[before.len() as int] == id);
                }
                if ids.deep_view().contains(id) && id != current@ {
                    let k = choose|k: int|
                        0 <= k < ids.deep_view().len() && ids.deep_view()[k] == id;
                    assert(before[k] == id);
                }
            }
        }
        match entry.parent_id() {
            None => {
                assert(whole =~= ids.deep_view());
                return ids;
            },
            Some(parent) => {
                let next: String = parent.to_owned();
                assert(whole =~= ids.deep_view() + chain(all, next@, stop.deep_view(), seen));
                current = next;
            },
        }
    }
}

// ---------------------------------------------------------------------------
// Context
// ---------------------------------------------------------------------------

/// The summary that stands before an entry: that of the first compaction whose
/// kept messages start there.
pub open spec fn summary_before(entries: Seq<EntryView>, id: Seq<char>) -> Option<Seq<char>>
    decreases entries.len(),
{
    if entries.len() == 0 {
        None
    } else if entries[0].kind is Compaction && entries[0].kind->first_kept_entry_id == id {
        Some(entries[0].kind->summary)
    } else {
        summary_before(entries.skip(1), id)
    }
}

/// The entries that a compaction covers: those above its first kept entry.
pub open spec fn covered(entries: Seq<EntryView>, compaction: EntryView) -> Seq<Seq<char>> {
    match entry_with_id(entries, compaction.kind->first_kept_entry_id) {
        None => seq![],
        Some(kept) => match kept.parent_id {
            None => seq![],
            Some(parent) => chain(entries, parent, Some(compaction.id), Set::empty()),
        },
    }
}

/// Some compaction covers an entry.
pub open spec fn is_compacted(entries: Seq<EntryView>, id: Seq<char>) -> bool {
    exists|k: int|
        0 <= k < entries.len() && (#[trigger] entries[k]).kind is Compaction && covered(
            entries,
            entries[k],
        ).contains(id)
}

/// What an entry on the path gives to the context: the summary that stands
/// before it, then its message, unless it was compacted.
pub open spec fn context_at(entries: Seq<EntryView>, id: Seq<char>) -> Seq<ContextView> {
    let summary = match summary_before(entries, id) {
        Some(s) => seq![ContextView { message: summary_message(s), entry_id: None }],
        None => seq![],
    };
    let message = match entry_with_id(entries, id) {
        Some(EntryView { kind: EntryKind::Message { message }, .. }) => if is_compacted(
            entries,
            id,
        ) {
            seq![]
        } else {
            seq![ContextView { message, entry_id: Some(id) }]
        },
        _ => seq![],
    };
    summary + message
}

/// What the entries of a path give to the context, one after the other.
pub open spec fn context_along(entries: Seq<EntryView>, path: Seq<Seq<char>>) -> Seq<ContextView>
    decreases path.len(),
{
    if path.len() == 0 {
        seq![]
    } else {
        context_along(entries, path.drop_last()) + context_at(entries, path.last())
    }
}

/// The path of a session, from the root to the current entry.
pub open spec fn session_path_ids(s: SessionView) -> Seq<Seq<char>> {
    chain(s.entries, current_entry(s), None, Set::empty()).reverse()
}

/// The context of a session.
pub open spec fn session_context(s: SessionView) -> Seq<ContextView> {
    context_along(s.entries, session_path_ids(s))
}

/// The messages of a context.
pub open spec fn context_messages(context: Seq<ContextView>) -> Seq<MessageView> {
    context.map_values(|c: ContextView| c.message)
}

proof fn lemma_summary_skips(entries: Seq<EntryView>, id: Seq<char>, n: int)
    requires
        0 <= n <= entries.len(),
        forall|j: int|
            0 <= j < n ==> !((#[trigger] entries[j]).kind is Compaction
                && entries[j].kind->first_kept_entry_id == id),
    ensures
        summary_before(entries, id) == summary_before(entries.skip(n), id),
    decreases n,
{
    if n == 0 {
        assert(entries.skip(0) == entries);
    } else {
        assert forall|j: int| 0 <= j < n - 1 implies !((#[trigger] entries.skip(1)[j]).kind is Compaction
            && entries.skip(1)[j].kind->first_kept_entry_id == id) by {
            assert(entries.skip(1)[j] == entries[j + 1]);
        }
        lemma_summary_skips(entries.skip(1), id, n - 1);
        assert(entries.skip(1).skip(n - 1) == entries.skip(n));
    }
}

/// The summary that stands before an entry.
fn find_summary<'a>(entries: &'a Vec<SessionEntry>, id: &str) -> (r: Option<&'a String>)
    ensures
        r.deep_view() == summary_before(entries.deep_view(), id@),
{
    let ghost all = entries.deep_view();
    let mut i: usize = 0;
    while i < entries.len()
        invariant
            all == entries.deep_view(),
            i <= entries@.len(),
            forall|j: int|
                0 <= j < i ==> !((#[trigger] all[j]).kind is Compaction
                    && all[j].kind->first_kept_entry_id == id@),
        decreases entries@.len() - i,
    {
        assert(all[i as int] == entries@[i as int].deep_view());
        if let SessionEntry::Compaction { summary, first_kept_entry_id, .. } = &entries[i] {
            if same_text(first_kept_entry_id, id) {
                proof {
                    lemma_summary_skips(all, id@, i as int);
                    assert(all.skip(i as int)[0] == all[i as int]);
                }
                return Some(summary);
            }
        }
        i = i + 1;
    }
    proof {
        lemma_summary_skips(all, id@, i as int);
    }
    None
}

/// The entries that any compaction covers.
fn compacted_ids(entries: &Vec<SessionEntry>) -> (r: Vec<String>)
    ensures
        forall|id: Seq<char>| r.deep_view().contains(id) == is_compacted(entries.deep_view(), id),
{
    let ghost all = entries.deep_view();
    let mut r: Vec<String> = Vec::new();
    let mut i: usize = 0;
    while i < entries.len()
        invariant
            all == entries.deep_view(),
            i <= entries@.len(),
            forall|id: Seq<char>| #[trigger]
                r.deep_view().contains(id) == (exists|k: int|
                    0 <= k < i && (#[trigger] all[k]).kind is Compaction && covered(
                        all,
                        all[k],
                    ).contains(id)),
        decreases entries@.len() - i,
    {
        assert(all[i as int] == entries@[i as int].deep_view());
        let mut more: Vec<String> = Vec::new();
        if let SessionEntry::Compaction { id, first_kept_entry_id, .. } = &entries[i] {
            if let Some(kept) = find_entry(entries, first_kept_entry_id) {
                if let Some(parent) = kept.parent_id() {
                    more = chain_ids(entries, parent, Some(id.as_str()));
                }
            }
            assert(more.deep_view() == covered(all, all[i as int]));
        }
        let ghost before = r.deep_view();
        let ghost added = more.deep_view();
        r.append(&mut more);
        assert(r.deep_view() =~= before + added);
        assert(all[i as int].kind is Compaction ==> added == covered(all, all[i as int]));
        assert(!(all[i as int].kind is Compaction) ==> added.len() == 0);
        i = i + 1;
        assert forall|id: Seq<char>| #[trigger]
            r.deep_view().contains(id) == (exists|k: int|
                0 <= k < i && (#[trigger] all[k]).kind is Compaction && covered(
                    all,
                    all[k],
                ).contains(id)) by {
            if before.contains(id) {
                let k = choose|k: int| 0 <= k < before.len() && before[k] == id;
                assert(r.deep_view()[k] == id);
            }
            if added.contains(id) {
                let k = choose|k: int| 0 <= k < added.len() && added[k] == id;
                assert(r.deep_view()[before.len() + k] == id);
            }
            if r.deep_view().contains(id) {
                let k = choose|k: int| 0 <= k < r.deep_view().len() && r.deep_view()[k] == id;
                if k < before.len() {
                    assert(before[k] == id);
                } else {
                    assert(added[k - before.len()] == id);
                    assert(all[i - 1].kind is Compaction);
                }
            }
        }
    }
    r
}

impl Session {
    /// Return the entry ID that the current leaf points to.
    fn current_entry_id(&self) -> (r: String)
        ensures
            r@ == current_entry(self.deep_view()),
    {
        let ghost all = self.entries.deep_view();
        let mut i: usize = 0;
        assert(all.skip(0) == all);
        while i < self.entries.len()
            invariant
                all == self.entries.deep_view(),
                i <= self.entries@.len(),
                leaf_target(all.skip(i as int), self.leaf_id@) == leaf_target(all, self.leaf_id@),
            decreases self.entries@.len() - i,
        {
            assert(all.skip(i as int)[0] == all[i as int]);
            assert(all.skip(i as int).skip(1) == all.skip(i + 1));
            if let SessionEntry::Leaf { id, target_id, .. } = &self.entries[i] {
                if same_text(id, &self.leaf_id) {
                    return target_id.clone();
                }
            }
            i = i + 1;
        }
        self.session_id.clone()
    }

    /// Builds context like `build_context()` but returns `Vec<ContextMessage>` where each
    /// message is paired with its backing session entry ID. Synthetic messages (compaction
    /// summaries) get `None` as their entry_id.
    pub fn build_context_with_entry_ids(&self) -> (r: Vec<ContextMessage>)
        ensures
            r.deep_view() == session_context(self.deep_view()),
    {
        let ghost all = self.entries.deep_view();
        let tip: String = self.current_entry_id();
        let chain: Vec<String> = chain_ids(&self.entries, &tip, None);
        let compacted: Vec<String> = compacted_ids(&self.entries);
        let ghost path = session_path_ids(self.deep_view());
        assert(path == chain.deep_view().reverse());

        let mut result: Vec<ContextMessage> = Vec::new();
        let mut i: usize = chain.len();
        assert(path.take(0) == Seq::<Seq<char>>::empty());
        assert(result.deep_view() =~= Seq::<ContextView>::empty());
        while i > 0
            invariant
                all == self.entries.deep_view(),
                i <= chain@.len(),
                path == chain.deep_view().reverse(),
                forall|id: Seq<char>| compacted.deep_view().contains(id) == is_compacted(all, id),
                result.deep_view() == context_along(all, path.take(chain@.len() - i)),
            decreases i,
        {
            i = i - 1;
            let id: &String = &chain[i];
            let ghost step = path.take(chain@.len() - i);
            assert(step.drop_last() == path.take(chain@.len() - i - 1));
            assert(step.last() == id@);
            let ghost before = result.deep_view();
            let ghost mut summary_part: Seq<ContextView> = seq![];
            if let Some(summary) = find_summary(&self.entries, id) {
                let message: Message = create_compaction_summary_message(summary);
                result.push(ContextMessage { message, entry_id: None });
                proof {
                    summary_part =
                    seq![ContextView { message: summary_message(summary@), entry_id: None }];
                }
            }
            assert(result.deep_view() =~= before + summary_part);
            if !list_contains(&compacted, id) {
                if let Some(SessionEntry::Message { message, .. }) = find_entry(&self.entries, id) {
                    let ghost middle = result.deep_view();
                    let copy: Message = message.clone();
                    result.push(ContextMessage { message: copy, entry_id: Some(id.clone()) });
                    assert(result.deep_view() =~= middle.push(
                        ContextView { message: message.deep_view(), entry_id: Some(id@) },
                    ));
                }
            }
            assert(result.deep_view() =~= before + context_at(all, id@));
        }
        assert(path.take(path.len() as int) == path);
        result
    }

    /// Build the conversation context by walking from the leaf to the root.
    ///
    /// When a compaction entry is encountered, a synthetic summary message is
    /// injected and the walk jumps to `first_kept_entry_id`.
    pub fn build_context(&self) -> (r: Vec<Message>)
        ensures
            r.deep_view() == context_messages(session_context(self.deep_view())),
    {
        let context: Vec<ContextMessage> = self.build_context_with_entry_ids();
        let ghost whole = context.deep_view();
        let mut r: Vec<Message> = Vec::new();
        let mut i: usize = 0;
        while i < context.len()
            invariant
                whole == context.deep_view(),
                i <= context@.len(),
                r.deep_view() == context_messages(whole).take(i as int),
            decreases context@.len() - i,
        {
            let ghost before = r.deep_view();
            let message: Message = context[i].message.clone();
            r.push(message);
            assert(whole[i as int] == context@[i as int].deep_view());
            assert(r.deep_view() =~= before.push(whole[i as int].message));
            i = i + 1;
            assert(r.deep_view() =~= context_messages(whole).take(i as int));
        }
        assert(r.deep_view() =~= context_messages(whole));
        r
    }
}

} // verus!

verus! {

// ---------------------------------------------------------------------------
// Creating and extending sessions
// ---------------------------------------------------------------------------

/// A text in the form of an entry ID: five groups of lower-case hexadecimal
/// digits, eight, four, four, four and twelve long, with hyphens between them.
pub open spec fn is_id_text(s: Seq<char>) -> bool {
    &&& s.len() == 36
    &&& forall|i: int|
        0 <= i < 36 ==> if i == 8 || i == 13 || i == 18 || i == 23 {
            #[trigger] s[i] == '-'
        } else {
            '0' <= s[i] <= '9' || 'a' <= s[i] <= 'f'
        }
}

/// `uuid::Uuid::new_v4` and its `to_string`: a random ID. Every one has the
/// form of an ID; which one comes out is left to chance.
#[verifier::external_body]
pub(crate) fn fresh_id() -> (r: String)
    ensures
        is_id_text(r@),
{
    uuid::Uuid::new_v4().to_string()
}

/// `chrono::Utc::now`: the current time, of which nothing is claimed.
#[verifier::external_body]
pub(crate) fn now() -> (r: Timestamp) {
    let now = chrono::Utc::now();
    Timestamp { seconds: now.timestamp(), nanos: now.timestamp_subsec_nanos() }
}

/// A session with a meta root and an initial leaf.
pub open spec fn new_session(
    model: Seq<char>,
    meta_id: Seq<char>,
    leaf_id: Seq<char>,
    created_at: Timestamp,
) -> SessionView {
    SessionView {
        session_id: meta_id,
        created_at,
        model,
        entries: seq![
            EntryView {
                id: meta_id,
                parent_id: None,
                kind: EntryKind::Meta { session_id: meta_id, created_at, model },
            },
            EntryView { id: leaf_id, parent_id: None, kind: EntryKind::Leaf { target_id: meta_id } },
        ],
        leaf_id,
        metadata: seq![],
    }
}

/// A session with one more entry below its current one, and a leaf on it.
pub open spec fn with_entry(
    s: SessionView,
    kind: EntryKind,
    entry_id: Seq<char>,
    leaf_id: Seq<char>,
) -> SessionView {
    SessionView {
        entries: s.entries.push(
            EntryView { id: entry_id, parent_id: Some(current_entry(s)), kind },
        ).push(
            EntryView {
                id: leaf_id,
                parent_id: Some(s.leaf_id),
                kind: EntryKind::Leaf { target_id: entry_id },
            },
        ),
        leaf_id,
        ..s
    }
}

/// A session with one more message.
pub open spec fn with_message(
    s: SessionView,
    message: MessageView,
    entry_id: Seq<char>,
    leaf_id: Seq<char>,
) -> SessionView {
    with_entry(s, EntryKind::Message { message }, entry_id, leaf_id)
}

/// A session with one more compaction.
pub open spec fn with_compaction(
    s: SessionView,
    summary: Seq<char>,
    first_kept_entry_id: Seq<char>,
    tokens_before: u32,
    entry_id: Seq<char>,
    leaf_id: Seq<char>,
) -> SessionView {
    with_entry(
        s,
        EntryKind::Compaction { summary, first_kept_entry_id, tokens_before },
        entry_id,
        leaf_id,
    )
}

impl Session {
    /// Create a new session with a meta root and an initial leaf.
    pub fn new(model: &str) -> (r: Self)
        ensures
            r.deep_view() == new_session(model@, r.session_id@, r.leaf_id@, r.created_at),
            is_id_text(r.session_id@),
            is_id_text(r.leaf_id@),
    {
        Session::with_ids(model, fresh_id(), fresh_id(), now())
    }

    /// Create a new session with the given IDs and creation time.
    pub fn with_ids(model: &str, meta_id: String, leaf_id: String, created_at: Timestamp) -> (r:
        Self)
        ensures
            r.deep_view() == new_session(model@, meta_id@, leaf_id@, created_at),
            r.session_id == meta_id,
            r.leaf_id == leaf_id,
            r.created_at == created_at,
    {
        let meta: SessionEntry = SessionEntry::Meta {
            id: meta_id.clone(),
            parent_id: None,
            session_id: meta_id.clone(),
            created_at,
            model: model.to_owned(),
        };
        let leaf: SessionEntry = SessionEntry::Leaf {
            id: leaf_id.clone(),
            parent_id: None,
            target_id: meta_id.clone(),
        };
        let mut entries: Vec<SessionEntry> = Vec::new();
        entries.push(meta);
        entries.push(leaf);
        let metadata: Vec<(String, Json)> = Vec::new();
        assert(metadata.deep_view() =~= seq![]);
        let ghost expected = new_session(model@, meta_id@, leaf_id@, created_at);
        assert(entries.deep_view() =~= expected.entries);
        Session {
            session_id: meta_id,
            created_at,
            model: model.to_owned(),
            entries,
            leaf_id,
            metadata,
        }
    }

    /// Add an entry, and a leaf that points to it.
    fn push_entry(&mut self, entry: SessionEntry, entry_id: &str, leaf_id: String)
        requires
            entry.deep_view().id == entry_id@,
            entry.deep_view().parent_id == Some(current_entry(old(self).deep_view())),
        ensures
            final(self).deep_view() == with_entry(
                old(self).deep_view(),
                entry.deep_view().kind,
                entry_id@,
                leaf_id@,
            ),
            final(self).leaf_id == leaf_id,
    {
        let ghost before = self.deep_view();
        let new_leaf: SessionEntry = SessionEntry::Leaf {
            id: leaf_id.clone(),
            parent_id: Some(self.leaf_id.clone()),
            target_id: entry_id.to_owned(),
        };
        let ghost expected = with_entry(before, entry.deep_view().kind, entry_id@, leaf_id@);
        self.entries.push(entry);
        self.entries.push(new_leaf);
        self.leaf_id = leaf_id;
        assert(self.entries.deep_view() =~= expected.entries);
    }

    /// Append a message to the session under the given IDs.
    pub fn append_message_as(&mut self, message: Message, entry_id: String, leaf_id: String)
        ensures
            final(self).deep_view() == with_message(
                old(self).deep_view(),
                message.deep_view(),
                entry_id@,
                leaf_id@,
            ),
            final(self).leaf_id == leaf_id,
    {
        let parent: String = self.current_entry_id();
        let entry: SessionEntry = SessionEntry::Message {
            id: entry_id.clone(),
            parent_id: Some(parent),
            message,
        };
        self.push_entry(entry, &entry_id, leaf_id);
    }

    /// Append a message to the session. Returns the new entry's ID.
    pub fn append_message(&mut self, message: Message) -> (r: String)
        ensures
            final(self).deep_view() == with_message(
                old(self).deep_view(),
                message.deep_view(),
                r@,
                final(self).leaf_id@,
            ),
            is_id_text(r@),
            is_id_text(final(self).leaf_id@),
    {
        let entry_id: String = fresh_id();
        self.append_message_as(message, entry_id.clone(), fresh_id());
        entry_id
    }

    /// Append a compaction entry under the given IDs.
    pub fn append_compaction_as(
        &mut self,
        summary: String,
        first_kept_entry_id: String,
        tokens_before: u32,
        entry_id: String,
        leaf_id: String,
    )
        ensures
            final(self).deep_view() == with_compaction(
                old(self).deep_view(),
                summary@,
                first_kept_entry_id@,
                tokens_before,
                entry_id@,
                leaf_id@,
            ),
            final(self).leaf_id == leaf_id,
    {
        let parent: String = self.current_entry_id();
        let entry: SessionEntry = SessionEntry::Compaction {
            id: entry_id.clone(),
            parent_id: Some(parent),
            summary,
            first_kept_entry_id,
            tokens_before,
        };
        self.push_entry(entry, &entry_id, leaf_id);
    }

    /// Append a compaction entry. Returns the new entry's ID.
    pub fn append_compaction(
        &mut self,
        summary: String,
        first_kept_entry_id: String,
        tokens_before: u32,
    ) -> (r: String)
        ensures
            final(self).deep_view() == with_compaction(
                old(self).deep_view(),
                summary@,
                first_kept_entry_id@,
                tokens_before,
                r@,
                final(self).leaf_id@,
            ),
            is_id_text(r@),
            is_id_text(final(self).leaf_id@),
    {
        let entry_id: String = fresh_id();
        self.append_compaction_as(
            summary,
            first_kept_entry_id,
            tokens_before,
            entry_id.clone(),
            fresh_id(),
        );
        entry_id
    }
}

} // verus!
