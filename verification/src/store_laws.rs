//! What holds of stored sessions: their files, and the list of them.

use vstd::prelude::*;

use crate::error::ErrorView;
use crate::json::text_of;
use crate::session::{context_messages, session_context, EntryKind, EntryView, SessionView, Timestamp};
use crate::session_store::{
    earlier, file_lines, first_meta, last_leaf, last_message, legacy_entry, line_entries,
    line_entry, listed, loaded, message_count, migrated, needs_migration, path_in, preview,
    relinked, session_of, summary_of, text_or, valid_session_id, with_summary, LegacyView,
    LineView,
};
use crate::text::{contains, index_of, lemma_index_of, occurs_at, starts_with, trimmed, utf8_len};
use crate::text_laws::{is_blank, law_trimmed};
use crate::types::content_text;

verus! {

// ---------------------------------------------------------------------------
// Lines
// ---------------------------------------------------------------------------

/// The lines of a file are those between its line ends, without white space at their
/// ends, and without those that are blank.
pub proof fn law_file_lines(line: Seq<char>, rest: Seq<char>)
    requires
        forall|i: int| 0 <= i < line.len() ==> #[trigger] line[i] != '\n',
    ensures
        file_lines(line) == if is_blank(line) {
            Seq::<Seq<char>>::empty()
        } else {
            seq![trimmed(line)]
        },
        file_lines(line + seq!['\n'] + rest) == file_lines(line) + file_lines(rest),
{
    law_trimmed(line);
    lemma_index_of(line, '\n');
    if index_of(line, '\n') is Some {
        assert(line[index_of(line, '\n')->0] == '\n');
    }
    let s = line + seq!['\n'] + rest;
    let n = line.len() as int;
    lemma_index_of(s, '\n');
    assert(s[n] == '\n');
    let i = index_of(s, '\n')->0;
    assert(i == n) by {
        if i < n {
            assert(s[i] == line[i]);
        }
    }
    assert(s.take(n) =~= line);
    assert(s.skip(n + 1) =~= rest);
}

/// The line at a place is the first that holds no entry.
pub open spec fn fails_first_at(session_id: Seq<char>, lines: Seq<LineView>, i: int) -> bool {
    &&& 0 <= i < lines.len()
    &&& line_entry(session_id, lines[i]) is Err
    &&& forall|j: int| 0 <= j < i ==> line_entry(session_id, #[trigger] lines[j]) is Ok
}

/// The entries of a file are those of its lines, one of each, in order. Where a line
/// holds none, the error is that of the first such line.
pub proof fn law_line_entries(session_id: Seq<char>, lines: Seq<LineView>)
    ensures
        match line_entries(session_id, lines) {
            Ok(entries) => entries.len() == lines.len() && forall|i: int|
                0 <= i < lines.len() ==> line_entry(session_id, #[trigger] lines[i]) == Ok::<
                    EntryView,
                    ErrorView,
                >(entries[i]),
            Err(e) => exists|i: int| #[trigger]
                fails_first_at(session_id, lines, i) && line_entry(session_id, lines[i]) == Err::<
                    EntryView,
                    ErrorView,
                >(e),
        },
    decreases lines.len(),
{
    if lines.len() > 0 {
        let front = lines.drop_last();
        let n = lines.len() - 1;
        law_line_entries(session_id, front);
        assert(forall|i: int| 0 <= i < n ==> front[i] == #[trigger] lines[i]);
        match line_entries(session_id, front) {
            Err(e) => {
                let i = choose|i: int| #[trigger]
                    fails_first_at(session_id, front, i) && line_entry(session_id, front[i])
                        == Err::<EntryView, ErrorView>(e);
                assert(fails_first_at(session_id, lines, i));
            },
            Ok(before) => {
                if line_entry(session_id, lines[n]) is Err {
                    assert(fails_first_at(session_id, lines, n));
                } else {
                    let entries = line_entries(session_id, lines)->Ok_0;
                    assert forall|i: int| 0 <= i < lines.len() implies line_entry(
                        session_id,
                        #[trigger] lines[i],
                    ) == Ok::<EntryView, ErrorView>(entries[i]) by {
                        if i < n {
                            assert(entries[i] == before[i]);
                            assert(front[i] == lines[i]);
                        }
                    }
                }
            },
        }
    }
}

/// A line of the flat format is an entry where it says that it is one: a meta entry with
/// the identifier, the time and the model that it holds, or a message as it was read.
/// Anything else is an error, and so is what could not be read.
pub proof fn law_legacy_entry(session_id: Seq<char>, line: LegacyView)
    ensures
        ({
            let kind = text_or(line.value, "type"@, Seq::empty());
            match legacy_entry(session_id, line) {
                Ok(e) => {
                    &&& e.parent_id is None
                    &&& kind == "meta"@ ==> {
                        &&& line.created_at matches Ok(created_at) && e.kind == (EntryKind::Meta {
                            session_id: e.id,
                            created_at,
                            model: text_or(line.value, "model"@, "unknown"@),
                        })
                        &&& e.id == text_or(line.value, "session_id"@, session_id)
                    }
                    &&& kind != "meta"@ ==> kind == "message"@ && e.id == line.id && (
                    line.message matches Ok(message) && e.kind == (EntryKind::Message { message }))
                },
                Err(_) => {
                    ||| kind == "meta"@ && line.created_at is Err
                    ||| kind == "message"@ && line.message is Err
                    ||| kind != "meta"@ && kind != "message"@
                },
            }
        }),
{
}

/// A text of a member is what the member holds, and another text where it holds none.
pub proof fn law_text_or(value: crate::json::JsonView, name: Seq<char>, other: Seq<char>)
    ensures
        text_of(crate::json::field(value, name)) matches Some(text) ==> text_or(value, name, other)
            == text,
        text_of(crate::json::field(value, name)) is None ==> text_or(value, name, other) == other,
{
}

// ---------------------------------------------------------------------------
// Sessions
// ---------------------------------------------------------------------------

proof fn lemma_first_meta(entries: Seq<EntryView>)
    ensures
        match first_meta(entries) {
            Some(e) => exists|i: int|
                0 <= i < entries.len() && #[trigger] entries[i] == e && e.kind is Meta && forall|
                    j: int,
                |
                    0 <= j < i ==> !((#[trigger] entries[j]).kind is Meta),
            None => forall|i: int|
                0 <= i < entries.len() ==> !((#[trigger] entries[i]).kind is Meta),
        },
    decreases entries.len(),
{
    if entries.len() > 0 && !(entries[0].kind is Meta) {
        let rest = entries.skip(1);
        lemma_first_meta(rest);
        assert(forall|j: int| 0 < j < entries.len() ==> rest[j - 1] == #[trigger] entries[j]);
        if let Some(e) = first_meta(rest) {
            let i = choose|i: int|
                0 <= i < rest.len() && #[trigger] rest[i] == e && e.kind is Meta && forall|j: int|
                    0 <= j < i ==> !((#[trigger] rest[j]).kind is Meta);
            assert(entries[i + 1] == e);
        }
    }
}

proof fn lemma_last_leaf(entries: Seq<EntryView>)
    ensures
        match last_leaf(entries) {
            Some(e) => exists|i: int|
                0 <= i < entries.len() && #[trigger] entries[i] == e && e.kind is Leaf && forall|
                    j: int,
                |
                    i < j < entries.len() ==> !((#[trigger] entries[j]).kind is Leaf),
            None => forall|i: int|
                0 <= i < entries.len() ==> !((#[trigger] entries[i]).kind is Leaf),
        },
    decreases entries.len(),
{
    if entries.len() > 0 {
        let front = entries.drop_last();
        lemma_last_leaf(front);
        assert(forall|j: int| 0 <= j < front.len() ==> front[j] == #[trigger] entries[j]);
        if entries.last().kind is Leaf {
            assert(entries[entries.len() - 1].kind is Leaf);
        } else if let Some(e) = last_leaf(front) {
            let i = choose|i: int|
                0 <= i < front.len() && #[trigger] front[i] == e && e.kind is Leaf && forall|
                    j: int,
                |
                    i < j < front.len() ==> !((#[trigger] front[j]).kind is Leaf);
            assert(entries[i] == e);
        }
    }
}

proof fn lemma_last_message(entries: Seq<EntryView>)
    ensures
        match last_message(entries) {
            Some(e) => exists|i: int|
                0 <= i < entries.len() && #[trigger] entries[i] == e && e.kind is Message
                    && forall|j: int|
                    i < j < entries.len() ==> !((#[trigger] entries[j]).kind is Message),
            None => forall|i: int|
                0 <= i < entries.len() ==> !((#[trigger] entries[i]).kind is Message),
        },
    decreases entries.len(),
{
    if entries.len() > 0 {
        let front = entries.drop_last();
        lemma_last_message(front);
        assert(forall|j: int| 0 <= j < front.len() ==> front[j] == #[trigger] entries[j]);
        if entries.last().kind is Message {
            assert(entries[entries.len() - 1].kind is Message);
        } else if let Some(e) = last_message(front) {
            let i = choose|i: int|
                0 <= i < front.len() && #[trigger] front[i] == e && e.kind is Message && forall|
                    j: int,
                |
                    i < j < front.len() ==> !((#[trigger] front[j]).kind is Message);
            assert(entries[i] == e);
        }
    }
}

/// The session that entries hold is what their first meta entry says, with all of them,
/// and goes on from the last leaf among them, or from its root where there is none.
/// Entries without a meta entry hold none.
pub proof fn law_session_of(entries: Seq<EntryView>)
    ensures
        match session_of(entries) {
            Ok(s) => {
                &&& s.entries == entries
                &&& exists|i: int|
                    0 <= i < entries.len() && (#[trigger] entries[i]).kind == (EntryKind::Meta {
                        session_id: s.session_id,
                        created_at: s.created_at,
                        model: s.model,
                    }) && forall|j: int| 0 <= j < i ==> !((#[trigger] entries[j]).kind is Meta)
                &&& forall|i: int|
                    0 <= i < entries.len() && (#[trigger] entries[i]).kind is Leaf && (forall|
                        j: int,
                    |
                        i < j < entries.len() ==> !((#[trigger] entries[j]).kind is Leaf))
                        ==> s.leaf_id == entries[i].id
                &&& (forall|i: int|
                    0 <= i < entries.len() ==> !((#[trigger] entries[i]).kind is Leaf))
                    ==> s.leaf_id == s.session_id
            },
            Err(_) => forall|i: int|
                0 <= i < entries.len() ==> !((#[trigger] entries[i]).kind is Meta),
        },
{
    lemma_first_meta(entries);
    lemma_last_leaf(entries);
    if let Ok(s) = session_of(entries) {
        let k = choose|k: int|
            0 <= k < entries.len() && #[trigger] entries[k] == first_meta(entries)->0 && forall|
                j: int,
            |
                0 <= j < k ==> !((#[trigger] entries[j]).kind is Meta);
        assert(entries[k].kind == (EntryKind::Meta {
            session_id: s.session_id,
            created_at: s.created_at,
            model: s.model,
        }));
        if let Some(leaf) = last_leaf(entries) {
            let m = choose|m: int|
                0 <= m < entries.len() && #[trigger] entries[m] == leaf && forall|j: int|
                    m < j < entries.len() ==> !((#[trigger] entries[j]).kind is Leaf);
            assert(entries[m].kind is Leaf);
        }
    }
}

/// Entries of the flat format are linked up: each message stands below the message
/// before it, and the first below the root. Nothing else of them is changed.
pub proof fn law_messages_are_linked(
    entries: Seq<EntryView>,
    root: Option<Seq<char>>,
    i: int,
)
    requires
        0 <= i < entries.len(),
    ensures
        ({
            let all = relinked(entries, root);
            &&& all.len() == entries.len()
            &&& all[i].id == entries[i].id
            &&& all[i].kind == entries[i].kind
            &&& !(entries[i].kind is Message) ==> all[i].parent_id == entries[i].parent_id
            &&& entries[i].kind is Message ==> {
                &&& (forall|j: int| 0 <= j < i ==> !((#[trigger] entries[j]).kind is Message))
                    ==> all[i].parent_id == root
                &&& forall|k: int|
                    0 <= k < i && (#[trigger] entries[k]).kind is Message && (forall|j: int|
                        k < j < i ==> !((#[trigger] entries[j]).kind is Message))
                        ==> all[i].parent_id == Some(entries[k].id)
            }
        }),
    decreases entries.len(),
{
    let front = entries.drop_last();
    let n = entries.len() - 1;
    lemma_relinked_len(entries, root);
    lemma_relinked_len(front, root);
    assert(forall|j: int| 0 <= j < n ==> front[j] == #[trigger] entries[j]);
    if i < n {
        law_messages_are_linked(front, root, i);
        assert(relinked(entries, root)[i] == relinked(front, root)[i]);
    } else {
        lemma_last_message(front);
        if let Some(m) = last_message(front) {
            let k = choose|k: int|
                0 <= k < front.len() && #[trigger] front[k] == m && m.kind is Message && forall|
                    j: int,
                |
                    k < j < front.len() ==> !((#[trigger] front[j]).kind is Message);
            assert(entries[k].kind is Message);
            assert forall|a: int|
                0 <= a < i && (#[trigger] entries[a]).kind is Message && (forall|j: int|
                    a < j < i ==> !((#[trigger] entries[j]).kind is Message)) implies relinked(
                entries,
                root,
            )[i].parent_id == Some(entries[a].id) || !(entries[i].kind is Message) by {
                if a < k {
                    assert(!(entries[k].kind is Message));
                } else if k < a {
                    assert(!(front[a].kind is Message));
                }
            }
        }
    }
}

proof fn lemma_relinked_len(entries: Seq<EntryView>, root: Option<Seq<char>>)
    ensures
        relinked(entries, root).len() == entries.len(),
    decreases entries.len(),
{
    if entries.len() > 0 {
        lemma_relinked_len(entries.drop_last(), root);
    }
}

/// A file of the flat format gets one more entry: a leaf on its last message, on its
/// meta entry where it has no message, and on the session where it has neither. A file
/// with no line of that format is taken as it is.
pub proof fn law_flat_files_get_a_leaf(
    session_id: Seq<char>,
    lines: Seq<LineView>,
    entries: Seq<EntryView>,
    leaf_id: Seq<char>,
)
    requires
        line_entries(session_id, lines) == Ok::<Seq<EntryView>, ErrorView>(entries),
    ensures
        (forall|i: int| 0 <= i < lines.len() ==> !((#[trigger] lines[i]) is Legacy)) ==> loaded(
            session_id,
            lines,
            leaf_id,
        ) == session_of(entries),
        (exists|i: int| 0 <= i < lines.len() && (#[trigger] lines[i]) is Legacy) ==> {
            let all = migrated(session_id, entries, leaf_id);
            &&& loaded(session_id, lines, leaf_id) == session_of(all)
            &&& all.len() == entries.len() + 1
            &&& all.last().id == leaf_id
            &&& all.last().parent_id is None
            &&& all.last().kind matches EntryKind::Leaf { target_id } && {
                &&& forall|i: int|
                    0 <= i < entries.len() && (#[trigger] entries[i]).kind is Message && (forall|
                        j: int,
                    |
                        i < j < entries.len() ==> !((#[trigger] entries[j]).kind is Message))
                        ==> target_id == entries[i].id
                &&& (forall|i: int|
                    0 <= i < entries.len() ==> !((#[trigger] entries[i]).kind is Message)
                        && !(entries[i].kind is Meta)) ==> target_id == session_id
            }
        },
{
    lemma_relinked_len(entries, crate::session_store::id_of(first_meta(entries)));
    lemma_last_message(entries);
    lemma_first_meta(entries);
    if let Some(m) = last_message(entries) {
        let k = choose|k: int|
            0 <= k < entries.len() && #[trigger] entries[k] == m && m.kind is Message && forall|
                j: int,
            |
                k < j < entries.len() ==> !((#[trigger] entries[j]).kind is Message);
        assert(entries[k].kind is Message);
    }
    if exists|i: int| 0 <= i < lines.len() && (#[trigger] lines[i]) is Legacy {
        assert(needs_migration(lines));
    }
}

// ---------------------------------------------------------------------------
// Listing
// ---------------------------------------------------------------------------

/// Messages are counted: those of two lists together are those of both, and of one
/// entry there is one exactly where it is a message.
pub proof fn law_message_count(a: Seq<EntryView>, b: Seq<EntryView>, e: EntryView)
    ensures
        message_count(a + b) == message_count(a) + message_count(b),
        message_count(seq![e]) == if e.kind is Message {
            1nat
        } else {
            0nat
        },
    decreases b.len(),
{
    assert(seq![e].drop_last() =~= seq![]);
    assert(message_count(seq![e].drop_last()) == 0);
    if b.len() == 0 {
        assert(a + b =~= a);
    } else {
        law_message_count(a, b.drop_last(), e);
        assert((a + b).drop_last() =~= a + b.drop_last());
        assert((a + b).last() == b.last());
    }
}

/// A summary tells what session it is of, how many messages that has, and how its
/// context ends: the text of the last message, cut after a hundred characters where it
/// is long. It tells no text where there is none.
pub proof fn law_summary_of(s: SessionView)
    ensures
        ({
            let messages = context_messages(session_context(s));
            let text = content_text(messages.last().content);
            &&& summary_of(s).session_id == s.session_id
            &&& summary_of(s).created_at == s.created_at
            &&& summary_of(s).model == s.model
            &&& summary_of(s).message_count == message_count(s.entries)
            &&& messages.len() == 0 ==> summary_of(s).last_message_preview is None
            &&& messages.len() > 0 && text.len() == 0 ==> summary_of(s).last_message_preview is None
            &&& messages.len() > 0 && 0 < text.len() && utf8_len(text) <= 100 ==> summary_of(
                s,
            ).last_message_preview == Some(text)
            &&& messages.len() > 0 && utf8_len(text) > 100 ==> (summary_of(
                s,
            ).last_message_preview matches Some(shown) && shown.len() >= 3 && shown.len() <= 103
                && shown.take(shown.len() - 3) == text.take(shown.len() - 3) && (shown.len() == 103
                || shown.len() == text.len() + 3))
        }),
{
    let messages = context_messages(session_context(s));
    let text = content_text(messages.last().content);
    reveal_strlit("...");
    if messages.len() > 0 && utf8_len(text) > 100 {
        let shown = preview(text)->0;
        assert(shown.take(shown.len() - 3) =~= text.take(shown.len() - 3));
    }
    if messages.len() > 0 && text.len() == 0 {
        assert(text =~= seq![]);
        assert(utf8_len(text) == 0);
    }
}

/// Times are in order: of two that differ one is earlier, and not both. The seconds
/// decide, and where they are the same, the parts of a second.
pub proof fn law_times_are_ordered(a: Timestamp, b: Timestamp, c: Timestamp)
    ensures
        !(earlier(a, b) && earlier(b, a)),
        !earlier(a, b) && !earlier(b, a) <==> a.seconds == b.seconds && a.nanos == b.nanos,
        earlier(a, b) && earlier(b, c) ==> earlier(a, c),
        a.seconds < b.seconds ==> earlier(a, b),
        a.seconds == b.seconds ==> (earlier(a, b) <==> a.nanos < b.nanos),
{
}

/// A session that is put in the list stands behind all that are as new or newer and
/// stood before it, and the others stay in their order.
pub proof fn law_summary_is_put_in_its_place(
    summaries: Seq<crate::session_store::SummaryView>,
    s: crate::session_store::SummaryView,
) -> (at: int)
    ensures
        0 <= at <= summaries.len(),
        with_summary(summaries, s) == summaries.take(at) + seq![s] + summaries.skip(at),
        forall|i: int|
            0 <= i < at ==> !earlier((#[trigger] summaries[i]).created_at, s.created_at),
        at < summaries.len() ==> earlier(summaries[at].created_at, s.created_at),
    decreases summaries.len(),
{
    let all = with_summary(summaries, s);
    if summaries.len() == 0 || earlier(summaries[0].created_at, s.created_at) {
        assert(all =~= summaries.take(0) + seq![s] + summaries.skip(0));
        0
    } else {
        let rest = summaries.skip(1);
        let at = law_summary_is_put_in_its_place(rest, s);
        assert(forall|i: int| 0 < i < summaries.len() ==> rest[i - 1] == #[trigger] summaries[i]);
        assert(all =~= summaries.take(at + 1) + seq![s] + summaries.skip(at + 1));
        at + 1
    }
}

/// A session that cannot be read is left out of the list, and each other is in it.
pub proof fn law_unreadable_sessions_are_left_out(sessions: Seq<Option<SessionView>>)
    requires
        sessions.len() > 0,
    ensures
        sessions.last() is None ==> listed(sessions) == listed(sessions.drop_last()),
        sessions.last() matches Some(s) ==> listed(sessions).len() == listed(
            sessions.drop_last(),
        ).len() + 1 && listed(sessions).contains(summary_of(s)),
{
    if let Some(s) = sessions.last() {
        let before = listed(sessions.drop_last());
        let at = law_summary_is_put_in_its_place(before, summary_of(s));
        assert(listed(sessions)[at] == summary_of(s));
    }
}

// ---------------------------------------------------------------------------
// File names
// ---------------------------------------------------------------------------

/// A text that names a session has no dot at its front and no two in a row, so that it
/// leads to no other directory.
pub proof fn law_session_names(id: Seq<char>)
    ensures
        valid_session_id(id) <==> {
            &&& id.len() > 0
            &&& id[0] != '.'
            &&& forall|i: int| 0 <= i < id.len() - 1 ==> !(#[trigger] id[i] == '.' && id[i + 1] == '.')
            &&& forall|i: int|
                0 <= i < id.len() ==> crate::session_store::alphanumeric(#[trigger] id[i]) || id[i]
                    == '-' || id[i] == '.'
        },
{
    reveal_strlit("..");
    reveal_strlit(".");
    reveal(contains);
    if id.len() > 0 {
        assert(starts_with(id, "."@) == (id[0] == '.')) by {
            assert(id.subrange(0, 1)[0] == id[0]);
            if id[0] == '.' {
                assert(id.subrange(0, 1) =~= "."@);
            }
        }
    }
    if contains(id, ".."@) {
        let at = choose|at: int| occurs_at(id, ".."@, at);
        assert(id.subrange(at, at + 2)[0] == id[at] && id.subrange(at, at + 2)[1] == id[at + 1]);
    }
    if exists|i: int| 0 <= i < id.len() - 1 && #[trigger] id[i] == '.' && id[i + 1] == '.' {
        let i = choose|i: int| 0 <= i < id.len() - 1 && #[trigger] id[i] == '.' && id[i + 1] == '.';
        assert(id.subrange(i, i + 2) =~= ".."@);
        assert(occurs_at(id, ".."@, i));
    }
}

/// A name in a directory is the directory, a slash where it has none at its end, and the
/// name.
pub proof fn law_path_in(dir: Seq<char>, name: Seq<char>)
    ensures
        dir.len() > 0 ==> path_in(dir + seq!['/'], name) == dir + seq!['/'] + name,
        dir.len() > 0 && dir.last() != '/' ==> path_in(dir, name) == dir + seq!['/'] + name,
        dir.len() == 0 ==> path_in(dir, name) == name,
{
    reveal_strlit("/");
    assert("/"@ =~= seq!['/']);
    if dir.len() == 0 {
        assert(path_in(dir, name) =~= name);
    }
}

} // verus!
