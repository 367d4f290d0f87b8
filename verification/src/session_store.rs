//! Session files: their names, their lines, and the sessions they hold.
//!
//! A session is stored as one file, with one entry on each line. Files of the
//! older flat format, whose lines have no entry IDs, are migrated as they are
//! read.

use vstd::prelude::*;

use crate::error::{ErrorView, IoError, IoErrorKind, PiError};
use crate::json::{field, parse_json, parsed_json, text_of, Json, JsonView};
use crate::session::{
    context_messages, is_id_text, session_context, EntryKind, EntryView, Session, SessionEntry, SessionView,
    Timestamp,
};
use crate::text::{
    chars_of, contains, contains_text, index_of, join, join_text, lemma_index_of, occurs_at, same_text,
    starts_with, string_between, trim, trimmed,
};
use crate::types::{content_text, extract_text, Message, MessageView};

verus! {

// ---------------------------------------------------------------------------
// File names
// ---------------------------------------------------------------------------

/// Whether `char::is_alphanumeric` holds of a character.
pub uninterp spec fn alphanumeric(c: char) -> bool;

/// An ASCII letter or digit.
pub open spec fn ascii_alphanumeric(c: char) -> bool {
    ('0' <= c <= '9') || ('A' <= c <= 'Z') || ('a' <= c <= 'z')
}

/// `char::is_alphanumeric`, which depends on the character alone. Of the ASCII
/// characters, it holds of the letters and the digits.
#[verifier::external_body]
fn is_alphanumeric(c: char) -> (r: bool)
    ensures
        r == alphanumeric(c),
        c < '\u{80}' ==> r == ascii_alphanumeric(c),
{
    c.is_alphanumeric()
}

/// A text that names a session: letters, digits, hyphens and dots, at least
/// one character, no dot at the front, and no two dots in a row.
pub open spec fn valid_session_id(id: Seq<char>) -> bool {
    &&& id.len() > 0
    &&& !contains(id, ".."@)
    &&& !starts_with(id, "."@)
    &&& forall|i: int|
        0 <= i < id.len() ==> alphanumeric(#[trigger] id[i]) || id[i] == '-' || id[i] == '.'
}

/// The error for a text that names no session.
pub open spec fn invalid_session_id(id: Seq<char>) -> ErrorView {
    ErrorView::Io {
        kind: IoErrorKind::InvalidInput,
        message: "Invalid session_id '"@ + id
            + "': must be non-empty, alphanumeric with hyphens/dots, no path traversal, and cannot start with '.'"@,
    }
}

/// A name within a directory.
pub open spec fn path_in(dir: Seq<char>, name: Seq<char>) -> Seq<char> {
    if dir.len() == 0 || dir.last() == '/' {
        dir + name
    } else {
        dir + "/"@ + name
    }
}

/// Manages session persistence.
#[derive(Debug)]
pub struct SessionManager {
    /// Directory where sessions are stored.
    pub sessions_dir: String,
}

impl SessionManager {
    /// Create a new session manager with a custom directory.
    pub fn with_dir(sessions_dir: String) -> (r: Self)
        ensures
            r.sessions_dir == sessions_dir,
    {
        SessionManager { sessions_dir }
    }

    /// Get the path for a session file.
    pub fn session_path(&self, session_id: &str) -> (r: Result<String, PiError>)
        ensures
            match r {
                Ok(path) => valid_session_id(session_id@) && path@ == path_in(
                    self.sessions_dir@,
                    session_id@ + ".jsonl"@,
                ),
                Err(e) => !valid_session_id(session_id@) && e.deep_view() == invalid_session_id(
                    session_id@,
                ),
            },
    {
        if !is_session_id(session_id) {
            let mut message: String = String::new();
            message.push_str("Invalid session_id '");
            message.push_str(session_id);
            message.push_str(
                "': must be non-empty, alphanumeric with hyphens/dots, no path traversal, and cannot start with '.'",
            );
            return Err(PiError::Io(IoError { kind: IoErrorKind::InvalidInput, message }));
        }
        let chars: Vec<char> = chars_of(&self.sessions_dir);
        let mut path: String = self.sessions_dir.clone();
        if chars.len() > 0 && chars[chars.len() - 1] != '/' {
            path.push_str("/");
        }
        path.push_str(session_id);
        path.push_str(".jsonl");
        assert(path@ =~= path_in(self.sessions_dir@, session_id@ + ".jsonl"@));
        Ok(path)
    }
}

/// Whether a text names a session.
///
/// Every entry ID names a session, and no name of a session holds a path
/// separator.
pub fn is_session_id(session_id: &str) -> (r: bool)
    ensures
        r == valid_session_id(session_id@),
        is_id_text(session_id@) ==> r,
        r ==> !session_id@.contains('/') && !session_id@.contains('\\'),
{
    let chars: Vec<char> = chars_of(session_id);
    if chars.len() == 0 || contains_text(session_id, "..") {
        proof {
            reveal_strlit("..");
            reveal(contains);
            if contains(session_id@, ".."@) {
                let at = choose|at: int| occurs_at(session_id@, ".."@, at);
                assert(session_id@[at] == session_id@.subrange(at, at + 2)[0]);
                assert(session_id@[at] == '.');
            }
        }
        return false;
    }
    proof {
        reveal_strlit(".");
        assert(starts_with(session_id@, "."@) == (session_id@[0] == '.')) by {
            assert("."@ =~= seq!['.']);
            assert(session_id@.subrange(0, 1)[0] == session_id@[0]);
            if session_id@[0] == '.' {
                assert(session_id@.subrange(0, 1) =~= "."@);
            }
        }
    }
    if chars[0] == '.' {
        return false;
    }
    let mut i: usize = 0;
    while i < chars.len()
        invariant
            chars@ == session_id@,
            i <= chars@.len(),
            forall|j: int|
                0 <= j < i ==> alphanumeric(#[trigger] session_id@[j]) || session_id@[j] == '-'
                    || session_id@[j] == '.',
            forall|j: int|
                0 <= j < i ==> (#[trigger] session_id@[j]) != '/' && session_id@[j] != '\\',
        decreases chars@.len() - i,
    {
        let c: char = chars[i];
        if !is_alphanumeric(c) && c != '-' && c != '.' {
            assert(!(alphanumeric(session_id@[i as int]) || session_id@[i as int] == '-'
                || session_id@[i as int] == '.'));
            return false;
        }
        i = i + 1;
    }
    true
}

// ---------------------------------------------------------------------------
// Lines
// ---------------------------------------------------------------------------

/// A line without white space at its ends, where anything is left of it.
pub open spec fn kept_line(line: Seq<char>) -> Seq<Seq<char>> {
    if trimmed(line).len() == 0 {
        seq![]
    } else {
        seq![trimmed(line)]
    }
}

/// The lines of a file that hold an entry.
pub open spec fn file_lines(content: Seq<char>) -> Seq<Seq<char>>
    decreases content.len(),
    via file_lines_shorter
{
    match index_of(content, '\n') {
        None => kept_line(content),
        Some(i) => kept_line(content.take(i)) + file_lines(content.skip(i + 1)),
    }
}

#[via_fn]
proof fn file_lines_shorter(content: Seq<char>) {
    lemma_index_of(content, '\n');
}

/// Split the content of a session file into the lines that hold an entry.
pub fn session_lines(content: &str) -> (r: Vec<String>)
    ensures
        r.deep_view() == file_lines(content@),
{
    let chars: Vec<char> = chars_of(content);
    let mut lines: Vec<String> = Vec::new();
    let mut start: usize = 0;
    let mut i: usize = 0;
    assert(content@.skip(0) == content@);
    assert(lines.deep_view() + file_lines(content@) =~= file_lines(content@));
    while i < chars.len()
        invariant
            chars@ == content@,
            start <= i <= chars@.len(),
            forall|j: int| start <= j < i ==> chars@[j] != '\n',
            file_lines(content@) == lines.deep_view() + file_lines(content@.skip(start as int)),
        decreases chars@.len() - i,
    {
        if chars[i] == '\n' {
            let ghost rest = content@.skip(start as int);
            proof {
                lemma_index_of(rest, '\n');
                assert(rest[i - start] == '\n');
                assert forall|j: int| 0 <= j < i - start implies rest[j] != '\n' by {
                    assert(rest[j] == chars@[start + j]);
                }
                assert(index_of(rest, '\n') == Some(i - start));
                assert(rest.skip(i - start + 1) == content@.skip(i + 1));
                assert(rest.take(i - start) == content@.subrange(start as int, i as int));
            }
            let line: String = trim(&string_between(&chars, start, i));
            let ghost before = lines.deep_view();
            if !line.as_str().is_empty() {
                lines.push(line);
                assert(lines.deep_view() =~= before.push(line@));
            }
            start = i + 1;
            assert(file_lines(content@) =~= lines.deep_view() + file_lines(
                content@.skip(start as int),
            ));
        }
        i = i + 1;
    }
    let ghost rest = content@.skip(start as int);
    proof {
        lemma_index_of(rest, '\n');
        assert forall|j: int| 0 <= j < rest.len() implies rest[j] != '\n' by {
            assert(rest[j] == chars@[start + j]);
        }
        assert(rest == content@.subrange(start as int, content@.len() as int));
    }
    let line: String = trim(&string_between(&chars, start, chars.len()));
    let ghost before = lines.deep_view();
    if !line.as_str().is_empty() {
        lines.push(line);
        assert(lines.deep_view() =~= before.push(line@));
    }
    assert(lines.deep_view() =~= file_lines(content@));
    lines
}

/// The content of a session file that holds the given lines.
pub open spec fn file_content(lines: Seq<Seq<char>>) -> Seq<char> {
    join(lines, "\n"@) + "\n"@
}

/// Put the lines of a session file together.
pub fn session_text(lines: &Vec<String>) -> (r: String)
    ensures
        r@ == file_content(lines.deep_view()),
{
    let mut r: String = join_text(lines, "\n");
    r.push_str("\n");
    r
}

/// A line that a session file can hold as it is: it is not empty, holds no line
/// break, and neither begins nor ends with white space.
pub open spec fn is_plain_line(line: Seq<char>) -> bool {
    &&& line.len() > 0
    &&& trimmed(line) == line
    &&& forall|i: int| 0 <= i < line.len() ==> line[i] != '\n'
}

/// Lines with a line break after each.
spec fn terminated(lines: Seq<Seq<char>>) -> Seq<char>
    decreases lines.len(),
{
    if lines.len() == 0 {
        seq![]
    } else {
        lines[0] + seq!['\n'] + terminated(lines.skip(1))
    }
}

proof fn lemma_terminated_push(lines: Seq<Seq<char>>, line: Seq<char>)
    ensures
        terminated(lines.push(line)) == terminated(lines) + line + seq!['\n'],
    decreases lines.len(),
{
    if lines.len() == 0 {
        assert(lines.push(line).skip(1) =~= lines);
        assert(terminated(lines.push(line)) =~= line + seq!['\n']);
    } else {
        assert(lines.push(line).skip(1) =~= lines.skip(1).push(line));
        lemma_terminated_push(lines.skip(1), line);
        assert(lines.push(line)[0] == lines[0]);
        assert(terminated(lines.push(line)) =~= terminated(lines) + line + seq!['\n']);
    }
}

proof fn lemma_content_terminated(lines: Seq<Seq<char>>)
    requires
        lines.len() > 0,
    ensures
        file_content(lines) == terminated(lines),
    decreases lines.len(),
{
    reveal_strlit("\n");
    assert("\n"@ =~= seq!['\n']);
    lemma_terminated_push(lines.drop_last(), lines.last());
    assert(lines.drop_last().push(lines.last()) =~= lines);
    if lines.len() == 1 {
        assert(lines.drop_last() =~= seq![]);
        assert(terminated(lines.drop_last()) =~= seq![]);
        assert(file_content(lines) =~= terminated(lines));
    } else {
        lemma_content_terminated(lines.drop_last());
        assert(file_content(lines) =~= terminated(lines));
    }
}

proof fn lemma_terminated_lines(lines: Seq<Seq<char>>)
    requires
        forall|i: int| 0 <= i < lines.len() ==> is_plain_line(#[trigger] lines[i]),
    ensures
        file_lines(terminated(lines)) == lines,
    decreases lines.len(),
{
    let content = terminated(lines);
    lemma_index_of(content, '\n');
    if lines.len() == 0 {
        assert(trimmed(content) =~= content);
        assert(file_lines(content) =~= lines);
    } else {
        let line = lines[0];
        let n = line.len() as int;
        assert(is_plain_line(lines[0]));
        assert(content[n] == '\n');
        assert forall|j: int| 0 <= j < n implies content[j] != '\n' by {
            assert(content[j] == line[j]);
        }
        assert(index_of(content, '\n') == Some(n));
        assert(content.take(n) =~= line);
        assert(content.skip(n + 1) =~= terminated(lines.skip(1)));
        assert forall|i: int| 0 <= i < lines.skip(1).len() implies is_plain_line(
            #[trigger] lines.skip(1)[i],
        ) by {
            assert(lines.skip(1)[i] == lines[i + 1]);
        }
        lemma_terminated_lines(lines.skip(1));
        assert(file_lines(content) =~= lines);
    }
}

/// Lines that are written to a session file are read back from it as they were.
pub proof fn law_lines_round_trip(lines: Seq<Seq<char>>)
    requires
        forall|i: int| 0 <= i < lines.len() ==> is_plain_line(#[trigger] lines[i]),
    ensures
        file_lines(file_content(lines)) == lines,
{
    if lines.len() > 0 {
        lemma_content_terminated(lines);
        lemma_terminated_lines(lines);
    } else {
        reveal_strlit("\n");
        let content = file_content(lines);
        assert(content =~= seq!['\n']);
        lemma_index_of(content, '\n');
        assert(index_of(content, '\n') == Some(0int));
        assert(content.take(0) =~= seq![]);
        assert(content.skip(1) =~= seq![]);
        lemma_index_of(content.skip(1), '\n');
        assert(file_lines(content.skip(1)) =~= seq![]);
        assert(file_lines(content) =~= lines);
    }
}


// ---------------------------------------------------------------------------
// Reading sessions
// ---------------------------------------------------------------------------

/// What a line of a session file was found to hold.
#[derive(Debug)]
pub enum LineContent {
    /// An entry of the tree-structured format.
    Entry(SessionEntry),
    /// A line of the flat format.
    Legacy(LegacyLine),
    /// Text that is no JSON, with the message of the error.
    Malformed(String),
}

/// A line of the flat format: its JSON value, and what its parts were found to
/// hold.
#[derive(Debug)]
pub struct LegacyLine {
    /// The value of the line.
    pub value: Json,
    /// The creation time that the line holds, or the message of the error.
    pub created_at: Result<Timestamp, String>,
    /// The message that the line holds, or the message of the error.
    pub message: Result<Message, String>,
    /// The ID for the entry, where it is a message.
    pub id: String,
}

/// What the content of a line holds.
pub enum LineView {
    Entry(EntryView),
    Legacy(LegacyView),
    Malformed(Seq<char>),
}

/// What a line of the flat format holds.
pub struct LegacyView {
    pub value: JsonView,
    pub created_at: Result<Timestamp, Seq<char>>,
    pub message: Result<MessageView, Seq<char>>,
    pub id: Seq<char>,
}

impl DeepView for LegacyLine {
    type V = LegacyView;

    open spec fn deep_view(&self) -> LegacyView {
        LegacyView {
            value: self.value.deep_view(),
            created_at: match self.created_at {
                Ok(t) => Ok(t),
                Err(e) => Err(e@),
            },
            message: match self.message {
                Ok(m) => Ok(m.deep_view()),
                Err(e) => Err(e@),
            },
            id: self.id@,
        }
    }
}

impl DeepView for LineContent {
    type V = LineView;

    open spec fn deep_view(&self) -> LineView {
        match *self {
            LineContent::Entry(e) => LineView::Entry(e.deep_view()),
            LineContent::Legacy(l) => LineView::Legacy(l.deep_view()),
            LineContent::Malformed(e) => LineView::Malformed(e@),
        }
    }
}

/// A line that is no entry of the tree-structured format: its value, where it
/// is JSON at all.
pub fn read_legacy_line(
    text: &str,
    created_at: Result<Timestamp, String>,
    message: Result<Message, String>,
    id: String,
) -> (r: LineContent)
    ensures
        match parsed_json(text@) {
            Ok(value) => {
                &&& r matches LineContent::Legacy(l)
                &&& l.value.deep_view() == value
                &&& l.created_at == created_at
                &&& l.message == message
                &&& l.id == id
            },
            Err(e) => r.deep_view() == LineView::Malformed(e),
        },
{
    match parse_json(text) {
        Ok(value) => LineContent::Legacy(LegacyLine { value, created_at, message, id }),
        Err(e) => LineContent::Malformed(e),
    }
}

/// A text of a value's member, or another text where it has none.
pub open spec fn text_or(value: JsonView, name: Seq<char>, other: Seq<char>) -> Seq<char> {
    match text_of(field(value, name)) {
        Some(t) => t,
        None => other,
    }
}

/// The entry for a line of the flat format. A meta entry has the ID of the session,
/// a message the one that it is given.
pub open spec fn legacy_entry(session_id: Seq<char>, line: LegacyView) -> Result<
    EntryView,
    ErrorView,
> {
    let kind = text_or(line.value, "type"@, seq![]);
    if kind == "meta"@ {
        match line.created_at {
            Ok(created_at) => Ok(
                EntryView {
                    id: text_or(line.value, "session_id"@, session_id),
                    parent_id: None,
                    kind: EntryKind::Meta {
                        session_id: text_or(line.value, "session_id"@, session_id),
                        created_at,
                        model: text_or(line.value, "model"@, "unknown"@),
                    },
                },
            ),
            Err(e) => Err(ErrorView::Serialization(e)),
        }
    } else if kind == "message"@ {
        match line.message {
            Ok(message) => Ok(
                EntryView { id: line.id, parent_id: None, kind: EntryKind::Message { message } },
            ),
            Err(e) => Err(ErrorView::Serialization(e)),
        }
    } else {
        Err(
            ErrorView::Io {
                kind: IoErrorKind::InvalidData,
                message: "Unknown legacy entry type: "@ + kind,
            },
        )
    }
}

/// The entry for a line.
pub open spec fn line_entry(session_id: Seq<char>, line: LineView) -> Result<EntryView, ErrorView> {
    match line {
        LineView::Entry(e) => Ok(e),
        LineView::Legacy(l) => legacy_entry(session_id, l),
        LineView::Malformed(e) => Err(ErrorView::Serialization(e)),
    }
}

/// The entries for lines, or the error of the first line that has none.
pub open spec fn line_entries(session_id: Seq<char>, lines: Seq<LineView>) -> Result<
    Seq<EntryView>,
    ErrorView,
>
    decreases lines.len(),
{
    if lines.len() == 0 {
        Ok(seq![])
    } else {
        match line_entries(session_id, lines.drop_last()) {
            Err(e) => Err(e),
            Ok(entries) => match line_entry(session_id, lines.last()) {
                Err(e) => Err(e),
                Ok(entry) => Ok(entries.push(entry)),
            },
        }
    }
}

/// The first meta entry.
pub open spec fn first_meta(entries: Seq<EntryView>) -> Option<EntryView>
    decreases entries.len(),
{
    if entries.len() == 0 {
        None
    } else if entries[0].kind is Meta {
        Some(entries[0])
    } else {
        first_meta(entries.skip(1))
    }
}

/// The last leaf entry.
pub open spec fn last_leaf(entries: Seq<EntryView>) -> Option<EntryView>
    decreases entries.len(),
{
    if entries.len() == 0 {
        None
    } else if entries.last().kind is Leaf {
        Some(entries.last())
    } else {
        last_leaf(entries.drop_last())
    }
}

/// The last message entry.
pub open spec fn last_message(entries: Seq<EntryView>) -> Option<EntryView>
    decreases entries.len(),
{
    if entries.len() == 0 {
        None
    } else if entries.last().kind is Message {
        Some(entries.last())
    } else {
        last_message(entries.drop_last())
    }
}

/// The ID of an entry, where there is one.
pub open spec fn id_of(entry: Option<EntryView>) -> Option<Seq<char>> {
    match entry {
        Some(e) => Some(e.id),
        None => None,
    }
}

/// Entries with each message below the message before it, and the first one
/// below `root`.
pub open spec fn relinked(entries: Seq<EntryView>, root: Option<Seq<char>>) -> Seq<EntryView>
    decreases entries.len(),
{
    if entries.len() == 0 {
        seq![]
    } else {
        let front = entries.drop_last();
        let entry = if entries.last().kind is Message {
            EntryView {
                parent_id: match last_message(front) {
                    Some(m) => Some(m.id),
                    None => root,
                },
                ..entries.last()
            }
        } else {
            entries.last()
        };
        relinked(front, root).push(entry)
    }
}

/// The entries of a file of the flat format, linked up, with a leaf on the last
/// message: on the meta entry where there is no message, and on the session
/// itself where there is neither.
pub open spec fn migrated(
    session_id: Seq<char>,
    entries: Seq<EntryView>,
    leaf_id: Seq<char>,
) -> Seq<EntryView> {
    let root = id_of(first_meta(entries));
    let target = match (last_message(entries), root) {
        (Some(m), _) => m.id,
        (None, Some(id)) => id,
        (None, None) => session_id,
    };
    relinked(entries, root).push(
        EntryView { id: leaf_id, parent_id: None, kind: EntryKind::Leaf { target_id: target } },
    )
}

/// The error for a session file without a meta entry.
pub open spec fn missing_metadata() -> ErrorView {
    ErrorView::Io { kind: IoErrorKind::InvalidData, message: "Session file missing metadata"@ }
}

/// The session that a list of entries holds.
pub open spec fn session_of(entries: Seq<EntryView>) -> Result<SessionView, ErrorView> {
    match first_meta(entries) {
        Some(EntryView { kind: EntryKind::Meta { session_id, created_at, model }, .. }) => Ok(
            SessionView {
                session_id,
                created_at,
                model,
                entries,
                leaf_id: match last_leaf(entries) {
                    Some(leaf) => leaf.id,
                    None => session_id,
                },
                metadata: seq![],
            },
        ),
        _ => Err(missing_metadata()),
    }
}

/// Some line is of the flat format.
pub open spec fn needs_migration(lines: Seq<LineView>) -> bool {
    exists|i: int| 0 <= i < lines.len() && (#[trigger] lines[i]) is Legacy
}

/// The session that the lines of a file hold.
pub open spec fn loaded(
    session_id: Seq<char>,
    lines: Seq<LineView>,
    leaf_id: Seq<char>,
) -> Result<SessionView, ErrorView> {
    match line_entries(session_id, lines) {
        Err(e) => Err(e),
        Ok(entries) => session_of(
            if needs_migration(lines) {
                migrated(session_id, entries, leaf_id)
            } else {
                entries
            },
        ),
    }
}

/// What a result of reading holds.
pub open spec fn session_result(r: Result<Session, PiError>) -> Result<SessionView, ErrorView> {
    match r {
        Ok(s) => Ok(s.deep_view()),
        Err(e) => Err(e.deep_view()),
    }
}

/// A text of a value's member, or another text where it has none.
fn member_text_or(value: &Json, name: &str, other: &str) -> (r: String)
    ensures
        r@ == text_or(value.deep_view(), name@, other@),
{
    match value.get(name) {
        Some(member) => match member.as_str() {
            Some(t) => t.to_owned(),
            None => other.to_owned(),
        },
        None => other.to_owned(),
    }
}

/// The entry for a line of the flat format.
fn read_legacy_entry(session_id: &str, line: LegacyLine) -> (r: Result<SessionEntry, PiError>)
    ensures
        match r {
            Ok(e) => legacy_entry(session_id@, line.deep_view()) == Ok::<EntryView, ErrorView>(
                e.deep_view(),
            ),
            Err(e) => legacy_entry(session_id@, line.deep_view()) == Err::<EntryView, ErrorView>(
                e.deep_view(),
            ),
        },
{
    let ghost view = line.deep_view();
    let kind: String = member_text_or(&line.value, "type", "");
    proof {
        reveal_strlit("");
        assert(""@ =~= seq![]);
    }
    if same_text(&kind, "meta") {
        match line.created_at {
            Ok(created_at) => Ok(
                SessionEntry::Meta {
                    id: member_text_or(&line.value, "session_id", session_id),
                    parent_id: None,
                    session_id: member_text_or(&line.value, "session_id", session_id),
                    created_at,
                    model: member_text_or(&line.value, "model", "unknown"),
                },
            ),
            Err(e) => Err(PiError::Serialization(e)),
        }
    } else if same_text(&kind, "message") {
        match line.message {
            Ok(message) => Ok(SessionEntry::Message { id: line.id, parent_id: None, message }),
            Err(e) => Err(PiError::Serialization(e)),
        }
    } else {
        let mut message: String = String::new();
        message.push_str("Unknown legacy entry type: ");
        message.push_str(&kind);
        Err(PiError::Io(IoError { kind: IoErrorKind::InvalidData, message }))
    }
}

proof fn lemma_error_stays(session_id: Seq<char>, lines: Seq<LineView>, n: int)
    requires
        0 <= n <= lines.len(),
        line_entries(session_id, lines.take(n)) is Err,
    ensures
        line_entries(session_id, lines) == line_entries(session_id, lines.take(n)),
    decreases lines.len() - n,
{
    if n < lines.len() {
        assert(lines.take(n + 1).drop_last() =~= lines.take(n));
        lemma_error_stays(session_id, lines, n + 1);
    } else {
        assert(lines.take(n) =~= lines);
    }
}

/// The entries for lines, or the error of the first line that has none.
fn read_entries(session_id: &str, lines: Vec<LineContent>) -> (r: Result<
    Vec<SessionEntry>,
    PiError,
>)
    ensures
        match r {
            Ok(es) => line_entries(session_id@, lines.deep_view()) == Ok::<
                Seq<EntryView>,
                ErrorView,
            >(es.deep_view()),
            Err(e) => line_entries(session_id@, lines.deep_view()) == Err::<
                Seq<EntryView>,
                ErrorView,
            >(e.deep_view()),
        },
{
    let ghost all = lines.deep_view();
    let mut entries: Vec<SessionEntry> = Vec::new();
    assert(entries.deep_view() =~= seq![]);
    assert(all.take(0) =~= seq![]);
    for line in it: lines.into_iter()
        invariant
            it.seq() == lines@,
            all == lines.deep_view(),
            line_entries(session_id@, all.take(it.index() as int)) == Ok::<
                Seq<EntryView>,
                ErrorView,
            >(entries.deep_view()),
    {
        let ghost i = it.index() as int;
        let ghost before = entries.deep_view();
        assert(line == lines@[i]);
        assert(all.take(i + 1).drop_last() =~= all.take(i));
        assert(all.take(i + 1).last() == line.deep_view());
        let read: Result<SessionEntry, PiError> = match line {
            LineContent::Entry(entry) => Ok(entry),
            LineContent::Legacy(legacy) => read_legacy_entry(session_id, legacy),
            LineContent::Malformed(e) => Err(PiError::Serialization(e)),
        };
        match read {
            Ok(entry) => {
                entries.push(entry);
                assert(entries.deep_view() =~= before.push(entry.deep_view()));
            },
            Err(e) => {
                proof {
                    lemma_error_stays(session_id@, all, i + 1);
                }
                return Err(e);
            },
        }
    }
    assert(all.take(all.len() as int) =~= all);
    Ok(entries)
}


/// The ID of the first meta entry.
fn first_meta_index(entries: &Vec<SessionEntry>) -> (r: Option<usize>)
    ensures
        match r {
            Some(i) => i < entries@.len() && first_meta(entries.deep_view()) == Some(
                entries@[i as int].deep_view(),
            ) && entries@[i as int] is Meta,
            None => first_meta(entries.deep_view()) is None,
        },
{
    let ghost all = entries.deep_view();
    let mut i: usize = 0;
    assert(all.skip(0) =~= all);
    while i < entries.len()
        invariant
            all == entries.deep_view(),
            i <= entries@.len(),
            first_meta(all.skip(i as int)) == first_meta(all),
        decreases entries@.len() - i,
    {
        assert(all.skip(i as int)[0] == all[i as int]);
        assert(all.skip(i as int).skip(1) =~= all.skip(i + 1));
        if let SessionEntry::Meta { .. } = &entries[i] {
            return Some(i);
        }
        i = i + 1;
    }
    None
}

/// The ID of the last leaf entry.
fn last_leaf_id(entries: &Vec<SessionEntry>) -> (r: Option<String>)
    ensures
        r.deep_view() == id_of(last_leaf(entries.deep_view())),
{
    let ghost all = entries.deep_view();
    let mut i: usize = entries.len();
    assert(all.take(all.len() as int) =~= all);
    while i > 0
        invariant
            all == entries.deep_view(),
            i <= entries@.len(),
            last_leaf(all.take(i as int)) == last_leaf(all),
        decreases i,
    {
        i = i - 1;
        assert(all.take(i + 1).drop_last() =~= all.take(i as int));
        assert(all.take(i + 1).last() == all[i as int]);
        if let SessionEntry::Leaf { id, .. } = &entries[i] {
            return Some(id.clone());
        }
    }
    None
}

/// Link up the entries of a file of the flat format, and add a leaf.
fn migrate(session_id: &str, entries: Vec<SessionEntry>, leaf_id: String) -> (r: Vec<SessionEntry>)
    ensures
        r.deep_view() == migrated(session_id@, entries.deep_view(), leaf_id@),
{
    let ghost all = entries.deep_view();
    let root: Option<String> = match first_meta_index(&entries) {
        Some(i) => Some(entries[i].id().to_owned()),
        None => None,
    };
    let ghost root_view = root.deep_view();
    assert(root_view == id_of(first_meta(all)));
    let mut previous: Option<String> = None;
    let mut linked: Vec<SessionEntry> = Vec::new();
    assert(all.take(0) =~= seq![]);
    assert(linked.deep_view() =~= seq![]);
    for entry in it: entries.into_iter()
        invariant
            it.seq() == entries@,
            all == entries.deep_view(),
            root_view == root.deep_view(),
            previous.deep_view() == id_of(last_message(all.take(it.index() as int))),
            linked.deep_view() == relinked(all.take(it.index() as int), root_view),
    {
        let ghost i = it.index() as int;
        let ghost before = linked.deep_view();
        assert(entry == entries@[i]);
        assert(all.take(i + 1).drop_last() =~= all.take(i));
        assert(all.take(i + 1).last() == entry.deep_view());
        match entry {
            SessionEntry::Message { id, message, .. } => {
                let parent_id: Option<String> = match previous {
                    Some(p) => Some(p),
                    None => match &root {
                        Some(r) => Some(r.clone()),
                        None => None,
                    },
                };
                previous = Some(id.clone());
                linked.push(SessionEntry::Message { id, parent_id, message });
            },
            other => {
                linked.push(other);
            },
        }
        assert(linked.deep_view() =~= relinked(all.take(i + 1), root_view));
    }
    assert(all.take(all.len() as int) =~= all);
    let target_id: String = match previous {
        Some(id) => id,
        None => match root {
            Some(id) => id,
            None => session_id.to_owned(),
        },
    };
    let ghost before = linked.deep_view();
    let leaf: SessionEntry = SessionEntry::Leaf { id: leaf_id, parent_id: None, target_id };
    linked.push(leaf);
    assert(linked.deep_view() =~= before.push(leaf.deep_view()));
    linked
}

/// The session that a list of entries holds.
fn session_from_entries(entries: Vec<SessionEntry>) -> (r: Result<Session, PiError>)
    ensures
        session_result(r) == session_of(entries.deep_view()),
{
    let i: usize = match first_meta_index(&entries) {
        Some(i) => i,
        None => {
            return Err(
                PiError::Io(
                    IoError {
                        kind: IoErrorKind::InvalidData,
                        message: "Session file missing metadata".to_owned(),
                    },
                ),
            );
        },
    };
    if let SessionEntry::Meta { session_id, created_at, model, .. } = &entries[i] {
        let leaf_id: String = match last_leaf_id(&entries) {
            Some(id) => id,
            None => session_id.clone(),
        };
        let metadata: Vec<(String, Json)> = Vec::new();
        assert(metadata.deep_view() =~= seq![]);
        Ok(
            Session {
                session_id: session_id.clone(),
                created_at: *created_at,
                model: model.clone(),
                entries,
                leaf_id,
                metadata,
            },
        )
    } else {
        Err(
            PiError::Io(
                IoError {
                    kind: IoErrorKind::InvalidData,
                    message: "Session file missing metadata".to_owned(),
                },
            ),
        )
    }
}

/// Load a session from the lines of its file.
///
/// Handles both the tree-structured format and the older flat format. The leaf
/// of a migrated session gets the given ID.
pub fn load_session(session_id: &str, lines: Vec<LineContent>, leaf_id: String) -> (r: Result<
    Session,
    PiError,
>)
    ensures
        session_result(r) == loaded(session_id@, lines.deep_view(), leaf_id@),
{
    let ghost all = lines.deep_view();
    let mut migrate_entries: bool = false;
    let mut i: usize = 0;
    while i < lines.len()
        invariant
            all == lines.deep_view(),
            i <= lines@.len(),
            migrate_entries == exists|j: int| 0 <= j < i && (#[trigger] all[j]) is Legacy,
        decreases lines@.len() - i,
    {
        assert(all[i as int] == lines@[i as int].deep_view());
        if let LineContent::Legacy(_) = &lines[i] {
            assert(all[i as int] is Legacy);
            migrate_entries = true;
        }
        i = i + 1;
    }
    assert(migrate_entries == needs_migration(all));
    match read_entries(session_id, lines) {
        Err(e) => Err(e),
        Ok(entries) => if migrate_entries {
            session_from_entries(migrate(session_id, entries, leaf_id))
        } else {
            session_from_entries(entries)
        },
    }
}

// ---------------------------------------------------------------------------
// Listing sessions
// ---------------------------------------------------------------------------

/// Summary of a session for listing.
#[derive(Debug)]
pub struct SessionSummary {
    /// Session ID.
    pub session_id: String,
    /// When the session was created.
    pub created_at: Timestamp,
    /// Model used.
    pub model: String,
    /// Number of messages in the session.
    pub message_count: usize,
    /// Preview of the last message.
    pub last_message_preview: Option<String>,
}

/// What a summary holds.
pub struct SummaryView {
    pub session_id: Seq<char>,
    pub created_at: Timestamp,
    pub model: Seq<char>,
    pub message_count: nat,
    pub last_message_preview: Option<Seq<char>>,
}

impl DeepView for SessionSummary {
    type V = SummaryView;

    open spec fn deep_view(&self) -> SummaryView {
        SummaryView {
            session_id: self.session_id@,
            created_at: self.created_at,
            model: self.model@,
            message_count: self.message_count as nat,
            last_message_preview: self.last_message_preview.deep_view(),
        }
    }
}

/// The preview of a text: nothing of an empty one, up to a hundred characters
/// of one that is longer than a hundred bytes, and all of any other.
pub open spec fn preview(text: Seq<char>) -> Option<Seq<char>> {
    if vstd::utf8::encode_utf8(text).len() > 100 {
        Some(
            if text.len() > 100 {
                text.take(100)
            } else {
                text
            } + "..."@,
        )
    } else if text.len() == 0 {
        None
    } else {
        Some(text)
    }
}

/// The number of message entries.
pub open spec fn message_count(entries: Seq<EntryView>) -> nat
    decreases entries.len(),
{
    if entries.len() == 0 {
        0
    } else {
        message_count(entries.drop_last()) + if entries.last().kind is Message {
            1nat
        } else {
            0nat
        }
    }
}

/// The summary of a session.
pub open spec fn summary_of(s: SessionView) -> SummaryView {
    let messages = context_messages(session_context(s));
    SummaryView {
        session_id: s.session_id,
        created_at: s.created_at,
        model: s.model,
        message_count: message_count(s.entries),
        last_message_preview: if messages.len() == 0 {
            None
        } else {
            preview(content_text(messages.last().content))
        },
    }
}

/// The preview of a text.
pub fn text_preview(text: String) -> (r: Option<String>)
    ensures
        r.deep_view() == preview(text@),
{
    let bytes: usize = text.as_str().as_bytes().len();
    let chars: Vec<char> = chars_of(&text);
    if bytes > 100 {
        let end: usize = if chars.len() > 100 {
            100
        } else {
            chars.len()
        };
        let mut r: String = string_between(&chars, 0, end);
        r.push_str("...");
        assert(text@.len() > 100 ==> text@.take(100) =~= text@.subrange(0, 100));
        assert(text@.subrange(0, text@.len() as int) =~= text@);
        Some(r)
    } else if chars.len() == 0 {
        None
    } else {
        Some(text)
    }
}

/// Summarise a session for listing.
pub fn summarize_session(session: &Session) -> (r: SessionSummary)
    ensures
        r.deep_view() == summary_of(session.deep_view()),
{
    let context: Vec<Message> = session.build_context();
    let last_message_preview: Option<String> = if context.len() == 0 {
        None
    } else {
        let last: &Message = &context[context.len() - 1];
        assert(context.deep_view().last() == last.deep_view());
        text_preview(extract_text(&last.content))
    };
    let ghost all = session.entries.deep_view();
    let mut message_count: usize = 0;
    let mut i: usize = 0;
    assert(all.take(0) =~= seq![]);
    while i < session.entries.len()
        invariant
            all == session.entries.deep_view(),
            i <= session.entries@.len(),
            message_count <= i,
            message_count == self::message_count(all.take(i as int)),
        decreases session.entries@.len() - i,
    {
        assert(all.take(i + 1).drop_last() =~= all.take(i as int));
        assert(all.take(i + 1).last() == session.entries@[i as int].deep_view());
        if let SessionEntry::Message { .. } = &session.entries[i] {
            message_count = message_count + 1;
        }
        i = i + 1;
    }
    assert(all.take(all.len() as int) =~= all);
    SessionSummary {
        session_id: session.session_id.clone(),
        created_at: session.created_at,
        model: session.model.clone(),
        message_count,
        last_message_preview,
    }
}

/// One time is before another.
pub open spec fn earlier(a: Timestamp, b: Timestamp) -> bool {
    a.seconds < b.seconds || (a.seconds == b.seconds && a.nanos < b.nanos)
}

/// Summaries with one more, before the first that is older than it.
pub open spec fn with_summary(summaries: Seq<SummaryView>, s: SummaryView) -> Seq<SummaryView>
    decreases summaries.len(),
{
    if summaries.len() == 0 {
        seq![s]
    } else if earlier(summaries[0].created_at, s.created_at) {
        seq![s] + summaries
    } else {
        seq![summaries[0]] + with_summary(summaries.skip(1), s)
    }
}

/// The summaries of the sessions that could be read, newest first; sessions of
/// the same time stay in their order.
pub open spec fn listed(sessions: Seq<Option<SessionView>>) -> Seq<SummaryView>
    decreases sessions.len(),
{
    if sessions.len() == 0 {
        seq![]
    } else {
        match sessions.last() {
            Some(s) => with_summary(listed(sessions.drop_last()), summary_of(s)),
            None => listed(sessions.drop_last()),
        }
    }
}

/// Put a summary in its place.
fn insert_summary(summaries: &mut Vec<SessionSummary>, s: SessionSummary)
    ensures
        final(summaries).deep_view() == with_summary(old(summaries).deep_view(), s.deep_view()),
{
    let ghost before = summaries.deep_view();
    let ghost added = s.deep_view();
    let ghost whole = with_summary(before, added);
    let mut i: usize = 0;
    assert(before.skip(0) =~= before);
    assert(before.take(0) + whole =~= whole);
    while i < summaries.len() && !(summaries[i].created_at.seconds < s.created_at.seconds || (
    summaries[i].created_at.seconds == s.created_at.seconds && summaries[i].created_at.nanos
        < s.created_at.nanos))
        invariant
            before == summaries.deep_view(),
            added == s.deep_view(),
            i <= summaries@.len(),
            whole == before.take(i as int) + with_summary(before.skip(i as int), added),
        decreases summaries@.len() - i,
    {
        assert(before.skip(i as int)[0] == before[i as int]);
        assert(before.skip(i as int).skip(1) =~= before.skip(i + 1));
        assert(before.take(i as int) + (seq![before[i as int]] + with_summary(
            before.skip(i + 1),
            added,
        )) =~= before.take(i + 1) + with_summary(before.skip(i + 1), added));
        i = i + 1;
    }
    assert(i < before.len() ==> before.skip(i as int)[0] == before[i as int]);
    summaries.insert(i, s);
    assert(summaries.deep_view() =~= before.take(i as int) + (seq![added] + before.skip(
        i as int,
    )));
    assert(before.skip(i as int).len() == 0 ==> seq![added] + before.skip(i as int) =~= seq![
        added,
    ]);
}

/// Summaries are in order: none is older than one that follows it.
pub open spec fn newest_first(summaries: Seq<SummaryView>) -> bool {
    forall|i: int, j: int|
        0 <= i < j < summaries.len() ==> !earlier(
            (#[trigger] summaries[i]).created_at,
            (#[trigger] summaries[j]).created_at,
        )
}

/// The summaries of the sessions that could be read, in the order of the sessions.
pub open spec fn summaries_of(sessions: Seq<Option<SessionView>>) -> Seq<SummaryView>
    decreases sessions.len(),
{
    if sessions.len() == 0 {
        seq![]
    } else {
        match sessions.last() {
            Some(s) => summaries_of(sessions.drop_last()).push(summary_of(s)),
            None => summaries_of(sessions.drop_last()),
        }
    }
}

proof fn lemma_with_summary(summaries: Seq<SummaryView>, s: SummaryView)
    requires
        newest_first(summaries),
    ensures
        newest_first(with_summary(summaries, s)),
        with_summary(summaries, s).to_multiset() == summaries.to_multiset().insert(s),
        forall|i: int|
            0 <= i < with_summary(summaries, s).len() ==> (#[trigger] with_summary(summaries, s)[i])
                == s || summaries.contains(with_summary(summaries, s)[i]),
    decreases summaries.len(),
{
    broadcast use vstd::seq_lib::group_to_multiset_ensures;

    let all = with_summary(summaries, s);
    if summaries.len() == 0 {
        assert(all =~= summaries.push(s));
    } else if earlier(summaries[0].created_at, s.created_at) {
        assert(all =~= summaries.insert(0, s));
        assert forall|i: int| 0 <= i < all.len() implies (#[trigger] all[i]) == s
            || summaries.contains(all[i]) by {
            if i > 0 {
                assert(all[i] == summaries[i - 1]);
            }
        }
    } else {
        let rest = summaries.skip(1);
        let tail = with_summary(rest, s);
        assert forall|i: int, j: int| 0 <= i < j < rest.len() implies !earlier(
            (#[trigger] rest[i]).created_at,
            (#[trigger] rest[j]).created_at,
        ) by {
            assert(rest[i] == summaries[i + 1] && rest[j] == summaries[j + 1]);
        }
        lemma_with_summary(rest, s);
        assert(all =~= tail.insert(0, summaries[0]));
        assert(summaries =~= rest.insert(0, summaries[0]));
        assert(all.to_multiset() =~= summaries.to_multiset().insert(s));
        assert forall|i: int| 0 <= i < all.len() implies (#[trigger] all[i]) == s
            || summaries.contains(all[i]) by {
            if i == 0 {
                assert(summaries[0] == all[0]);
            } else {
                assert(all[i] == tail[i - 1]);
                if tail[i - 1] != s {
                    let k = choose|k: int| 0 <= k < rest.len() && rest[k] == tail[i - 1];
                    assert(summaries[k + 1] == all[i]);
                }
            }
        }
        assert forall|i: int, j: int| 0 <= i < j < all.len() implies !earlier(
            (#[trigger] all[i]).created_at,
            (#[trigger] all[j]).created_at,
        ) by {
            assert(all[j] == tail[j - 1]);
            if i > 0 {
                assert(all[i] == tail[i - 1]);
            } else if tail[j - 1] != s {
                let k = choose|k: int| 0 <= k < rest.len() && rest[k] == tail[j - 1];
                assert(summaries[k + 1] == all[j]);
            }
        }
    }
}

/// The list of sessions holds exactly the sessions that could be read, newest
/// first.
pub proof fn law_sessions_listed_newest_first(sessions: Seq<Option<SessionView>>)
    ensures
        newest_first(listed(sessions)),
        listed(sessions).to_multiset() == summaries_of(sessions).to_multiset(),
    decreases sessions.len(),
{
    broadcast use vstd::seq_lib::group_to_multiset_ensures;

    if sessions.len() > 0 {
        law_sessions_listed_newest_first(sessions.drop_last());
        if let Some(s) = sessions.last() {
            lemma_with_summary(listed(sessions.drop_last()), summary_of(s));
        }
    }
}

/// What a list of results of reading holds: the sessions that could be read.
pub open spec fn readable(sessions: Seq<Result<Session, PiError>>) -> Seq<Option<SessionView>> {
    sessions.map_values(
        |r: Result<Session, PiError>|
            match r {
                Ok(s) => Some(s.deep_view()),
                Err(_) => None,
            },
    )
}

/// List all sessions that could be read, newest first.
pub fn list_sessions(sessions: &Vec<Result<Session, PiError>>) -> (r: Vec<SessionSummary>)
    ensures
        r.deep_view() == listed(readable(sessions@)),
{
    let ghost all = readable(sessions@);
    let mut summaries: Vec<SessionSummary> = Vec::new();
    let mut i: usize = 0;
    assert(summaries.deep_view() =~= seq![]);
    assert(all.take(0) =~= seq![]);
    while i < sessions.len()
        invariant
            all == readable(sessions@),
            i <= sessions@.len(),
            summaries.deep_view() == listed(all.take(i as int)),
        decreases sessions@.len() - i,
    {
        assert(all.take(i + 1).drop_last() =~= all.take(i as int));
        assert(all.take(i + 1).last() == all[i as int]);
        if let Ok(session) = &sessions[i] {
            insert_summary(&mut summaries, summarize_session(session));
        }
        i = i + 1;
    }
    assert(all.take(all.len() as int) =~= all);
    summaries
}

} // verus!
