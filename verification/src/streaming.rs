//! SSE (Server-Sent Events) streaming utilities.
//!
//! Provides a parser for SSE streams from HTTP responses, commonly used by
//! LLM providers for streaming chat completions.

use vstd::prelude::*;

use crate::text::{
    chars_of, decimal, decimal_text, same_text, string_between, strip_prefix_text, trim, trimmed,
    without_prefix,
};

verus! {

/// A parsed Server-Sent Event.
#[derive(Debug, PartialEq, Eq)]
pub struct SseEvent {
    /// The event type field (e.g., "message_start", "content_block_delta").
    pub event: Option<String>,
    /// The data payload. Multi-line data fields are joined with newlines.
    pub data: String,
    /// The event ID.
    pub id: Option<String>,
}

/// What an event holds.
pub struct SseView {
    pub event: Option<Seq<char>>,
    pub data: Seq<char>,
    pub id: Option<Seq<char>>,
}

impl DeepView for SseEvent {
    type V = SseView;

    open spec fn deep_view(&self) -> SseView {
        SseView { event: self.event.deep_view(), data: self.data@, id: self.id.deep_view() }
    }
}

/// An event before its first field.
pub open spec fn blank_event() -> SseView {
    SseView { event: None, data: seq![], id: None }
}

impl Default for SseEvent {
    fn default() -> (r: Self)
        ensures
            r.deep_view() == blank_event(),
    {
        SseEvent { event: None, data: String::new(), id: None }
    }
}

impl SseEvent {
    /// Returns `true` if this is the `[DONE]` sentinel used by OpenAI-style APIs.
    pub fn is_done(&self) -> (r: bool)
        ensures
            r == (trimmed(self.data@) == "[DONE]"@),
    {
        same_text(&trim(&self.data), "[DONE]")
    }
}

/// Typed errors for SSE stream operations.
///
/// Enables programmatic error matching instead of fragile string parsing.
#[derive(Debug, PartialEq, Eq)]
pub enum SseError {
    /// The stream was idle for longer than the configured timeout.
    IdleTimeout {
        /// The timeout duration in milliseconds.
        timeout_ms: u64,
    },
    /// An error occurred while reading from the underlying byte stream.
    ReadError {
        /// The error message from the underlying IO error.
        message: String,
    },
}

/// The text of an SSE error.
pub open spec fn sse_error_text(e: SseError) -> Seq<char> {
    match e {
        SseError::IdleTimeout { timeout_ms } => "SSE stream idle timeout after "@ + decimal(
            timeout_ms as nat,
        ) + "ms"@,
        SseError::ReadError { message } => "SSE stream read error: "@ + message@,
    }
}

impl SseError {
    /// Returns true if this error is retryable (connection can be retried).
    pub fn is_retryable(&self) -> (r: bool)
        ensures
            r == (self is IdleTimeout || self is ReadError),
    {
        match self {
            SseError::IdleTimeout { .. } => true,
            SseError::ReadError { .. } => true,
        }
    }

    /// The text of the error.
    pub fn to_text(&self) -> (r: String)
        ensures
            r@ == sse_error_text(*self),
    {
        let mut r: String = String::new();
        match self {
            SseError::IdleTimeout { timeout_ms } => {
                r.push_str("SSE stream idle timeout after ");
                r.push_str(&decimal_text(*timeout_ms));
                r.push_str("ms");
            },
            SseError::ReadError { message } => {
                r.push_str("SSE stream read error: ");
                r.push_str(message);
            },
        }
        assert(r@ =~= sse_error_text(*self));
        r
    }
}

// ---------------------------------------------------------------------------
// Lines
// ---------------------------------------------------------------------------

/// A line without the carriage returns at its end.
pub open spec fn without_returns(line: Seq<char>) -> Seq<char>
    decreases line.len(),
{
    if line.len() > 0 && line.last() == '\r' {
        without_returns(line.drop_last())
    } else {
        line
    }
}

/// The value of a field: what follows its name, without one space at its front.
pub open spec fn field_value(rest: Seq<char>) -> Seq<char> {
    if rest.len() > 0 && rest[0] == ' ' {
        rest.skip(1)
    } else {
        rest
    }
}

/// An event under way, and whether a data line of it has been seen.
#[derive(Debug)]
pub struct PendingEvent {
    /// The event so far.
    pub event: SseEvent,
    /// A data line has been seen, be it an empty one.
    pub has_data: bool,
}

/// What an event under way holds.
pub struct PendingView {
    pub event: SseView,
    pub has_data: bool,
}

impl DeepView for PendingEvent {
    type V = PendingView;

    open spec fn deep_view(&self) -> PendingView {
        PendingView { event: self.event.deep_view(), has_data: self.has_data }
    }
}

/// No line of an event has been seen.
pub open spec fn nothing_pending() -> PendingView {
    PendingView { event: blank_event(), has_data: false }
}

impl Default for PendingEvent {
    fn default() -> (r: Self)
        ensures
            r.deep_view() == nothing_pending(),
    {
        PendingEvent { event: SseEvent::default(), has_data: false }
    }
}

/// An event with one more data line: the lines are joined with newlines.
pub open spec fn with_data_line(current: PendingView, value: Seq<char>) -> PendingView {
    let joined = if current.has_data {
        current.event.data.push('\n')
    } else {
        current.event.data
    };
    PendingView { event: SseView { data: joined + value, ..current.event }, has_data: true }
}

/// What a line makes of the event under way, and the event that it ends. A blank
/// line ends the event where it has any data.
pub open spec fn line_taken(current: PendingView, line: Seq<char>) -> (
    PendingView,
    Option<SseView>,
) {
    let event = current.event;
    if line.len() == 0 {
        if event.data.len() == 0 {
            (PendingView { has_data: false, ..current }, None)
        } else {
            (nothing_pending(), Some(event))
        }
    } else if line[0] == ':' {
        (current, None)
    } else {
        match without_prefix(line, "data:"@) {
            Some(rest) => (with_data_line(current, field_value(rest)), None),
            None => match without_prefix(line, "event:"@) {
                Some(rest) => (
                    PendingView {
                        event: SseView { event: Some(field_value(rest)), ..event },
                        ..current
                    },
                    None,
                ),
                None => match without_prefix(line, "id:"@) {
                    Some(rest) => (
                        PendingView {
                            event: SseView { id: Some(field_value(rest)), ..event },
                            ..current
                        },
                        None,
                    ),
                    None => (current, None),
                },
            },
        }
    }
}

fn read_field_value(rest: String) -> (r: String)
    ensures
        r@ == field_value(rest@),
{
    let chars: Vec<char> = chars_of(&rest);
    if chars.len() > 0 && chars[0] == ' ' {
        let value: String = string_between(&chars, 1, chars.len());
        assert(value@ =~= rest@.skip(1));
        value
    } else {
        rest
    }
}

/// Take in a line of a stream, without its line feed and carriage returns.
/// Returns the event that the line ends.
///
/// Handles the SSE wire protocol: multi-line `data:` fields, comment lines
/// (`:`), and event/id fields. Other fields are ignored.
pub fn take_line(current: &mut PendingEvent, line: &str) -> (r: Option<SseEvent>)
    ensures
        (final(current).deep_view(), r.deep_view()) == line_taken(old(current).deep_view(), line@),
{
    let chars: Vec<char> = chars_of(line);
    if chars.len() == 0 {
        current.has_data = false;
        if current.event.data.as_str().is_empty() {
            return None;
        }
        let mut done: SseEvent = SseEvent::default();
        std::mem::swap(&mut done, &mut current.event);
        return Some(done);
    }
    if chars[0] == ':' {
        return None;
    }
    if let Some(rest) = strip_prefix_text(line, "data:") {
        let value: String = read_field_value(rest);
        if current.has_data {
            current.event.data.push('\n');
        }
        current.event.data.push_str(&value);
        current.has_data = true;
    } else if let Some(rest) = strip_prefix_text(line, "event:") {
        current.event.event = Some(read_field_value(rest));
    } else if let Some(rest) = strip_prefix_text(line, "id:") {
        current.event.id = Some(read_field_value(rest));
    }
    None
}

// ---------------------------------------------------------------------------
// Bytes
// ---------------------------------------------------------------------------

/// The text that `String::from_utf8_lossy` gives for bytes.
pub uninterp spec fn lossy_text(bytes: Seq<u8>) -> Seq<char>;

/// `String::from_utf8_lossy`: bytes as text, with replacement characters for
/// what is no UTF-8. The text depends on the bytes alone.
#[verifier::external_body]
fn decode_lossy(bytes: &[u8]) -> (r: String)
    ensures
        r@ == lossy_text(bytes@),
{
    String::from_utf8_lossy(bytes).into_owned()
}

/// The position of the first line feed.
pub open spec fn line_end(bytes: Seq<u8>) -> Option<int>
    decreases bytes.len(),
{
    if bytes.len() == 0 {
        None
    } else if bytes[0] == 10 {
        Some(0)
    } else {
        match line_end(bytes.skip(1)) {
            Some(i) => Some(i + 1),
            None => None,
        }
    }
}

pub proof fn lemma_line_end(bytes: Seq<u8>)
    ensures
        match line_end(bytes) {
            Some(i) => 0 <= i < bytes.len() && bytes[i] == 10 && forall|j: int|
                0 <= j < i ==> bytes[j] != 10,
            None => forall|j: int| 0 <= j < bytes.len() ==> bytes[j] != 10,
        },
    decreases bytes.len(),
{
    if bytes.len() > 0 && bytes[0] != 10 {
        lemma_line_end(bytes.skip(1));
        assert forall|j: int| 0 < j < bytes.len() implies bytes[j] == bytes.skip(1)[j - 1] by {}
    }
}

/// What a parser holds: the event under way, and the bytes of a line under way.
pub struct ParserView {
    pub current: PendingView,
    pub buffer: Seq<u8>,
}

/// An event, where there is one.
pub open spec fn event_list(event: Option<SseView>) -> Seq<SseView> {
    match event {
        Some(e) => seq![e],
        None => seq![],
    }
}

/// What bytes make of the event under way: each complete line is taken in, and
/// what follows the last one is left. Also gives the events that were ended.
pub open spec fn bytes_taken(current: PendingView, bytes: Seq<u8>) -> (ParserView, Seq<SseView>)
    decreases bytes.len(),
    via bytes_taken_shorter
{
    match line_end(bytes) {
        None => (ParserView { current, buffer: bytes }, seq![]),
        Some(i) => {
            let (next, ended) = line_taken(current, without_returns(lossy_text(bytes.take(i))));
            let (state, events) = bytes_taken(next, bytes.skip(i + 1));
            (state, event_list(ended) + events)
        },
    }
}

#[via_fn]
proof fn bytes_taken_shorter(current: PendingView, bytes: Seq<u8>) {
    lemma_line_end(bytes);
}

/// A parser of a stream of events that comes in chunks of bytes.
#[derive(Debug)]
pub struct SseParser {
    /// The bytes of a line under way.
    buffer: Vec<u8>,
    /// The event under way.
    current: PendingEvent,
}

impl SseParser {
    /// What the parser holds.
    pub closed spec fn view(&self) -> ParserView {
        ParserView { current: self.current.deep_view(), buffer: self.buffer@ }
    }

    /// A parser at the start of a stream.
    pub fn new() -> (r: Self)
        ensures
            r@ == (ParserView { current: nothing_pending(), buffer: seq![] }),
    {
        SseParser { buffer: Vec::new(), current: PendingEvent::default() }
    }

    /// Take in a chunk of bytes. Returns the events that it ends.
    pub fn feed(&mut self, chunk: &Vec<u8>) -> (r: Vec<SseEvent>)
        ensures
            (final(self)@, r.deep_view()) == bytes_taken(
                old(self)@.current,
                old(self)@.buffer + chunk@,
            ),
    {
        let mut bytes: Vec<u8> = Vec::new();
        bytes.append(&mut self.buffer);
        let mut more: Vec<u8> = chunk.clone();
        assert(more@ =~= chunk@);
        bytes.append(&mut more);
        let ghost all = old(self)@.buffer + chunk@;
        assert(bytes@ =~= all);
        let ghost whole = bytes_taken(old(self)@.current, all);
        let mut events: Vec<SseEvent> = Vec::new();
        let mut start: usize = 0;
        let mut i: usize = 0;
        assert(events.deep_view() =~= seq![]);
        assert(all.skip(0) =~= all);
        assert(events.deep_view() + whole.1 =~= whole.1);
        while i < bytes.len()
            invariant
                bytes@ == all,
                start <= i <= bytes@.len(),
                forall|j: int| start <= j < i ==> bytes@[j] != 10,
                ({
                    let rest = bytes_taken(self.current.deep_view(), all.skip(start as int));
                    whole == (rest.0, events.deep_view() + rest.1)
                }),
            decreases bytes@.len() - i,
        {
            if bytes[i] == 10 {
                let ghost rest = all.skip(start as int);
                proof {
                    lemma_line_end(rest);
                    assert(rest[i - start] == 10);
                    assert forall|j: int| 0 <= j < i - start implies rest[j] != 10 by {
                        assert(rest[j] == bytes@[start + j]);
                    }
                    assert(line_end(rest) == Some(i - start));
                    assert(rest.skip(i - start + 1) =~= all.skip(i + 1));
                    assert(rest.take(i - start) =~= all.subrange(start as int, i as int));
                }
                let line: String = read_line(&bytes, start, i);
                let ghost before = events.deep_view();
                let ghost current = self.current.deep_view();
                let ended: Option<SseEvent> = take_line(&mut self.current, &line);
                let ghost ended_view = ended.deep_view();
                match ended {
                    Some(event) => {
                        events.push(event);
                        assert(events.deep_view() =~= before + event_list(ended_view));
                    },
                    None => {
                        assert(events.deep_view() =~= before + event_list(ended_view));
                    },
                }
                start = i + 1;
                proof {
                    let after = bytes_taken(self.current.deep_view(), all.skip(start as int));
                    assert(before + (event_list(ended_view) + after.1) =~= events.deep_view()
                        + after.1);
                }
            }
            i = i + 1;
        }
        proof {
            let rest = all.skip(start as int);
            lemma_line_end(rest);
            assert forall|j: int| 0 <= j < rest.len() implies rest[j] != 10 by {
                assert(rest[j] == bytes@[start + j]);
            }
            assert(events.deep_view() + seq![] =~= events.deep_view());
        }
        self.buffer = bytes.split_off(start);
        assert(self.buffer@ =~= all.skip(start as int));
        events
    }

    /// The trailing event that no blank line ended, where there is one. Bytes of
    /// a line that was not ended are dropped.
    pub fn finish(self) -> (r: Option<SseEvent>)
        ensures
            r.deep_view() == if self@.current.event.data.len() == 0 {
                None
            } else {
                Some(self@.current.event)
            },
    {
        if self.current.event.data.as_str().is_empty() {
            None
        } else {
            Some(self.current.event)
        }
    }
}

/// The line that stands from `start` up to before `end`.
fn read_line(bytes: &Vec<u8>, start: usize, end: usize) -> (r: String)
    requires
        start <= end <= bytes@.len(),
    ensures
        r@ == without_returns(lossy_text(bytes@.subrange(start as int, end as int))),
{
    let line: String = decode_lossy(vstd::slice::slice_subrange(bytes.as_slice(), start, end));
    let chars: Vec<char> = chars_of(&line);
    let mut n: usize = chars.len();
    assert(chars@.take(n as int) =~= chars@);
    while n > 0 && chars[n - 1] == '\r'
        invariant
            n <= chars@.len(),
            without_returns(chars@.take(n as int)) == without_returns(chars@),
        decreases n,
    {
        assert(chars@.take(n as int).drop_last() =~= chars@.take(n - 1));
        n = n - 1;
    }
    let r: String = string_between(&chars, 0, n);
    assert(r@ =~= chars@.take(n as int));
    r
}

/// Lines joined with newlines.
pub open spec fn joined_lines(lines: Seq<Seq<char>>) -> Seq<char>
    decreases lines.len(),
{
    if lines.len() == 0 {
        seq![]
    } else if lines.len() == 1 {
        lines[0]
    } else {
        joined_lines(lines.drop_last()).push('\n') + lines.last()
    }
}

/// An event with more data lines, one after the other.
pub open spec fn with_data_lines(current: PendingView, values: Seq<Seq<char>>) -> PendingView
    decreases values.len(),
{
    if values.len() == 0 {
        current
    } else {
        with_data_line(with_data_lines(current, values.drop_last()), values.last())
    }
}

/// The data of an event is what its data lines hold, joined with newlines; empty
/// lines count.
pub proof fn law_data_lines_are_joined(values: Seq<Seq<char>>)
    requires
        values.len() > 0,
    ensures
        with_data_lines(nothing_pending(), values) == (PendingView {
            event: SseView { data: joined_lines(values), ..blank_event() },
            has_data: true,
        }),
    decreases values.len(),
{
    if values.len() == 1 {
        assert(with_data_lines(nothing_pending(), values.drop_last()) == nothing_pending());
        assert(Seq::<char>::empty() + values[0] =~= values[0]);
    } else {
        law_data_lines_are_joined(values.drop_last());
    }
}

/// How a stream is cut into chunks changes nothing: bytes that come in two
/// chunks give the same events, and leave the parser in the same state, as the
/// same bytes in one.
pub proof fn law_chunks_do_not_matter(current: PendingView, front: Seq<u8>, back: Seq<u8>)
    ensures
        ({
            let (middle, first) = bytes_taken(current, front);
            let (end, second) = bytes_taken(middle.current, middle.buffer + back);
            bytes_taken(current, front + back) == (end, first + second)
        }),
    decreases front.len(),
{
    lemma_line_end(front);
    let all = front + back;
    match line_end(front) {
        None => {
            let (end, second) = bytes_taken(current, all);
            assert(Seq::<SseView>::empty() + second =~= second);
        },
        Some(i) => {
            lemma_line_end(all);
            assert(all[i] == 10);
            assert forall|j: int| 0 <= j < i implies all[j] != 10 by {
                assert(all[j] == front[j]);
            }
            assert(line_end(all) == Some(i));
            assert(all.take(i) =~= front.take(i));
            assert(all.skip(i + 1) =~= front.skip(i + 1) + back);
            let (next, ended) = line_taken(current, without_returns(lossy_text(front.take(i))));
            law_chunks_do_not_matter(next, front.skip(i + 1), back);
            let (middle, first) = bytes_taken(next, front.skip(i + 1));
            let (end, second) = bytes_taken(middle.current, middle.buffer + back);
            assert(event_list(ended) + (first + second) =~= event_list(ended) + first + second);
        },
    }
}

} // verus!
