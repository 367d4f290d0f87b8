//! What holds of streams of events: what their lines say, and where an event ends.

use vstd::prelude::*;

use crate::event_stream::{
    ended, final_result, last_message, next_event, pushed, EventStreamError, Polled, StreamView,
};
use crate::reconnect::{capped, is_exhausted, Reconnect, ReconnectConfig};
use crate::streaming::{
    blank_event, bytes_taken, event_list, field_value, law_data_lines_are_joined, lemma_line_end,
    line_end, line_taken, lossy_text, nothing_pending, with_data_line, with_data_lines,
    without_returns, PendingView, SseView,
};
use crate::text::{starts_with, without_prefix};
use crate::text_laws::law_without_prefix;
use crate::types::AssistantMessageEvent;

verus! {

// ---------------------------------------------------------------------------
// Attempts
// ---------------------------------------------------------------------------

/// With so many reconnections allowed, one attempt more than that can be started, and
/// with no limit any number.
pub proof fn law_attempts_are_limited(s: Reconnect, config: ReconnectConfig)
    ensures
        config.max_retries is None ==> !is_exhausted(s, config),
        config.max_retries matches Some(max) ==> (!is_exhausted(s, config) <==> s.attempt < max + 1),
{
}

/// A wait is as long as asked for, and no longer than the longest that is allowed.
pub proof fn law_wait_is_capped(next: u64, max: u64)
    ensures
        capped(next, max) <= max,
        capped(next, max) <= next,
        next <= max ==> capped(next, max) == next,
        next >= max ==> capped(next, max) == max,
{
}

/// A stream of a response ends with the message of the event that says so, whether the
/// response is done or failed, and no other event ends it.
pub proof fn law_last_message(event: AssistantMessageEvent)
    ensures
        event matches AssistantMessageEvent::Done { message, .. } ==> last_message(event) == Some(
            message.deep_view(),
        ),
        event matches AssistantMessageEvent::Error { error, .. } ==> last_message(event) == Some(
            error.deep_view(),
        ),
        !(event is Done) && !(event is Error) ==> last_message(event) is None,
{
}

// ---------------------------------------------------------------------------
// Lines
// ---------------------------------------------------------------------------

/// The carriage returns at the end of a line are no part of it, however many there are.
pub proof fn law_without_returns(line: Seq<char>) -> (n: int)
    ensures
        0 <= n <= line.len(),
        without_returns(line) == line.take(n),
        forall|i: int| n <= i < line.len() ==> #[trigger] line[i] == '\r',
        n > 0 ==> line[n - 1] != '\r',
    decreases line.len(),
{
    if line.len() > 0 && line.last() == '\r' {
        let front = line.drop_last();
        let n = law_without_returns(front);
        assert(front.take(n) =~= line.take(n));
        assert forall|i: int| n <= i < line.len() implies #[trigger] line[i] == '\r' by {
            if i < front.len() {
                assert(front[i] == '\r');
            }
        }
        if n > 0 {
            assert(front[n - 1] == line[n - 1]);
        }
        n
    } else {
        assert(line.take(line.len() as int) =~= line);
        line.len() as int
    }
}

/// One space before a value is no part of it.
pub proof fn law_field_value(value: Seq<char>)
    ensures
        field_value(seq![' '] + value) == value,
        value.len() == 0 || value[0] != ' ' ==> field_value(value) == value,
{
    assert((seq![' '] + value).skip(1) =~= value);
}

proof fn lemma_fields(rest: Seq<char>)
    ensures
        ("data:"@ + rest).len() > 0 && ("data:"@ + rest)[0] != ':',
        ("event:"@ + rest).len() > 0 && ("event:"@ + rest)[0] != ':',
        ("id:"@ + rest).len() > 0 && ("id:"@ + rest)[0] != ':',
        without_prefix("event:"@ + rest, "data:"@) is None,
        without_prefix("id:"@ + rest, "data:"@) is None,
        without_prefix("id:"@ + rest, "event:"@) is None,
{
    reveal_strlit("data:");
    reveal_strlit("event:");
    reveal_strlit("id:");
    let a = "data:"@ + rest;
    let b = "event:"@ + rest;
    let c = "id:"@ + rest;
    assert(a[0] == 'd' && b[0] == 'e' && c[0] == 'i');
    assert("data:"@[0] == 'd' && "event:"@[0] == 'e');
    assert(b.subrange(0, 5)[0] == b[0]);
    if starts_with(c, "data:"@) {
        assert(c.subrange(0, 5)[0] == c[0]);
    }
    if starts_with(c, "event:"@) {
        assert(c.subrange(0, 6)[0] == c[0]);
    }
}

/// A line of data adds its value to the event, behind a line end where there was data
/// before; a line with a name or an identifier sets just that. None of them ends the
/// event.
pub proof fn law_fields(current: PendingView, rest: Seq<char>)
    ensures
        ({
            let (next, event) = line_taken(current, "data:"@ + rest);
            &&& event is None
            &&& next.has_data
            &&& next.event.event == current.event.event
            &&& next.event.id == current.event.id
            &&& current.has_data ==> next.event.data == current.event.data + seq!['\n']
                + field_value(rest)
            &&& !current.has_data ==> next.event.data == current.event.data + field_value(rest)
        }),
        line_taken(current, "event:"@ + rest) == (
            PendingView {
                event: SseView { event: Some(field_value(rest)), ..current.event },
                ..current
            },
            None::<SseView>,
        ),
        line_taken(current, "id:"@ + rest) == (
            PendingView {
                event: SseView { id: Some(field_value(rest)), ..current.event },
                ..current
            },
            None::<SseView>,
        ),
{
    lemma_fields(rest);
    law_without_prefix(rest, "data:"@);
    law_without_prefix(rest, "event:"@);
    law_without_prefix(rest, "id:"@);
    let next = line_taken(current, "data:"@ + rest).0;
    if current.has_data {
        assert(next.event.data =~= current.event.data + seq!['\n'] + field_value(rest));
    }
}

/// A comment changes nothing, and neither does a line with an unknown field.
pub proof fn law_other_lines(current: PendingView, line: Seq<char>)
    requires
        line.len() > 0,
        line[0] == ':' || !starts_with(line, "data:"@) && !starts_with(line, "event:"@)
            && !starts_with(line, "id:"@),
    ensures
        line_taken(current, line) == (current, None::<SseView>),
{
}

/// A blank line ends the event, which comes out as it is, and the next one starts blank.
/// Without data nothing comes out.
pub proof fn law_blank_line_ends_the_event(current: PendingView)
    ensures
        ({
            let (next, event) = line_taken(current, Seq::empty());
            &&& current.event.data.len() > 0 ==> event == Some(current.event) && next.event.event is None
                && next.event.id is None && next.event.data.len() == 0 && !next.has_data
            &&& current.event.data.len() == 0 ==> event is None && next.event == current.event
                && !next.has_data
        }),
{
}

/// What lines make of the event under way, and the events that they end.
pub open spec fn lines_taken(current: PendingView, lines: Seq<Seq<char>>) -> (
    PendingView,
    Seq<SseView>,
)
    decreases lines.len(),
{
    if lines.len() == 0 {
        (current, seq![])
    } else {
        let (next, event) = line_taken(current, lines[0]);
        let (last, events) = lines_taken(next, lines.skip(1));
        (
            last,
            match event {
                Some(e) => seq![e] + events,
                None => events,
            },
        )
    }
}

/// An event is written as a line with its name, a line for each line of its data, and a
/// blank one. It then comes out, once, with the name and with its data put together by
/// line ends.
pub proof fn law_event_is_read(name: Seq<char>, values: Seq<Seq<char>>)
    requires
        values.len() > 0,
        crate::streaming::joined_lines(values).len() > 0,
    ensures
        ({
            let lines = seq!["event: "@ + name] + values.map_values(
                |value: Seq<char>| "data: "@ + value,
            ) + seq![Seq::<char>::empty()];
            lines_taken(nothing_pending(), lines) == (
                nothing_pending(),
                seq![
                    SseView {
                        event: Some(name),
                        data: crate::streaming::joined_lines(values),
                        id: None,
                    },
                ],
            )
        }),
{
    reveal_strlit("event: ");
    reveal_strlit("event:");
    let written = values.map_values(|value: Seq<char>| "data: "@ + value);
    let blank = Seq::<char>::empty();
    let lines = seq!["event: "@ + name] + written + seq![blank];
    assert("event: "@ + name =~= "event:"@ + (seq![' '] + name));
    law_fields(nothing_pending(), seq![' '] + name);
    law_field_value(name);
    let named = PendingView {
        event: SseView { event: Some(name), ..blank_event() },
        has_data: false,
    };
    assert(line_taken(nothing_pending(), lines[0]) == (named, None::<SseView>));
    assert(lines.skip(1) =~= written + seq![blank]);
    lemma_data_lines(named, values, blank);
    lemma_named_data(name, values);
    law_data_lines_are_joined(values);
    let full = with_data_lines(named, values);
    let none = seq![blank].skip(1);
    assert(none =~= seq![]);
    assert(lines_taken(nothing_pending(), none) == (nothing_pending(), Seq::<SseView>::empty()));
    assert(full.event.data.len() > 0);
    assert(line_taken(full, seq![blank][0]) == (nothing_pending(), Some(full.event)));
    assert(lines_taken(full, seq![blank]).1 =~= seq![full.event]);
    assert(lines_taken(nothing_pending(), lines) == lines_taken(named, lines.skip(1)));
}

proof fn lemma_named_data(name: Seq<char>, values: Seq<Seq<char>>)
    ensures
        ({
            let named = PendingView {
                event: SseView { event: Some(name), ..blank_event() },
                has_data: false,
            };
            let plain = with_data_lines(nothing_pending(), values);
            with_data_lines(named, values) == (PendingView {
                event: SseView { event: Some(name), ..plain.event },
                ..plain
            })
        }),
    decreases values.len(),
{
    if values.len() > 0 {
        lemma_named_data(name, values.drop_last());
    }
}

proof fn lemma_data_lines(current: PendingView, values: Seq<Seq<char>>, blank: Seq<char>)
    ensures
        lines_taken(
            current,
            values.map_values(|value: Seq<char>| "data: "@ + value) + seq![blank],
        ) == lines_taken(with_data_lines(current, values), seq![blank]),
    decreases values.len(),
{
    let written = values.map_values(|value: Seq<char>| "data: "@ + value);
    if values.len() == 0 {
        assert(written + seq![blank] =~= seq![blank]);
    } else {
        reveal_strlit("data: ");
        reveal_strlit("data:");
        let value = values[0];
        let rest = values.skip(1);
        let lines = written + seq![blank];
        assert("data: "@ + value =~= "data:"@ + (seq![' '] + value));
        lemma_fields(seq![' '] + value);
        law_without_prefix(seq![' '] + value, "data:"@);
        law_field_value(value);
        let next = with_data_line(current, value);
        assert(line_taken(current, lines[0]) == (next, None::<SseView>));
        assert(lines.skip(1) =~= rest.map_values(|value: Seq<char>| "data: "@ + value) + seq![
            blank,
        ]);
        lemma_data_lines(next, rest, blank);
        lemma_data_first(current, values);
    }
}

proof fn lemma_data_first(current: PendingView, values: Seq<Seq<char>>)
    requires
        values.len() > 0,
    ensures
        with_data_lines(current, values) == with_data_lines(
            with_data_line(current, values[0]),
            values.skip(1),
        ),
    decreases values.len(),
{
    let front = values.drop_last();
    let rest = values.skip(1);
    if values.len() == 1 {
        assert(front =~= seq![]);
        assert(rest =~= seq![]);
    } else {
        lemma_data_first(current, front);
        assert(front.skip(1) =~= rest.drop_last());
        assert(rest.last() == values.last());
        assert(front[0] == values[0]);
    }
}

/// A line of bytes is what stands before a line feed, as text and without carriage
/// returns; it is taken, and what follows it is read in the same way. Bytes without a line
/// feed are kept.
pub proof fn law_bytes_are_read_by_lines(current: PendingView, line: Seq<u8>, rest: Seq<u8>)
    requires
        forall|i: int| 0 <= i < line.len() ==> #[trigger] line[i] != 10,
    ensures
        ({
            let (next, event) = line_taken(current, without_returns(lossy_text(line)));
            let (last, events) = bytes_taken(next, rest);
            bytes_taken(current, line + seq![10u8] + rest) == (last, event_list(event) + events)
        }),
        bytes_taken(current, line).0.buffer == line,
        bytes_taken(current, line).0.current == current,
        bytes_taken(current, line).1.len() == 0,
{
    let bytes = line + seq![10u8] + rest;
    let n = line.len() as int;
    lemma_line_end(bytes);
    lemma_line_end(line);
    assert(bytes[n] == 10);
    if line_end(line) is Some {
        assert(line[line_end(line)->0] == 10);
    }
    let i = line_end(bytes)->0;
    assert(i == n) by {
        if i < n {
            assert(bytes[i] == line[i]);
        }
    }
    assert(bytes.take(n) =~= line);
    assert(bytes.skip(n + 1) =~= rest);
}

// ---------------------------------------------------------------------------
// Event streams
// ---------------------------------------------------------------------------

/// The event that completes a stream is its last, and the result that is taken from it is
/// told. Where none can be taken, that is told.
pub proof fn law_completing_event_settles_the_result<T, R>(
    s: StreamView<T, R>,
    event: T,
    result: Result<R, EventStreamError>,
)
    requires
        !s.done,
        s.unresolved,
        s.resolved is None,
        !s.taken,
    ensures
        ({
            let next = pushed(s, event, true, result);
            &&& next.done
            &&& next.events == s.events.push(event)
            &&& result matches Ok(value) ==> final_result(next).1 == Polled::Ready(
                Ok::<R, EventStreamError>(value),
            )
            &&& result is Err ==> final_result(next).1 == Polled::Ready(
                Err::<R, EventStreamError>(EventStreamError::ResultClosed),
            )
        }),
{
}

/// An event that does not complete a stream leaves its result open.
pub proof fn law_other_events_leave_the_result<T, R>(
    s: StreamView<T, R>,
    event: T,
    result: Result<R, EventStreamError>,
)
    requires
        !s.done,
    ensures
        ({
            let next = pushed(s, event, false, result);
            &&& next.events == s.events.push(event)
            &&& !next.done
            &&& next.resolved == s.resolved
            &&& next.unresolved == s.unresolved
            &&& next.taken == s.taken
        }),
{
}

/// A stream that is ended with a result tells that result, and one that is ended without
/// tells that there is none. Events that were pushed before still come out.
pub proof fn law_end_settles_the_result<T, R>(s: StreamView<T, R>, value: R)
    requires
        !s.done,
        s.unresolved,
        s.resolved is None,
        !s.taken,
    ensures
        final_result(ended(s, Some(value))).1 == Polled::Ready(Ok::<R, EventStreamError>(value)),
        final_result(ended(s, None)).1 == Polled::Ready(
            Err::<R, EventStreamError>(EventStreamError::ResultClosed),
        ),
        ended(s, Some(value)).events == s.events,
        ended(s, None).events == s.events,
        ended(s, Some(value)).done,
        ended(s, None).done,
        final_result(s).1 is Pending,
{
}

/// Events come out one by one, from the front; once all have come out, a stream that is
/// done says so, and another says that there may be more.
pub proof fn law_next_event<T, R>(s: StreamView<T, R>)
    ensures
        s.events.len() > 0 ==> next_event(s).1 == Polled::Ready(Some(s.events[0])) && next_event(
            s,
        ).0.events == s.events.skip(1),
        s.events.len() == 0 && s.done ==> next_event(s).1 == Polled::Ready(None::<T>) && next_event(
            s,
        ).0 == s,
        s.events.len() == 0 && !s.done ==> next_event(s).1 is Pending && next_event(s).0 == s,
        next_event(s).0.done == s.done,
        next_event(s).0.resolved == s.resolved,
{
}

} // verus!
