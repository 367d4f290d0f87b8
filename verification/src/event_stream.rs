//! Generic event stream utilities.

use vstd::prelude::*;

use crate::types::{AssistantMessage, AssistantMessageEvent, AssistantView};

verus! {

/// Error returned when an event stream cannot produce its final result.
#[derive(Debug, Clone, Copy, PartialEq, Eq, Structural)]
pub enum EventStreamError {
    /// The final result was already awaited.
    ResultAlreadyTaken,
    /// The stream ended without resolving a final result.
    ResultClosed,
    /// The result was asked for of an event that ends no stream.
    NotComplete,
}

/// The text of an event stream error.
pub open spec fn stream_error_text(e: EventStreamError) -> Seq<char> {
    match e {
        EventStreamError::ResultAlreadyTaken => "event stream result was already awaited"@,
        EventStreamError::ResultClosed => "event stream ended without a final result"@,
        EventStreamError::NotComplete => {
            "event stream extract_result called on non-terminal event"@
        },
    }
}

impl EventStreamError {
    /// The text of the error.
    pub fn to_text(&self) -> (r: String)
        ensures
            r@ == stream_error_text(*self),
    {
        match self {
            EventStreamError::ResultAlreadyTaken => {
                "event stream result was already awaited".to_owned()
            },
            EventStreamError::ResultClosed => {
                "event stream ended without a final result".to_owned()
            },
            EventStreamError::NotComplete => {
                "event stream extract_result called on non-terminal event".to_owned()
            },
        }
    }
}

/// Something that is there, or that may come later.
#[derive(Debug, PartialEq, Eq)]
pub enum Polled<X> {
    /// It is there.
    Ready(X),
    /// It may come later.
    Pending,
}

/// Generic event stream with explicit push/end/result semantics.
///
/// Events come out in the order in which they were pushed. An event that completes
/// the stream is its last, and the result is taken from it.
pub struct EventStream<T, R, F, G> {
    events: Vec<T>,
    done: bool,
    unresolved: bool,
    resolved: Option<R>,
    taken: bool,
    is_complete: F,
    extract_result: G,
}

/// What an event stream holds.
pub struct StreamView<T, R> {
    /// The events that have not come out yet.
    pub events: Seq<T>,
    /// No further event is taken.
    pub done: bool,
    /// The result can still be given.
    pub unresolved: bool,
    /// The result, given and not yet taken.
    pub resolved: Option<R>,
    /// The result, or that there is none, has been told.
    pub taken: bool,
}

/// A stream after an event that completes it or does not, from which a result can
/// be taken or cannot.
pub open spec fn pushed<T, R>(
    s: StreamView<T, R>,
    event: T,
    completes: bool,
    result: Result<R, EventStreamError>,
) -> StreamView<T, R> {
    if s.done {
        s
    } else if !completes {
        StreamView { events: s.events.push(event), ..s }
    } else {
        StreamView {
            events: s.events.push(event),
            done: true,
            unresolved: false,
            resolved: match result {
                Ok(value) => if s.unresolved {
                    Some(value)
                } else {
                    s.resolved
                },
                Err(_) => s.resolved,
            },
            taken: s.taken,
        }
    }
}

/// A stream after its end, with a result or without: there is no further one.
pub open spec fn ended<T, R>(s: StreamView<T, R>, result: Option<R>) -> StreamView<T, R> {
    if s.done {
        s
    } else {
        match result {
            Some(value) => StreamView {
                done: true,
                unresolved: false,
                resolved: if s.unresolved {
                    Some(value)
                } else {
                    s.resolved
                },
                ..s
            },
            None => StreamView { done: true, unresolved: false, ..s },
        }
    }
}

/// The next event of a stream, and the stream after it.
pub open spec fn next_event<T, R>(s: StreamView<T, R>) -> (StreamView<T, R>, Polled<Option<T>>) {
    if s.events.len() > 0 {
        (StreamView { events: s.events.skip(1), ..s }, Polled::Ready(Some(s.events[0])))
    } else if s.done {
        (s, Polled::Ready(None))
    } else {
        (s, Polled::Pending)
    }
}

/// The result of a stream, and the stream after it has been asked for.
pub open spec fn final_result<T, R>(s: StreamView<T, R>) -> (
    StreamView<T, R>,
    Polled<Result<R, EventStreamError>>,
) {
    if s.taken {
        (s, Polled::Ready(Err(EventStreamError::ResultAlreadyTaken)))
    } else {
        match s.resolved {
            Some(value) => (
                StreamView { resolved: None, taken: true, ..s },
                Polled::Ready(Ok(value)),
            ),
            None => if s.unresolved {
                (s, Polled::Pending)
            } else {
                (
                    StreamView { taken: true, ..s },
                    Polled::Ready(Err(EventStreamError::ResultClosed)),
                )
            },
        }
    }
}

impl<T, R, F, G> EventStream<T, R, F, G> {
    /// What the stream holds.
    pub closed spec fn state(&self) -> StreamView<T, R> {
        StreamView {
            events: self.events@,
            done: self.done,
            unresolved: self.unresolved,
            resolved: self.resolved,
            taken: self.taken,
        }
    }

    /// How the stream tells the event that completes it.
    pub closed spec fn completion(&self) -> F {
        self.is_complete
    }

    /// How the stream takes the result from an event.
    pub closed spec fn extraction(&self) -> G {
        self.extract_result
    }
}

impl<T, R, F: Fn(&T) -> bool, G: Fn(&T) -> Result<R, EventStreamError>> EventStream<T, R, F, G> {
    /// Create a stream from completion/result extraction callbacks.
    pub fn new(is_complete: F, extract_result: G) -> (r: Self)
        ensures
            r.completion() == is_complete,
            r.extraction() == extract_result,
            r.state() == (StreamView::<T, R> {
                events: seq![],
                done: false,
                unresolved: true,
                resolved: None,
                taken: false,
            }),
    {
        let events: Vec<T> = Vec::new();
        assert(events@ =~= seq![]);
        EventStream {
            events,
            done: false,
            unresolved: true,
            resolved: None,
            taken: false,
            is_complete,
            extract_result,
        }
    }

    /// Push an event into the stream.
    pub fn push(&mut self, event: T)
        requires
            call_requires(old(self).completion(), (&event,)),
            call_requires(old(self).extraction(), (&event,)),
        ensures
            final(self).completion() == old(self).completion(),
            final(self).extraction() == old(self).extraction(),
            old(self).state().done ==> final(self).state() == old(self).state(),
            !old(self).state().done ==> exists|completes: bool|
                #[trigger]
                call_ensures(old(self).completion(), (&event,), completes) && (if completes
                    && old(self).state().unresolved {
                    exists|result: Result<R, EventStreamError>| #[trigger]
                        call_ensures(old(self).extraction(), (&event,), result)
                            && final(self).state() == pushed(
                            old(self).state(),
                            event,
                            true,
                            result,
                        )
                } else {
                    forall|result: Result<R, EventStreamError>|
                        final(self).state() == #[trigger] pushed(
                            old(self).state(),
                            event,
                            completes,
                            result,
                        )
                }),
    {
        if self.done {
            return ;
        }
        let completes: bool = (self.is_complete)(&event);
        if completes {
            self.done = true;
            if self.unresolved {
                self.unresolved = false;
                if let Ok(value) = (self.extract_result)(&event) {
                    self.resolved = Some(value);
                }
            }
        }
        self.events.push(event);
    }

    /// End the stream, optionally resolving the final result.
    pub fn end(&mut self, result: Option<R>)
        ensures
            final(self).completion() == old(self).completion(),
            final(self).extraction() == old(self).extraction(),
            final(self).state() == ended(old(self).state(), result),
    {
        if self.done {
            return ;
        }
        self.done = true;
        if let Some(value) = result {
            if self.unresolved {
                self.resolved = Some(value);
            }
        }
        self.unresolved = false;
    }

    /// Give up on a result.
    pub fn close_result(&mut self)
        ensures
            final(self).completion() == old(self).completion(),
            final(self).extraction() == old(self).extraction(),
            final(self).state() == (StreamView { unresolved: false, ..old(self).state() }),
    {
        self.unresolved = false;
    }

    /// The next event.
    pub fn poll_next(&mut self) -> (r: Polled<Option<T>>)
        ensures
            final(self).completion() == old(self).completion(),
            final(self).extraction() == old(self).extraction(),
            (final(self).state(), r) == next_event(old(self).state()),
    {
        if self.events.len() > 0 {
            let ghost before = self.events@;
            let event: T = self.events.remove(0);
            assert(self.events@ =~= before.skip(1));
            Polled::Ready(Some(event))
        } else if self.done {
            Polled::Ready(None)
        } else {
            Polled::Pending
        }
    }

    /// The stream's final result.
    pub fn result(&mut self) -> (r: Polled<Result<R, EventStreamError>>)
        ensures
            final(self).completion() == old(self).completion(),
            final(self).extraction() == old(self).extraction(),
            (final(self).state(), r) == final_result(old(self).state()),
    {
        if self.taken {
            return Polled::Ready(Err(EventStreamError::ResultAlreadyTaken));
        }
        match self.resolved.take() {
            Some(value) => {
                self.taken = true;
                Polled::Ready(Ok(value))
            },
            None => {
                if self.unresolved {
                    Polled::Pending
                } else {
                    self.taken = true;
                    Polled::Ready(Err(EventStreamError::ResultClosed))
                }
            },
        }
    }
}

/// A stream that is done takes no further event, and has no further end.
pub proof fn law_done_stream_stays<T, R>(
    s: StreamView<T, R>,
    event: T,
    completes: bool,
    extracted: Result<R, EventStreamError>,
    result: Option<R>,
)
    requires
        s.done,
    ensures
        pushed(s, event, completes, extracted) == s,
        ended(s, result) == s,
{
}

/// The result of a stream that is done is settled.
pub open spec fn is_settled<T, R>(s: StreamView<T, R>) -> bool {
    s.done ==> !s.unresolved
}

/// Whatever happens to a stream, its result is settled once it is done: it can
/// then be told at once, be it that there is none.
pub proof fn law_done_stream_tells_its_result<T, R>(
    s: StreamView<T, R>,
    event: T,
    completes: bool,
    extracted: Result<R, EventStreamError>,
    result: Option<R>,
)
    requires
        is_settled(s),
    ensures
        is_settled(pushed(s, event, completes, extracted)),
        is_settled(ended(s, result)),
        is_settled(next_event(s).0),
        is_settled(final_result(s).0),
        final_result(ended(s, result)).1 !is Pending,
        s.done ==> final_result(s).1 !is Pending,
{
}

/// An event that is pushed comes out after those that were pushed before it.
pub proof fn law_events_keep_their_order<T, R>(
    s: StreamView<T, R>,
    event: T,
    completes: bool,
    extracted: Result<R, EventStreamError>,
)
    requires
        !s.done,
    ensures
        s.events.len() > 0 ==> next_event(pushed(s, event, completes, extracted)).1 == next_event(
            s,
        ).1,
        s.events.len() == 0 ==> next_event(pushed(s, event, completes, extracted)).1
            == Polled::Ready(Some(event)),
{
}

/// A result is told once.
pub proof fn law_result_is_told_once<T, R>(s: StreamView<T, R>)
    requires
        final_result(s).1 !is Pending,
    ensures
        final_result(final_result(s).0).1 == Polled::Ready(
            Err::<R, EventStreamError>(EventStreamError::ResultAlreadyTaken),
        ),
{
}

// ---------------------------------------------------------------------------
// Assistant messages
// ---------------------------------------------------------------------------

/// The message with which an event ends a stream.
pub open spec fn last_message(event: AssistantMessageEvent) -> Option<AssistantView> {
    match event {
        AssistantMessageEvent::Done { message, .. } => Some(message.deep_view()),
        AssistantMessageEvent::Error { error, .. } => Some(error.deep_view()),
        _ => None,
    }
}

/// Whether an event is the last of its stream.
pub fn is_last_event(event: &AssistantMessageEvent) -> (r: bool)
    ensures
        r == (last_message(*event) is Some),
{
    match event {
        AssistantMessageEvent::Done { .. } => true,
        AssistantMessageEvent::Error { .. } => true,
        _ => false,
    }
}

/// The message with which an event ends its stream.
pub fn extract_message(event: &AssistantMessageEvent) -> (r: Result<
    AssistantMessage,
    EventStreamError,
>)
    ensures
        match r {
            Ok(message) => last_message(*event) == Some(message.deep_view()),
            Err(e) => last_message(*event) is None && e == EventStreamError::NotComplete,
        },
{
    match event {
        AssistantMessageEvent::Done { message, .. } => Ok(message.clone()),
        AssistantMessageEvent::Error { error, .. } => Ok(error.clone()),
        _ => Err(EventStreamError::NotComplete),
    }
}

/// Create an assistant-message event stream.
pub fn create_assistant_message_event_stream() -> (r: EventStream<
    AssistantMessageEvent,
    AssistantMessage,
    impl Fn(&AssistantMessageEvent) -> bool,
    impl Fn(&AssistantMessageEvent) -> Result<AssistantMessage, EventStreamError>,
>)
    ensures
        r.state() == (StreamView::<AssistantMessageEvent, AssistantMessage> {
            events: seq![],
            done: false,
            unresolved: true,
            resolved: None,
            taken: false,
        }),
        forall|event: &AssistantMessageEvent| #[trigger]
            call_requires(r.completion(), (event,)),
        forall|event: &AssistantMessageEvent| #[trigger]
            call_requires(r.extraction(), (event,)),
        forall|event: &AssistantMessageEvent, completes: bool| #[trigger]
            call_ensures(r.completion(), (event,), completes) ==> completes == (last_message(
                *event,
            ) is Some),
        forall|
            event: &AssistantMessageEvent,
            result: Result<AssistantMessage, EventStreamError>,
        | #[trigger]
            call_ensures(r.extraction(), (event,), result) ==> match result {
                Ok(message) => last_message(*event) == Some(message.deep_view()),
                Err(e) => last_message(*event) is None && e == EventStreamError::NotComplete,
            },
{
    EventStream::new(is_last_event, extract_message)
}

} // verus!
