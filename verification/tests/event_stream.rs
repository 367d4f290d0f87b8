use rpi::event_stream::{
    create_assistant_message_event_stream, extract_message, is_last_event, EventStream,
    EventStreamError, Polled,
};
use rpi::types::{AssistantMessage, AssistantMessageEvent, ContentBlock, StopReason, Usage};

fn ready<X>(polled: Polled<X>) -> X {
    match polled {
        Polled::Ready(value) => value,
        Polled::Pending => panic!("nothing is ready"),
    }
}

fn all_events<T, R, F: Fn(&T) -> bool, G: Fn(&T) -> Result<R, EventStreamError>>(
    stream: &mut EventStream<T, R, F, G>,
) -> Vec<T> {
    let mut events = Vec::new();
    while let Some(event) = ready(stream.poll_next()) {
        events.push(event);
    }
    events
}


#[test]
fn push_and_receive_single_event() {
    let mut stream =
        EventStream::new(|_: &u32| false, |_: &u32| Err::<u32, EventStreamError>(EventStreamError::NotComplete));

    stream.push(42);
    stream.end(None);

    let events: Vec<u32> = all_events(&mut stream);
    assert_eq!(events, vec![42]);
}

#[test]
fn push_multiple_events_preserves_order() {
    let mut stream =
        EventStream::new(|_: &u32| false, |_: &u32| Err::<u32, EventStreamError>(EventStreamError::NotComplete));

    stream.push(1);
    stream.push(2);
    stream.push(3);
    stream.end(None);

    let events: Vec<u32> = all_events(&mut stream);
    assert_eq!(events, vec![1, 2, 3]);
}

#[test]
fn terminal_event_resolves_result_ok() {
    let mut stream =
        EventStream::new(|event: &u32| *event == 3, |event: &u32| Ok::<u32, EventStreamError>(*event));

    stream.push(1);
    stream.push(2);
    stream.push(3);

    let events: Vec<u32> = all_events(&mut stream);
    assert_eq!(events, vec![1, 2, 3]);

    let result = ready(stream.result()).unwrap();
    assert_eq!(result, 3);
}

#[test]
fn extract_result_error_returns_err() {
    let mut stream = EventStream::new(
        |_: &u32| true,
        |_: &u32| Err::<u32, EventStreamError>(EventStreamError::NotComplete),
    );

    stream.push(42);

    let events: Vec<u32> = all_events(&mut stream);
    assert_eq!(events, vec![42]);

    let err = ready(stream.result()).unwrap_err();
    assert_eq!(err, EventStreamError::ResultClosed);
}

#[test]
fn stream_yields_none_after_terminal_event() {
    let mut stream =
        EventStream::new(|event: &u32| *event == 99, |event: &u32| Ok::<u32, EventStreamError>(*event));

    stream.push(99);

    let first = ready(stream.poll_next());
    assert_eq!(first, Some(99));

    let second = ready(stream.poll_next());
    assert_eq!(second, None);
}

#[test]
fn push_after_terminal_is_noop() {
    let mut stream =
        EventStream::new(|event: &u32| *event == 1, |event: &u32| Ok::<u32, EventStreamError>(*event));

    stream.push(1);
    stream.push(2);
    stream.push(3);

    let events: Vec<u32> = all_events(&mut stream);
    assert_eq!(events, vec![1]);

    let result = ready(stream.result()).unwrap();
    assert_eq!(result, 1);
}

#[test]
fn drop_before_completion_no_panic() {
    let mut stream =
        EventStream::new(|_: &u32| false, |_: &u32| Err::<u32, EventStreamError>(EventStreamError::NotComplete));

    stream.push(1);
    stream.push(2);

    drop(stream);
}

#[test]
fn result_before_completion_returns_closed() {
    let mut stream =
        EventStream::new(|_: &u32| false, |_: &u32| Err::<u32, EventStreamError>(EventStreamError::NotComplete));

    stream.close_result();

    let err = ready(stream.result()).unwrap_err();
    assert_eq!(err, EventStreamError::ResultClosed);
}

#[test]
fn result_called_twice_returns_already_taken() {
    let mut stream =
        EventStream::new(|event: &u32| *event == 1, |event: &u32| Ok::<u32, EventStreamError>(*event));

    stream.push(1);

    let first = ready(stream.result());
    assert!(first.is_ok());

    let second = ready(stream.result()).unwrap_err();
    assert_eq!(second, EventStreamError::ResultAlreadyTaken);
}

#[test]
fn end_with_result_resolves() {
    let mut stream =
        EventStream::new(|_: &u32| false, |_: &u32| Err::<u32, EventStreamError>(EventStreamError::NotComplete));

    stream.push(1);
    stream.push(2);
    stream.end(Some(999));

    let events: Vec<u32> = all_events(&mut stream);
    assert_eq!(events, vec![1, 2]);

    let result = ready(stream.result()).unwrap();
    assert_eq!(result, 999);
}

#[test]
fn end_without_result_closes_stream() {
    let mut stream =
        EventStream::new(|_: &u32| false, |_: &u32| Err::<u32, EventStreamError>(EventStreamError::NotComplete));

    stream.push(1);
    stream.end(None);

    let events: Vec<u32> = all_events(&mut stream);
    assert_eq!(events, vec![1]);

    stream.close_result();
    let err = ready(stream.result()).unwrap_err();
    assert_eq!(err, EventStreamError::ResultClosed);
}

#[test]
fn end_after_terminal_is_noop() {
    let mut stream =
        EventStream::new(|event: &u32| *event == 1, |event: &u32| Ok::<u32, EventStreamError>(*event));

    stream.push(1);
    stream.end(Some(999));

    let events: Vec<u32> = all_events(&mut stream);
    assert_eq!(events, vec![1]);

    let result = ready(stream.result()).unwrap();
    assert_eq!(result, 1);
}

#[test]
fn push_after_end_is_noop() {
    let mut stream =
        EventStream::new(|_: &u32| false, |_: &u32| Err::<u32, EventStreamError>(EventStreamError::NotComplete));

    stream.push(1);
    stream.end(None);
    stream.push(2);

    let events: Vec<u32> = all_events(&mut stream);
    assert_eq!(events, vec![1]);
}

#[test]
fn empty_stream_end_yields_no_events() {
    let mut stream =
        EventStream::new(|_: &u32| false, |_: &u32| Err::<u32, EventStreamError>(EventStreamError::NotComplete));

    stream.end(None);

    let events: Vec<u32> = all_events(&mut stream);
    assert!(events.is_empty());
}

#[test]
fn assistant_event_stream_error_terminal() {
    let mut stream = create_assistant_message_event_stream();

    let err_msg = AssistantMessage {
        content: vec![],
        api: "openai".to_string(),
        provider: "openai".to_string(),
        model: "gpt-4o".to_string(),
        response_model: None,
        response_id: None,
        usage: Usage {
            prompt_tokens: 1,
            completion_tokens: 0,
            total_tokens: 1,
        },
        stop_reason: StopReason::Error,
        error_message: Some("something failed".to_string()),
        timestamp: 0,
    };

    stream.push(AssistantMessageEvent::Error {
        reason: StopReason::Error,
        error: err_msg.clone(),
    });

    let event = ready(stream.poll_next()).unwrap();
    assert!(matches!(event, AssistantMessageEvent::Error { .. }));

    let result = ready(stream.result()).unwrap();
    assert_eq!(result, err_msg);
}

#[test]
fn non_terminal_events_stream_then_close() {
    let mut stream = create_assistant_message_event_stream();

    stream.push(AssistantMessageEvent::TextDelta {
        content_index: 0,
        delta: "hello".to_string(),
        partial: AssistantMessage {
            content: vec![ContentBlock::Text {
                text: "hello".to_string(),
            }],
            api: "openai".to_string(),
            provider: "openai".to_string(),
            model: "gpt-4o".to_string(),
            response_model: None,
            response_id: None,
            usage: Usage {
                prompt_tokens: 1,
                completion_tokens: 1,
                total_tokens: 2,
            },
            stop_reason: StopReason::Stop,
            error_message: None,
            timestamp: 0,
        },
    });

    let event = ready(stream.poll_next()).unwrap();
    assert!(matches!(event, AssistantMessageEvent::TextDelta { .. }));

    stream.end(None);

    stream.close_result();
    let err = ready(stream.result()).unwrap_err();
    assert_eq!(err, EventStreamError::ResultClosed);
}

#[test]
fn event_stream_error_display() {
    assert_eq!(
        EventStreamError::ResultAlreadyTaken.to_text(),
        "event stream result was already awaited"
    );
    assert_eq!(
        EventStreamError::ResultClosed.to_text(),
        "event stream ended without a final result"
    );
    assert_eq!(
        EventStreamError::NotComplete.to_text(),
        "event stream extract_result called on non-terminal event"
    );
}

#[test]
fn event_stream_error_eq() {
    assert_eq!(
        EventStreamError::ResultAlreadyTaken,
        EventStreamError::ResultAlreadyTaken
    );
    assert_ne!(
        EventStreamError::ResultAlreadyTaken,
        EventStreamError::ResultClosed
    );
}

#[test]
fn open_stream_is_waited_for() {
    let mut stream = EventStream::new(
        |event: &u32| *event == 7,
        |event: &u32| Ok::<u32, EventStreamError>(*event + 1),
    );
    assert!(matches!(stream.poll_next(), Polled::Pending));
    assert!(matches!(stream.result(), Polled::Pending));
    stream.push(7);
    assert_eq!(ready(stream.result()), Ok(8));
    assert_eq!(ready(stream.poll_next()), Some(7));
    assert_eq!(ready(stream.poll_next()), None);
}

#[test]
fn end_without_result_settles_it() {
    let mut stream = EventStream::new(
        |_: &u32| false,
        |_: &u32| Err::<u32, EventStreamError>(EventStreamError::NotComplete),
    );
    stream.push(1);
    assert!(matches!(stream.result(), Polled::Pending));
    stream.end(None);
    assert_eq!(ready(stream.result()), Err(EventStreamError::ResultClosed));
    assert_eq!(ready(stream.result()), Err(EventStreamError::ResultAlreadyTaken));
}

#[test]
fn only_last_events_hold_the_message() {
    let message = AssistantMessage {
        content: vec![],
        api: "openai".to_string(),
        provider: "openai".to_string(),
        model: "gpt-4o".to_string(),
        response_model: None,
        response_id: None,
        usage: Usage {
            prompt_tokens: 1,
            completion_tokens: 0,
            total_tokens: 1,
        },
        stop_reason: StopReason::Stop,
        error_message: None,
        timestamp: 0,
    };
    let start = AssistantMessageEvent::Start {
        partial: message.clone(),
    };
    assert!(!is_last_event(&start));
    assert_eq!(extract_message(&start), Err(EventStreamError::NotComplete));
    let done = AssistantMessageEvent::Done {
        reason: StopReason::Stop,
        message: message.clone(),
    };
    assert!(is_last_event(&done));
    assert_eq!(extract_message(&done), Ok(message));
}
