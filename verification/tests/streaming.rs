use rpi::streaming::{take_line, PendingEvent, SseError, SseEvent, SseParser};

fn events_of(chunks: &[&[u8]]) -> Vec<SseEvent> {
    let mut parser = SseParser::new();
    let mut events = Vec::new();
    for chunk in chunks {
        events.extend(parser.feed(&chunk.to_vec()));
    }
    events.extend(parser.finish());
    events
}

#[test]
fn sse_events_from_byte_stream_preserves_event_id_and_multiline_data() {
    let results = events_of(&[
        b": comment\nretry: 1000\nevent: delta\nid: evt-1\ndata: {\"a\":1}\ndata: {\"b\":2}\n\n",
    ]);

    assert_eq!(results.len(), 1);
    let event = &results[0];
    assert_eq!(event.event.as_deref(), Some("delta"));
    assert_eq!(event.id.as_deref(), Some("evt-1"));
    assert_eq!(event.data, "{\"a\":1}\n{\"b\":2}");
}

#[test]
fn sse_events_from_byte_stream_reports_read_errors() {
    let error = SseError::ReadError {
        message: "connection reset".to_string(),
    };
    assert!(error.to_text().contains("SSE stream read error"));
    assert_eq!(error.to_text(), "SSE stream read error: connection reset");
}

#[test]
fn sse_events_from_byte_stream_reports_idle_timeout() {
    let error = SseError::IdleTimeout { timeout_ms: 1 };
    assert!(error.to_text().contains("SSE stream idle timeout"));
    assert_eq!(error.to_text(), "SSE stream idle timeout after 1ms");
}

#[test]
fn sse_events_from_byte_stream_handles_utf8_split_across_chunks() {
    let results = events_of(&[b"data: hello \xe2\x82", b"\xac world\n\n"]);

    assert_eq!(results.len(), 1);
    let event = &results[0];
    assert_eq!(event.data, "hello \u{20ac} world");
    assert!(
        !event.data.contains('\u{fffd}'),
        "data contained U+FFFD: {:?}",
        event.data
    );
}

#[test]
fn sse_stream_error_has_typed_variants() {
    let timeout_err = SseError::IdleTimeout { timeout_ms: 5000 };
    assert!(matches!(timeout_err, SseError::IdleTimeout { .. }));
    assert!(timeout_err.is_retryable());

    let read_err = SseError::ReadError {
        message: "connection reset".to_string(),
    };
    assert!(matches!(read_err, SseError::ReadError { .. }));
    assert!(read_err.is_retryable());
}

#[test]
fn bytes_that_are_no_text_are_replaced() {
    let results = events_of(&[b"data: a\xffb\r\r\n\n"]);
    assert_eq!(results.len(), 1);
    assert_eq!(results[0].data, "a\u{fffd}b");
}

#[test]
fn events_do_not_depend_on_where_chunks_end() {
    let text = b"event: x\ndata:a\n\ndata:  b\ndata\n\nid: 4\ndata: tail\n";
    let whole = events_of(&[text]);
    for cut in 0..text.len() {
        assert_eq!(events_of(&[&text[..cut], &text[cut..]]), whole);
    }
    assert_eq!(whole.len(), 3);
    assert_eq!(whole[0].data, "a");
    assert_eq!(whole[0].event.as_deref(), Some("x"));
    assert_eq!(whole[2].id.as_deref(), Some("4"));
    assert_eq!(whole[2].data, "tail");
}

#[test]
fn unfinished_line_is_dropped() {
    assert!(events_of(&[b"data: a"]).is_empty());
    assert_eq!(events_of(&[b"data: a\ndata: b"])[0].data, "a");
}

#[test]
fn blank_line_without_data_ends_nothing() {
    let mut current = PendingEvent::default();
    assert_eq!(take_line(&mut current, "event: ping"), None);
    assert_eq!(take_line(&mut current, ""), None);
    assert_eq!(take_line(&mut current, "data: x"), None);
    let event = take_line(&mut current, "").unwrap();
    assert_eq!(event.data, "x");
    assert_eq!(current.event, SseEvent::default());
    assert!(!current.has_data);
}

#[test]
fn empty_data_lines_are_joined_like_others() {
    let events = events_of(&[b"data:\ndata: x\n\n"]);
    assert_eq!(events.len(), 1);
    assert_eq!(events[0].data, "\nx");
    assert_eq!(events[0].event, None);
    assert_eq!(events[0].id, None);
    let events = events_of(&[b"data: a\ndata:\ndata: b\n\n"]);
    assert_eq!(events[0].data, "a\n\nb");
    // An event without any data is none, and leaves nothing to the next.
    let events = events_of(&[b"data:\n\ndata: x\n\n"]);
    assert_eq!(events.len(), 1);
    assert_eq!(events[0].data, "x");
}

#[test]
fn done_marker_may_stand_among_spaces() {
    let done = SseEvent {
        event: None,
        data: " [DONE]\n".to_string(),
        id: None,
    };
    assert!(done.is_done());
    assert!(!SseEvent::default().is_done());
}
