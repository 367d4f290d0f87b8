use std::time::Duration;

use rpi::reconnect::{jittered_backoff, next_backoff, AfterAttempt, Reconnect, ReconnectConfig};
use rpi::streaming::{SseError, SseEvent};

fn nanos(duration: Duration) -> u64 {
    u64::try_from(duration.as_nanos()).unwrap()
}

fn product(current: Duration, multiplier: f64) -> u64 {
    nanos(current.mul_f64(multiplier))
}

fn drawn(current: Duration, multiplier: f64, max: Duration) -> Duration {
    Duration::from_nanos(next_backoff(product(current, multiplier), nanos(max)))
}

#[test]
fn next_backoff_doubles_until_max() {
    let config = ReconnectConfig::default();
    let max = Duration::from_nanos(config.max_backoff);
    let mut backoff = Duration::from_nanos(config.initial_backoff);

    assert_eq!(backoff, Duration::from_secs(1));

    for limit in [2, 4, 8, 16, 30, 30] {
        backoff = drawn(backoff, 2.0, max);
        assert!(
            backoff <= Duration::from_secs(limit),
            "Backoff {:?} exceeded expected max of {}s",
            backoff,
            limit
        );
    }
}

#[test]
fn reconnect_config_default_values() {
    let config = ReconnectConfig::default();
    assert_eq!(config.max_retries, Some(3));
    assert_eq!(config.initial_backoff, nanos(Duration::from_secs(1)));
    assert_eq!(config.max_backoff, nanos(Duration::from_secs(30)));
    assert_eq!(config.idle_timeout, Some(nanos(Duration::from_secs(300))));
}

#[test]
fn reconnect_config_has_partial_eq() {
    let config1 = ReconnectConfig::default();
    let config2 = ReconnectConfig::default();
    assert_eq!(config1, config2);

    let mut config3 = ReconnectConfig::default();
    config3.max_retries = Some(5);
    assert_ne!(config1, config3);
}

#[test]
fn reconnect_config_can_be_compared_in_tests() {
    let expected = ReconnectConfig {
        max_retries: Some(3),
        initial_backoff: nanos(Duration::from_secs(1)),
        max_backoff: nanos(Duration::from_secs(30)),
        idle_timeout: Some(nanos(Duration::from_secs(300))),
    };
    assert_eq!(ReconnectConfig::default(), expected);
}

#[test]
fn next_backoff_jitters_within_range() {
    let current = Duration::from_secs(2);
    let multiplier = 2.0;
    let max = Duration::from_secs(30);

    let mut values = Vec::new();
    for _ in 0..10 {
        values.push(drawn(current, multiplier, max));
    }

    let unique: std::collections::HashSet<_> = values.iter().collect();
    assert!(
        unique.len() > 1,
        "Expected jitter to produce varied values, got all same: {:?}",
        values[0]
    );
}

#[test]
fn next_backoff_jitter_stays_within_bounds() {
    let current = Duration::from_secs(10);
    let multiplier = 2.0;
    let max = Duration::from_secs(30);

    for _ in 0..100 {
        let backoff = drawn(current, multiplier, max);
        assert!(backoff <= max, "Backoff {:?} exceeded max {:?}", backoff, max);
        assert!(
            backoff <= Duration::from_secs(20),
            "Backoff {:?} exceeded deterministic next {:?}",
            backoff,
            Duration::from_secs(20)
        );
    }
}

#[test]
fn next_backoff_equal_jitter_minimum_bound() {
    let current = Duration::from_secs(10);
    let multiplier = 2.0;
    let max = Duration::from_secs(30);
    let minimum = Duration::from_secs(10);

    for _ in 0..100 {
        let backoff = drawn(current, multiplier, max);
        assert!(
            backoff >= minimum,
            "Equal jitter backoff {:?} should be >= {:?}",
            backoff,
            minimum
        );
    }
}

#[test]
fn reconnecting_sse_stream_classifies_retryable_errors() {
    let config = ReconnectConfig {
        max_retries: Some(2),
        initial_backoff: nanos(Duration::from_millis(1)),
        max_backoff: nanos(Duration::from_millis(10)),
        idle_timeout: Some(nanos(Duration::from_millis(50))),
    };

    let mut state = Reconnect::new(&config);
    let mut connections = 0;
    let mut got_retryable_error = false;
    loop {
        match state.start_attempt(&config) {
            Ok(()) => connections += 1,
            Err(message) => {
                got_retryable_error = message.contains("reconnection attempts");
                assert_eq!(message, "SSE stream failed after 2 reconnection attempts");
                break;
            }
        }
        assert!(state.take_error(Some(&SseError::IdleTimeout { timeout_ms: 50 })));
        match state.end_attempt() {
            AfterAttempt::Finish => panic!("an idle stream is not complete"),
            AfterAttempt::Wait { delay } => {
                state.grow_backoff(product(Duration::from_nanos(delay), 2.0), &config)
            }
        }
    }
    assert!(
        connections > 1,
        "Expected retries (multiple connections), got {connections}"
    );
    assert!(
        got_retryable_error,
        "Expected exhausted-retries error after retrying idle timeouts"
    );
}

#[test]
fn first_request_is_no_reconnection() {
    for max in 0..4u32 {
        let config = ReconnectConfig {
            max_retries: Some(max),
            ..ReconnectConfig::default()
        };
        let mut state = Reconnect::new(&config);
        let mut requests = 0;
        let message = loop {
            match state.start_attempt(&config) {
                Ok(()) => requests += 1,
                Err(message) => break message,
            }
        };
        assert_eq!(requests, max + 1);
        assert_eq!(message, format!("SSE stream failed after {max} reconnection attempts"));
    }
}

#[test]
fn non_retryable_error_would_propagate() {
    let config = ReconnectConfig::default();
    let mut state = Reconnect::new(&config);
    state.start_attempt(&config).unwrap();

    let retryable = SseError::IdleTimeout { timeout_ms: 5000 };
    assert!(retryable.is_retryable(), "IdleTimeout should be retryable");
    assert!(state.take_error(Some(&retryable)));

    assert!(!state.take_error(None), "other errors are passed on");
}

#[test]
fn jitter_is_added_to_half() {
    assert_eq!(jittered_backoff(21, 30, 4), 14);
    assert_eq!(jittered_backoff(100, 30, 15), 30);
    assert_eq!(jittered_backoff(100, 30, 0), 15);
    assert_eq!(next_backoff(0, 30), 0);
}

#[test]
fn attempt_with_events_is_complete_unless_cut_off() {
    let config = ReconnectConfig::default();
    let mut state = Reconnect::new(&config);
    state.start_attempt(&config).unwrap();
    let wait = AfterAttempt::Wait {
        delay: config.initial_backoff,
    };
    assert_eq!(state.end_attempt(), wait);
    let event = SseEvent {
        event: None,
        data: "x".to_string(),
        id: None,
    };
    assert!(!state.take_event(&event));
    assert_eq!(state.end_attempt(), AfterAttempt::Finish);
    assert!(state.take_error(Some(&SseError::ReadError {
        message: "reset".to_string(),
    })));
    assert_eq!(state.end_attempt(), wait);
    state.start_attempt(&config).unwrap();
    assert_eq!(state.attempt, 2);
    assert!(!state.had_events && !state.cut_off);
    let done = SseEvent {
        event: None,
        data: "[DONE]".to_string(),
        id: None,
    };
    assert!(state.take_event(&done));
}
