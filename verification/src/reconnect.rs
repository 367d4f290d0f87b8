//! SSE reconnection with exponential backoff.
//!
//! Retry logic for resilient streaming from LLM providers that may drop
//! connections. Times are given in nanoseconds.

use vstd::prelude::*;

use crate::streaming::{SseError, SseEvent};
use crate::text::{decimal, decimal_text, trimmed};

verus! {

/// Configuration for stream reconnection behavior.
#[derive(Debug, Clone, Copy, PartialEq, Eq)]
pub struct ReconnectConfig {
    /// Maximum number of reconnection attempts. None = unlimited.
    pub max_retries: Option<u32>,
    /// Initial backoff.
    pub initial_backoff: u64,
    /// Maximum backoff.
    pub max_backoff: u64,
    /// Idle timeout between chunks.
    pub idle_timeout: Option<u64>,
}

impl Default for ReconnectConfig {
    fn default() -> (r: Self)
        ensures
            r == (ReconnectConfig {
                max_retries: Some(3),
                initial_backoff: 1_000_000_000,
                max_backoff: 30_000_000_000,
                idle_timeout: Some(300_000_000_000),
            }),
    {
        ReconnectConfig {
            max_retries: Some(3),
            initial_backoff: 1_000_000_000,
            max_backoff: 30_000_000_000,
            idle_timeout: Some(300_000_000_000),
        }
    }
}

// ---------------------------------------------------------------------------
// Backoff
// ---------------------------------------------------------------------------

/// The longest that a backoff can be.
pub open spec fn capped(next: u64, max: u64) -> u64 {
    if next > max {
        max
    } else {
        next
    }
}

/// A number from zero up to a bound, drawn at random.
///
/// Calls `rand::Rng::random_range` of the thread's generator on the range from
/// zero up to the bound and including it: the number lies in that range. Which
/// one it is is left to chance.
#[verifier::external_body]
fn draw_up_to(bound: u64) -> (r: u64)
    ensures
        r <= bound,
{
    rand::Rng::random_range(&mut rand::rng(), 0..=bound)
}

/// The backoff for a draw: half of the longest, and the draw on top.
pub fn jittered_backoff(next: u64, max: u64, draw: u64) -> (r: u64)
    requires
        draw <= capped(next, max) / 2,
    ensures
        r == capped(next, max) / 2 + draw,
{
    let longest: u64 = if next > max {
        max
    } else {
        next
    };
    longest / 2 + draw
}

/// The backoff after the current one, of which `next` is the product with the
/// multiplier.
///
/// Equal jitter: it lies between half of the longest that it can be and that,
/// which prevents near-zero delays while still spreading load.
pub fn next_backoff(next: u64, max: u64) -> (r: u64)
    ensures
        capped(next, max) / 2 <= r <= capped(next, max),
{
    let longest: u64 = if next > max {
        max
    } else {
        next
    };
    let draw: u64 = draw_up_to(longest / 2);
    jittered_backoff(next, max, draw)
}

// ---------------------------------------------------------------------------
// Attempts
// ---------------------------------------------------------------------------

/// Where the attempts to read a stream are.
#[derive(Debug, Clone, Copy, PartialEq, Eq)]
pub struct Reconnect {
    /// How many attempts have been started.
    pub attempt: u32,
    /// How long to wait before the next.
    pub backoff: u64,
    /// The current attempt has given an event.
    pub had_events: bool,
    /// The current attempt was cut off by an error after which it is tried again.
    pub cut_off: bool,
}

/// What to do once an attempt is over.
#[derive(Debug, Clone, Copy, PartialEq, Eq)]
pub enum AfterAttempt {
    /// The stream is complete.
    Finish,
    /// Wait, and try again.
    Wait {
        /// How long to wait.
        delay: u64,
    },
}

/// The message when all attempts have failed.
pub open spec fn exhausted_text(max: u32) -> Seq<char> {
    "SSE stream failed after "@ + decimal(max as nat) + " reconnection attempts"@
}

/// No further attempt is allowed: the first one, and the allowed number of
/// reconnections, have been started.
pub open spec fn is_exhausted(s: Reconnect, config: ReconnectConfig) -> bool {
    config.max_retries matches Some(max) && s.attempt > max
}

impl Reconnect {
    /// Before the first attempt.
    pub fn new(config: &ReconnectConfig) -> (r: Self)
        ensures
            r == (Reconnect {
                attempt: 0,
                backoff: config.initial_backoff,
                had_events: false,
                cut_off: false,
            }),
    {
        Reconnect {
            attempt: 0,
            backoff: config.initial_backoff,
            had_events: false,
            cut_off: false,
        }
    }

    /// Start the next attempt, or tell that all of them have failed. However often a
    /// stream is cut off, no more attempts are started than the first one and the
    /// allowed reconnections.
    pub fn start_attempt(&mut self, config: &ReconnectConfig) -> (r: Result<(), String>)
        requires
            old(self).attempt < u32::MAX,
        ensures
            match r {
                Ok(_) => {
                    &&& !is_exhausted(*old(self), *config)
                    &&& config.max_retries matches Some(max) ==> final(self).attempt <= max + 1
                    &&& *final(self) == (Reconnect {
                        attempt: (old(self).attempt + 1) as u32,
                        had_events: false,
                        cut_off: false,
                        ..*old(self)
                    })
                },
                Err(message) => {
                    &&& is_exhausted(*old(self), *config)
                    &&& message@ == exhausted_text(config.max_retries->0)
                    &&& *final(self) == *old(self)
                },
            },
    {
        if let Some(max) = config.max_retries {
            if self.attempt > max {
                let mut message: String = "SSE stream failed after ".to_owned();
                message.push_str(&decimal_text(max as u64));
                message.push_str(" reconnection attempts");
                return Err(message);
            }
        }
        self.attempt = self.attempt + 1;
        self.had_events = false;
        self.cut_off = false;
        Ok(())
    }

    /// Take an event of the current attempt. Tells whether it is the last.
    pub fn take_event(&mut self, event: &SseEvent) -> (r: bool)
        ensures
            r == (trimmed(event.data@) == "[DONE]"@),
            *final(self) == (Reconnect { had_events: true, ..*old(self) }),
    {
        self.had_events = true;
        event.is_done()
    }

    /// Take an error of the current attempt: one of the stream, or any other. Tells
    /// whether the attempt is over and to be tried again; otherwise the error is
    /// to be passed on, and is the last.
    pub fn take_error(&mut self, error: Option<&SseError>) -> (r: bool)
        ensures
            r == (error is Some),
            *final(self) == (if error is Some {
                Reconnect { cut_off: true, ..*old(self) }
            } else {
                *old(self)
            }),
    {
        match error {
            Some(error) => {
                if error.is_retryable() {
                    self.cut_off = true;
                    true
                } else {
                    false
                }
            },
            None => false,
        }
    }

    /// What to do once the current attempt is over: it is complete where it ended
    /// on its own and gave an event.
    pub fn end_attempt(&self) -> (r: AfterAttempt)
        ensures
            r == if self.had_events && !self.cut_off {
                AfterAttempt::Finish
            } else {
                AfterAttempt::Wait { delay: self.backoff }
            },
    {
        if self.had_events && !self.cut_off {
            AfterAttempt::Finish
        } else {
            AfterAttempt::Wait { delay: self.backoff }
        }
    }

    /// After the wait, the next one is longer: `next` is the product of the current
    /// one with the multiplier.
    pub fn grow_backoff(&mut self, next: u64, config: &ReconnectConfig)
        ensures
            *final(self) == (Reconnect { backoff: final(self).backoff, ..*old(self) }),
            capped(next, config.max_backoff) / 2 <= final(self).backoff <= capped(
                next,
                config.max_backoff,
            ),
    {
        self.backoff = next_backoff(next, config.max_backoff);
    }
}

} // verus!
