//! Messages waiting for a link.
//!
//! A message sent to a destination whose link is not yet active is queued
//! and goes out when the link activates. A message that has waited longer
//! than the time to live is dropped instead of sent.

use crate::time::age;
use crate::time::age_us;
use crate::time::MonotonicClock;
use vstd::prelude::*;

verus! {

/// Time to live of a queued message: 60 seconds, in microseconds.
pub const QUEUE_MESSAGE_TTL: u64 = 60_000_000;

/// Maximum number of queued messages per destination.
pub const MAX_QUEUED_MESSAGES_PER_DEST: usize = 5;

/// A message queued for a pending link.
#[derive(Clone, Debug)]
pub struct QueuedMessage {
    text: String,
    queued_at: u64,
}

/// A queued message as plain values.
pub struct QueuedModel {
    /// The message text.
    pub text: Seq<char>,
    /// When the message was queued.
    pub queued_at: u64,
}

impl QueuedModel {
    /// The message has waited longer than `ttl` at `now`.
    pub open spec fn expired_after(self, ttl: u64, now: u64) -> bool {
        age(now, self.queued_at) > ttl
    }

    /// The message has waited longer than the time to live at `now`.
    pub open spec fn expired(self, now: u64) -> bool {
        self.expired_after(QUEUE_MESSAGE_TTL, now)
    }
}

impl View for QueuedMessage {
    type V = QueuedModel;

    closed spec fn view(&self) -> QueuedModel {
        QueuedModel { text: self.text@, queued_at: self.queued_at }
    }
}

impl QueuedMessage {
    /// Queues a message at the clock's reading.
    pub fn new(text: String, clock: &MonotonicClock) -> (m: Self)
        ensures
            m@.text == text@,
    {
        QueuedMessage { text, queued_at: clock.now() }
    }

    /// A message queued at `queued_at`.
    pub fn with_timestamp(text: String, queued_at: u64) -> (m: Self)
        ensures
            m@ == (QueuedModel { text: text@, queued_at }),
    {
        QueuedMessage { text, queued_at }
    }

    /// The message text.
    pub fn text(&self) -> (t: &str)
        ensures
            t@ == self@.text,
    {
        self.text.as_str()
    }

    /// When the message was queued.
    pub fn queued_at(&self) -> (t: u64)
        ensures
            t == self@.queued_at,
    {
        self.queued_at
    }

    /// Whether the message has waited longer than the time to live at `now`.
    pub fn is_expired_at(&self, now: u64) -> (r: bool)
        ensures
            r == self@.expired(now),
    {
        age_us(now, self.queued_at) > QUEUE_MESSAGE_TTL
    }

    /// Whether the message has waited longer than `duration` microseconds at
    /// `now`.
    pub fn is_expired_after_at(&self, duration: u64, now: u64) -> (r: bool)
        ensures
            r == self@.expired_after(duration, now),
    {
        age_us(now, self.queued_at) > duration
    }

    /// Whether the message has waited longer than the time to live at the
    /// clock's reading.
    pub fn is_expired(&self, clock: &MonotonicClock) -> (r: bool)
        ensures
            exists|now: u64| r == #[trigger] self@.expired(now),
    {
        let now = clock.now();
        self.is_expired_at(now)
    }

    /// Whether the message has waited longer than `duration` microseconds at
    /// the clock's reading.
    pub fn is_expired_after(&self, duration: u64, clock: &MonotonicClock) -> (r: bool)
        ensures
            exists|now: u64| r == #[trigger] self@.expired_after(duration, now),
    {
        let now = clock.now();
        self.is_expired_after_at(duration, now)
    }
}

} // verus!
