//! Node statistics and the stats endpoint.
//!
//! The node counts packets per interface, sizes of the routing structures
//! and the fate of queued messages. `GET /stats` returns the counters as one
//! JSON object; the routing of requests to replies is decided here.

use crate::text::decimal;
use crate::text::push_decimal;
use crate::text::push_text;
use crate::text::same_text;
use crate::time::seconds_in;
use crate::time::whole_secs;
use crate::time::MonotonicClock;
use vstd::prelude::*;
use vstd::string::*;

verus! {

/// Default port of the stats endpoint.
pub const DEFAULT_STATS_PORT: u16 = 8080;

/// `a + b` modulo the range of `usize`: a counter that wraps around.
pub open spec fn wrapping_sum(a: usize, b: usize) -> usize {
    if a + b > usize::MAX {
        (a + b - usize::MAX - 1) as usize
    } else {
        (a + b) as usize
    }
}

/// `a - b`, or zero if `b` exceeds `a`: a gauge that never underflows.
pub open spec fn saturating_diff(a: usize, b: usize) -> usize {
    if a >= b {
        (a - b) as usize
    } else {
        0
    }
}

/// Computes [`wrapping_sum`].
pub fn wrapping_add(a: usize, b: usize) -> (s: usize)
    ensures
        s == wrapping_sum(a, b),
{
    if b > usize::MAX - a {
        b - (usize::MAX - a) - 1
    } else {
        a + b
    }
}

/// Computes [`saturating_diff`].
pub fn saturating_sub(a: usize, b: usize) -> (d: usize)
    ensures
        d == saturating_diff(a, b),
{
    if a >= b {
        a - b
    } else {
        0
    }
}

/// Packets sent and received over one interface.
#[derive(Debug, Clone, Copy, PartialEq, Eq)]
pub struct InterfaceStats {
    /// Packets transmitted.
    pub tx: usize,
    /// Packets received.
    pub rx: usize,
}

impl InterfaceStats {
    /// Both counters at zero.
    pub fn new() -> (s: Self)
        ensures
            s.tx == 0,
            s.rx == 0,
    {
        InterfaceStats { tx: 0, rx: 0 }
    }

    /// Counts a transmitted packet.
    pub fn record_tx(&mut self)
        ensures
            final(self).tx == wrapping_sum(old(self).tx, 1),
            final(self).rx == old(self).rx,
    {
        self.tx = wrapping_add(self.tx, 1);
    }

    /// Counts a received packet.
    pub fn record_rx(&mut self)
        ensures
            final(self).rx == wrapping_sum(old(self).rx, 1),
            final(self).tx == old(self).tx,
    {
        self.rx = wrapping_add(self.rx, 1);
    }

    /// The counters as a JSON object.
    pub open spec fn json(self) -> Seq<char> {
        "{\"tx\":"@ + decimal(self.tx as nat) + ",\"rx\":"@ + decimal(self.rx as nat) + "}"@
    }

    /// Appends the counters as a JSON object.
    pub fn write_json(&self, out: &mut String)
        ensures
            final(out)@ == old(out)@ + self.json(),
    {
        push_text(out, "{\"tx\":");
        push_decimal(out, self.tx as u64);
        push_text(out, ",\"rx\":");
        push_decimal(out, self.rx as u64);
        push_text(out, "}");
        assert(out@ =~= old(out)@ + self.json());
    }

    /// The counters as a JSON object.
    pub fn to_json(&self) -> (s: String)
        ensures
            s@ == self.json(),
    {
        let mut out = String::new();
        self.write_json(&mut out);
        assert(out@ =~= self.json());
        out
    }
}

/// Sizes of the routing structures.
#[derive(Debug, Clone, Copy, PartialEq, Eq)]
pub struct RoutingStats {
    /// Entries in the announce cache.
    pub announce_cache_size: usize,
    /// Destinations in the path table.
    pub path_table_size: usize,
    /// Known destinations.
    pub known_destinations: usize,
}

impl RoutingStats {
    /// All sizes at zero.
    pub fn new() -> (s: Self)
        ensures
            s.announce_cache_size == 0,
            s.path_table_size == 0,
            s.known_destinations == 0,
    {
        RoutingStats { announce_cache_size: 0, path_table_size: 0, known_destinations: 0 }
    }

    /// The sizes as a JSON object.
    pub open spec fn json(self) -> Seq<char> {
        "{\"announce_cache_size\":"@ + decimal(self.announce_cache_size as nat)
            + ",\"path_table_size\":"@ + decimal(self.path_table_size as nat)
            + ",\"known_destinations\":"@ + decimal(self.known_destinations as nat) + "}"@
    }

    /// Appends the sizes as a JSON object.
    pub fn write_json(&self, out: &mut String)
        ensures
            final(out)@ == old(out)@ + self.json(),
    {
        push_text(out, "{\"announce_cache_size\":");
        push_decimal(out, self.announce_cache_size as u64);
        push_text(out, ",\"path_table_size\":");
        push_decimal(out, self.path_table_size as u64);
        push_text(out, ",\"known_destinations\":");
        push_decimal(out, self.known_destinations as u64);
        push_text(out, "}");
        assert(out@ =~= old(out)@ + self.json());
    }

    /// The sizes as a JSON object.
    pub fn to_json(&self) -> (s: String)
        ensures
            s@ == self.json(),
    {
        let mut out = String::new();
        self.write_json(&mut out);
        assert(out@ =~= self.json());
        out
    }
}

/// The fate of queued messages.
#[derive(Debug, Clone, Copy, PartialEq, Eq)]
pub struct QueueStats {
    /// Messages waiting for a link right now.
    pub queued_messages: usize,
    /// Messages dropped because they waited too long.
    pub expired_messages: usize,
    /// Messages dropped because their link closed.
    pub dropped_on_close: usize,
}

impl QueueStats {
    /// All counters at zero.
    pub fn new() -> (s: Self)
        ensures
            s.queued_messages == 0,
            s.expired_messages == 0,
            s.dropped_on_close == 0,
    {
        QueueStats { queued_messages: 0, expired_messages: 0, dropped_on_close: 0 }
    }

    /// The counters after one message was queued.
    pub open spec fn queued(self) -> Self {
        QueueStats { queued_messages: wrapping_sum(self.queued_messages, 1), ..self }
    }

    /// The counters after `total` messages left the queues, `expired` of
    /// them because they had waited too long.
    pub open spec fn drained(self, total: usize, expired: usize) -> Self {
        QueueStats {
            queued_messages: saturating_diff(self.queued_messages, total),
            expired_messages: wrapping_sum(self.expired_messages, expired),
            ..self
        }
    }

    /// The counters after `count` messages were dropped with their link.
    pub open spec fn dropped(self, count: usize) -> Self {
        QueueStats {
            queued_messages: saturating_diff(self.queued_messages, count),
            dropped_on_close: wrapping_sum(self.dropped_on_close, count),
            ..self
        }
    }

    /// Counts a message that was queued.
    pub fn record_queued(&mut self)
        ensures
            *final(self) == old(self).queued(),
    {
        self.queued_messages = wrapping_add(self.queued_messages, 1);
    }

    /// Counts `total` messages that left the queues, `expired` of them
    /// because they had waited too long.
    pub fn record_drained(&mut self, total: usize, expired: usize)
        ensures
            *final(self) == old(self).drained(total, expired),
    {
        self.expired_messages = wrapping_add(self.expired_messages, expired);
        self.queued_messages = saturating_sub(self.queued_messages, total);
    }

    /// Counts `count` messages that were dropped with their link.
    pub fn record_dropped(&mut self, count: usize)
        ensures
            *final(self) == old(self).dropped(count),
    {
        self.dropped_on_close = wrapping_add(self.dropped_on_close, count);
        self.queued_messages = saturating_sub(self.queued_messages, count);
    }

    /// The counters as a JSON object.
    pub open spec fn json(self) -> Seq<char> {
        "{\"queued_messages\":"@ + decimal(self.queued_messages as nat)
            + ",\"expired_messages\":"@ + decimal(self.expired_messages as nat)
            + ",\"dropped_on_close\":"@ + decimal(self.dropped_on_close as nat) + "}"@
    }

    /// Appends the counters as a JSON object.
    pub fn write_json(&self, out: &mut String)
        ensures
            final(out)@ == old(out)@ + self.json(),
    {
        push_text(out, "{\"queued_messages\":");
        push_decimal(out, self.queued_messages as u64);
        push_text(out, ",\"expired_messages\":");
        push_decimal(out, self.expired_messages as u64);
        push_text(out, ",\"dropped_on_close\":");
        push_decimal(out, self.dropped_on_close as u64);
        push_text(out, "}");
        assert(out@ =~= old(out)@ + self.json());
    }

    /// The counters as a JSON object.
    pub fn to_json(&self) -> (s: String)
        ensures
            s@ == self.json(),
    {
        let mut out = String::new();
        self.write_json(&mut out);
        assert(out@ =~= self.json());
        out
    }
}

/// All statistics of a node.
pub struct NodeStats {
    /// Started when the statistics were created; measures the uptime.
    pub clock: MonotonicClock,
    /// The node's identity hash, as text.
    pub identity_hash: String,
    /// The LoRa interface.
    pub lora: InterfaceStats,
    /// The BLE interface.
    pub ble: InterfaceStats,
    /// The backbone interface.
    pub testnet: InterfaceStats,
    /// The routing structures.
    pub routing: RoutingStats,
    /// The message queues.
    pub queue: QueueStats,
}

impl NodeStats {
    /// Fresh statistics; the uptime counts from now.
    pub fn new(identity_hash: String) -> (s: Self)
        ensures
            s.identity_hash@ == identity_hash@,
            s.lora == (InterfaceStats { tx: 0, rx: 0 }),
            s.ble == (InterfaceStats { tx: 0, rx: 0 }),
            s.testnet == (InterfaceStats { tx: 0, rx: 0 }),
            s.routing == (RoutingStats {
                announce_cache_size: 0,
                path_table_size: 0,
                known_destinations: 0,
            }),
            s.queue == (QueueStats {
                queued_messages: 0,
                expired_messages: 0,
                dropped_on_close: 0,
            }),
    {
        NodeStats {
            clock: MonotonicClock::new(),
            identity_hash,
            lora: InterfaceStats::new(),
            ble: InterfaceStats::new(),
            testnet: InterfaceStats::new(),
            routing: RoutingStats::new(),
            queue: QueueStats::new(),
        }
    }

    /// Whole seconds since the statistics were created: the seconds in a
    /// reading of the statistics' clock.
    pub fn uptime_secs(&self) -> (s: u64)
        ensures
            exists|micros: u64| s == #[trigger] seconds_in(micros),
    {
        whole_secs(self.clock.now())
    }

    /// The statistics as a JSON object, for a given uptime.
    pub open spec fn json(&self, uptime_secs: u64) -> Seq<char> {
        "{\"uptime_secs\":"@ + decimal(uptime_secs as nat) + ",\"identity_hash\":\""@
            + self.identity_hash@ + "\",\"interfaces\":{\"lora\":"@ + self.lora.json()
            + ",\"ble\":"@ + self.ble.json() + ",\"testnet\":"@ + self.testnet.json()
            + "},\"routing\":"@ + self.routing.json() + ",\"queue\":"@ + self.queue.json() + "}"@
    }

    /// The statistics as a JSON object, for a given uptime.
    pub fn to_json_at(&self, uptime_secs: u64) -> (s: String)
        ensures
            s@ == self.json(uptime_secs),
    {
        let mut out = String::new();
        push_text(&mut out, "{\"uptime_secs\":");
        push_decimal(&mut out, uptime_secs);
        push_text(&mut out, ",\"identity_hash\":\"");
        push_text(&mut out, self.identity_hash.as_str());
        push_text(&mut out, "\",\"interfaces\":{\"lora\":");
        self.lora.write_json(&mut out);
        push_text(&mut out, ",\"ble\":");
        self.ble.write_json(&mut out);
        push_text(&mut out, ",\"testnet\":");
        self.testnet.write_json(&mut out);
        push_text(&mut out, "},\"routing\":");
        self.routing.write_json(&mut out);
        push_text(&mut out, ",\"queue\":");
        self.queue.write_json(&mut out);
        push_text(&mut out, "}");
        assert(out@ =~= self.json(uptime_secs));
        out
    }

    /// The statistics as a JSON object, with the uptime of this moment.
    pub fn to_json(&self) -> (s: String)
        ensures
            exists|uptime_secs: u64| s@ == #[trigger] self.json(uptime_secs),
    {
        let uptime = self.uptime_secs();
        self.to_json_at(uptime)
    }
}

impl Default for NodeStats {
    /// Fresh statistics of a node whose identity is unknown.
    fn default() -> (s: Self)
        ensures
            s.identity_hash@ == "unknown"@,
    {
        NodeStats::new(String::from_str("unknown"))
    }
}

/// What the stats endpoint answers.
#[derive(Debug, Clone, Copy, PartialEq, Eq)]
pub enum HttpReply {
    /// `200` with the statistics as JSON.
    Stats,
    /// `302` to `/stats`.
    Redirect,
    /// `404`.
    NotFound,
    /// `405`, allowing `GET`.
    MethodNotAllowed,
}

/// The reply to a request: anything but `GET` is not allowed; `/stats` and
/// `/stats/` give the statistics; `/` redirects there; every other path is
/// not found.
pub open spec fn reply_to(is_get: bool, path: Seq<char>) -> HttpReply {
    if !is_get {
        HttpReply::MethodNotAllowed
    } else if path == "/stats"@ || path == "/stats/"@ {
        HttpReply::Stats
    } else if path == "/"@ {
        HttpReply::Redirect
    } else {
        HttpReply::NotFound
    }
}

/// Decides the reply to a request.
pub fn route(is_get: bool, path: &str) -> (r: HttpReply)
    ensures
        r == reply_to(is_get, path@),
{
    if !is_get {
        HttpReply::MethodNotAllowed
    } else if same_text(path, "/stats") || same_text(path, "/stats/") {
        HttpReply::Stats
    } else if same_text(path, "/") {
        HttpReply::Redirect
    } else {
        HttpReply::NotFound
    }
}

impl HttpReply {
    /// The HTTP status code of the reply.
    pub fn status_code(&self) -> (code: u16)
        ensures
            code == match *self {
                HttpReply::Stats => 200u16,
                HttpReply::Redirect => 302u16,
                HttpReply::NotFound => 404u16,
                HttpReply::MethodNotAllowed => 405u16,
            },
    {
        match self {
            HttpReply::Stats => 200,
            HttpReply::Redirect => 302,
            HttpReply::NotFound => 404,
            HttpReply::MethodNotAllowed => 405,
        }
    }

    /// The header that goes with the reply, as name and value, if any.
    pub fn header(&self) -> (h: Option<(&'static str, &'static str)>)
        ensures
            match *self {
                HttpReply::Stats => h is Some && h->Some_0.0@ == "Content-Type"@ && h->Some_0.1@
                    == "application/json"@,
                HttpReply::Redirect => h is Some && h->Some_0.0@ == "Location"@ && h->Some_0.1@
                    == "/stats"@,
                HttpReply::NotFound => h is None,
                HttpReply::MethodNotAllowed => h is Some && h->Some_0.0@ == "Allow"@
                    && h->Some_0.1@ == "GET"@,
            },
    {
        match self {
            HttpReply::Stats => Some(("Content-Type", "application/json")),
            HttpReply::Redirect => Some(("Location", "/stats")),
            HttpReply::NotFound => None,
            HttpReply::MethodNotAllowed => Some(("Allow", "GET")),
        }
    }

    /// The fixed body of the reply; the statistics have none.
    pub fn fixed_body(&self) -> (b: Option<&'static str>)
        ensures
            match *self {
                HttpReply::Stats => b is None,
                HttpReply::Redirect => b is Some && b->Some_0@
                    == "See /stats for node statistics"@,
                HttpReply::NotFound => b is Some && b->Some_0@ == "Not Found"@,
                HttpReply::MethodNotAllowed => b is Some && b->Some_0@ == "Method Not Allowed"@,
            },
    {
        match self {
            HttpReply::Stats => None,
            HttpReply::Redirect => Some("See /stats for node statistics"),
            HttpReply::NotFound => Some("Not Found"),
            HttpReply::MethodNotAllowed => Some("Method Not Allowed"),
        }
    }
}

} // verus!
