//! The node's reaction to what the protocol engine reports.
//!
//! The engine delivers link events, each tagged with the address hash of the
//! peer. The node keeps a bounded cache of link handles and the queues of
//! messages that wait for links. What to do on an event is decided here; the
//! caller owns the engine and performs the outcome.

use crate::addr_map::AddrMap;
use crate::hash::AddressHash;
use crate::link_queue::decide;
use crate::link_queue::live_messages;
use crate::link_queue::models;
use crate::link_queue::queue_of;
use crate::link_queue::swept;
use crate::link_queue::LinkStatus;
use crate::link_queue::PendingQueues;
use crate::link_queue::SendDecision;
use crate::link_queue::MAX_CONCURRENT_LINKS;
use crate::message_queue::QueuedMessage;
use crate::message_queue::QueuedModel;
use crate::stats::QueueStats;
use crate::text::push_text;
use vstd::prelude::*;
use vstd::string::*;

verus! {

/// Errors of node operations.
#[derive(Debug, Clone, PartialEq, Eq)]
pub enum NodeError {
    /// The operation timed out.
    Timeout,
    /// The link is closed or not active.
    LinkClosed,
    /// A packet could not be built.
    PacketError(String),
    /// An event channel was closed.
    ChannelClosed,
}

impl NodeError {
    /// A sentence that describes the error.
    pub fn describe(&self) -> (s: String)
        ensures
            s@ == match *self {
                NodeError::Timeout => "operation timed out"@,
                NodeError::LinkClosed => "link closed"@,
                NodeError::PacketError(e) => "packet error: "@ + e@,
                NodeError::ChannelClosed => "channel closed"@,
            },
    {
        match self {
            NodeError::Timeout => String::from_str("operation timed out"),
            NodeError::LinkClosed => String::from_str("link closed"),
            NodeError::PacketError(e) => {
                let mut s = String::from_str("packet error: ");
                push_text(&mut s, e.as_str());
                s
            },
            NodeError::ChannelClosed => String::from_str("channel closed"),
        }
    }
}

/// A message received over a link.
#[derive(Debug, Clone)]
pub struct IncomingMessage {
    /// The sender.
    pub from: AddressHash,
    /// The payload.
    pub data: Vec<u8>,
}

/// A change in the life of a link.
#[derive(Debug, Clone, Copy)]
pub enum LinkActivationEvent {
    /// The link to this peer is active.
    Activated(AddressHash),
    /// The link to this peer is closed.
    Closed(AddressHash),
}

/// Whether a send over a link can go ahead: only an active link carries
/// data, and no link counts as a closed one.
pub fn check_sendable(status: Option<LinkStatus>) -> (r: Result<(), NodeError>)
    ensures
        r is Ok <==> status == Some(LinkStatus::Active),
        r is Err ==> r->Err_0 == NodeError::LinkClosed,
{
    match status {
        Some(LinkStatus::Active) => Ok(()),
        _ => Err(NodeError::LinkClosed),
    }
}

/// What an activation event means to someone who waits for the link to
/// `destination`: success if that link was activated, failure if it was
/// closed, and nothing yet if the event is about another peer.
pub fn activation_verdict(event: &LinkActivationEvent, destination: &AddressHash) -> (r: Option<
    Result<(), NodeError>,
>)
    ensures
        match *event {
            LinkActivationEvent::Activated(h) => if h == *destination {
                r == Some(Ok::<(), NodeError>(()))
            } else {
                r is None
            },
            LinkActivationEvent::Closed(h) => if h == *destination {
                r == Some(Err::<(), NodeError>(NodeError::LinkClosed))
            } else {
                r is None
            },
        },
{
    match event {
        LinkActivationEvent::Activated(h) => if crate::hash::same_hash(h, destination) {
            Some(Ok(()))
        } else {
            None
        },
        LinkActivationEvent::Closed(h) => if crate::hash::same_hash(h, destination) {
            Some(Err(NodeError::LinkClosed))
        } else {
            None
        },
    }
}

/// Where a link stands in the cache.
#[derive(Debug, Clone, Copy, PartialEq, Eq, Structural)]
pub enum LinkSlot {
    /// The cache holds a link to the peer.
    Existing,
    /// The cache holds no link to the peer and has room for one.
    Vacant,
    /// The cache holds no link to the peer and is full.
    LimitReached,
}

/// The slot of a peer in a cache that holds `links`.
pub open spec fn slot_of<L>(links: Map<AddressHash, L>, peer: AddressHash) -> LinkSlot {
    if links.contains_key(peer) {
        LinkSlot::Existing
    } else if links.dom().len() >= MAX_CONCURRENT_LINKS {
        LinkSlot::LimitReached
    } else {
        LinkSlot::Vacant
    }
}

/// A cache of at most [`MAX_CONCURRENT_LINKS`] link handles, by peer.
pub struct LinkCache<L> {
    links: AddrMap<L>,
}

impl<L> View for LinkCache<L> {
    type V = Map<AddressHash, L>;

    closed spec fn view(&self) -> Map<AddressHash, L> {
        self.links@
    }
}

impl<L> LinkCache<L> {
    /// The cache holds no more links than allowed.
    pub closed spec fn wf(&self) -> bool {
        &&& self.links.wf()
        &&& self.links.keys().len() <= MAX_CONCURRENT_LINKS
    }

    /// What being well formed means for the cache as a map.
    pub proof fn lemma_wf(&self)
        requires
            self.wf(),
        ensures
            self@.dom().finite(),
            self@.dom().len() <= MAX_CONCURRENT_LINKS,
    {
        self.links.lemma_view();
    }

    /// An empty cache.
    pub fn new() -> (c: Self)
        ensures
            c.wf(),
            c@ == Map::<AddressHash, L>::empty(),
    {
        LinkCache { links: AddrMap::new() }
    }

    /// Number of links in the cache.
    pub fn len(&self) -> (n: usize)
        requires
            self.wf(),
        ensures
            n == self@.dom().len(),
            n <= MAX_CONCURRENT_LINKS,
    {
        self.links.len()
    }

    /// Where the link to `peer` stands: it exists, or it can be created, or
    /// the limit of concurrent links is reached.
    pub fn slot(&self, peer: &AddressHash) -> (s: LinkSlot)
        requires
            self.wf(),
        ensures
            s == slot_of(self@, *peer),
    {
        if self.links.contains_key(peer) {
            LinkSlot::Existing
        } else if self.links.len() >= MAX_CONCURRENT_LINKS {
            LinkSlot::LimitReached
        } else {
            LinkSlot::Vacant
        }
    }

    /// The link to `peer`, if the cache holds one.
    pub fn get(&self, peer: &AddressHash) -> (r: Option<&L>)
        requires
            self.wf(),
        ensures
            r is Some <==> self@.contains_key(*peer),
            r is Some ==> *r->Some_0 == self@[*peer],
    {
        self.links.get(peer)
    }

    /// Puts a newly created link into a vacant slot. If the slot is not
    /// vacant the cache stays as it is and the link is handed back.
    pub fn insert(&mut self, peer: AddressHash, link: L) -> (refused: Option<L>)
        requires
            old(self).wf(),
        ensures
            final(self).wf(),
            slot_of(old(self)@, peer) == LinkSlot::Vacant ==> refused is None && final(self)@
                == old(self)@.insert(peer, link),
            slot_of(old(self)@, peer) != LinkSlot::Vacant ==> refused == Some(link) && final(self)@
                == old(self)@,
    {
        proof {
            self.links.lemma_view();
        }
        match self.slot(&peer) {
            LinkSlot::Vacant => {
                self.links.push(peer, link);
                None
            },
            _ => Some(link),
        }
    }

    /// Takes the link to `peer` out of the cache.
    pub fn remove(&mut self, peer: &AddressHash) -> (r: Option<L>)
        requires
            old(self).wf(),
        ensures
            final(self).wf(),
            final(self)@ == old(self)@.remove(*peer),
            r is Some <==> old(self)@.contains_key(*peer),
            r is Some ==> r->Some_0 == old(self)@[*peer],
    {
        proof {
            self.links.lemma_view();
        }
        let r = self.links.remove(peer);
        proof {
            self.links.lemma_view();
        }
        r
    }
}

/// Which side opened the link that an event is about.
#[derive(Debug, Clone, Copy, PartialEq, Eq, Structural)]
pub enum Direction {
    /// The peer opened the link.
    Inbound,
    /// This node opened the link.
    Outbound,
}

/// What happened to a link.
#[derive(Debug, Clone)]
pub enum LinkEvent {
    /// The link became active.
    Activated,
    /// Data arrived over the link.
    Data(Vec<u8>),
    /// The link was closed.
    Closed,
}

/// What the caller is to do after an event.
#[derive(Debug)]
pub enum EventOutcome {
    /// Nothing.
    Nothing,
    /// Show this payload to the operator.
    Deliver(Vec<u8>),
    /// Send these messages over the link that has activated, oldest first,
    /// for as long as the link stays active.
    Flush(Vec<QueuedMessage>),
    /// Tell the operator that this many queued messages were dropped with
    /// the link; zero if there were none.
    Dropped(usize),
}

/// The link cache, the message queues and their statistics, which the node
/// changes together.
pub struct NodeCore<L> {
    /// Links by peer.
    pub links: LinkCache<L>,
    /// Messages that wait for links.
    pub pending: PendingQueues,
    /// The fate of queued messages.
    pub stats: QueueStats,
}

impl<L> NodeCore<L> {
    /// Cache and queues are well formed.
    pub open spec fn wf(&self) -> bool {
        self.links.wf() && self.pending.wf()
    }

    /// No links, no messages, all counters at zero.
    pub fn new() -> (c: Self)
        ensures
            c.wf(),
            c.links@ == Map::<AddressHash, L>::empty(),
            c.pending@ == Map::<AddressHash, Seq<QueuedModel>>::empty(),
            c.stats == (QueueStats {
                queued_messages: 0,
                expired_messages: 0,
                dropped_on_close: 0,
            }),
    {
        NodeCore { links: LinkCache::new(), pending: PendingQueues::new(), stats: QueueStats::new() }
    }

    /// Decides what becomes of a message that the operator sends at `now` to
    /// a peer whose link is in state `status`; see
    /// [`PendingQueues::submit_at`].
    pub fn send_message_at(&mut self, peer: AddressHash, status: LinkStatus, text: &str, now: u64) -> (decision:
        SendDecision)
        requires
            old(self).wf(),
        ensures
            final(self).wf(),
            final(self).links@ == old(self).links@,
            decision == decide(status, queue_of(old(self).pending@, peer).len()),
            decision is Queued ==> final(self).pending@ == old(self).pending@.insert(
                peer,
                queue_of(old(self).pending@, peer).push(QueuedModel { text: text@, queued_at: now }),
            ) && final(self).stats == old(self).stats.queued(),
            !(decision is Queued) ==> final(self).pending@ == old(self).pending@ && final(self).stats == old(self).stats,
    {
        self.pending.submit_at(peer, status, text, now, &mut self.stats)
    }

    /// Reacts to a link event that arrives at `now`.
    ///
    /// - Data is delivered to the operator, whoever opened the link.
    /// - An inbound link that activates needs nothing; one that closes
    ///   leaves the cache.
    /// - An outbound link that activates has its queue drained: the messages
    ///   that have not waited too long are to be sent, the others count as
    ///   expired.
    /// - An outbound link that closes leaves the cache, and its queue is
    ///   discarded and counted as dropped.
    pub fn on_link_event(&mut self, direction: Direction, peer: AddressHash, event: LinkEvent, now: u64) -> (outcome:
        EventOutcome)
        requires
            old(self).wf(),
        ensures
            final(self).wf(),
            match event {
                LinkEvent::Data(payload) => outcome is Deliver && outcome->Deliver_0 == payload
                    && final(self).links@ == old(self).links@ && final(self).pending@ == old(self).pending@ && final(self).stats == old(self).stats,
                LinkEvent::Activated => final(self).links@ == old(self).links@ && match direction {
                    Direction::Inbound => outcome is Nothing && final(self).pending@ == old(self).pending@ && final(self).stats == old(self).stats,
                    Direction::Outbound => outcome is Flush && models(outcome->Flush_0@)
                        == live_messages(queue_of(old(self).pending@, peer), now) && final(self).pending@ == old(self).pending@.remove(peer) && final(self).stats == old(self).stats.drained(
                        queue_of(old(self).pending@, peer).len() as usize,
                        (queue_of(old(self).pending@, peer).len() - outcome->Flush_0@.len()) as usize,
                    ),
                },
                LinkEvent::Closed => final(self).links@ == old(self).links@.remove(peer)
                    && match direction {
                    Direction::Inbound => outcome is Nothing && final(self).pending@ == old(self).pending@ && final(self).stats == old(self).stats,
                    Direction::Outbound => outcome is Dropped && outcome->Dropped_0 == queue_of(
                        old(self).pending@,
                        peer,
                    ).len() && final(self).pending@ == old(self).pending@.remove(peer) && final(self).stats == old(self).stats.dropped(outcome->Dropped_0),
                },
            },
    {
        match event {
            LinkEvent::Data(payload) => EventOutcome::Deliver(payload),
            LinkEvent::Activated => match direction {
                Direction::Inbound => EventOutcome::Nothing,
                Direction::Outbound => {
                    let live = self.pending.drain_at(&peer, now, &mut self.stats);
                    EventOutcome::Flush(live)
                },
            },
            LinkEvent::Closed => match direction {
                Direction::Inbound => {
                    self.links.remove(&peer);
                    EventOutcome::Nothing
                },
                Direction::Outbound => {
                    // the queue goes first, the link after it
                    let dropped = self.pending.discard(&peer, &mut self.stats);
                    self.links.remove(&peer);
                    EventOutcome::Dropped(dropped)
                },
            },
        }
    }

    /// Sweeps the queues at `now`; see [`PendingQueues::sweep_at`].
    pub fn on_sweep_at(&mut self, now: u64) -> (removed: usize)
        requires
            old(self).wf(),
        ensures
            final(self).wf(),
            final(self).links@ == old(self).links@,
            final(self).pending@ == swept(old(self).pending@, now),
            final(self).stats == old(self).stats.drained(removed, removed),
            removed == if old(self).pending.total() - final(self).pending.total() > usize::MAX {
                usize::MAX as int
            } else {
                old(self).pending.total() - final(self).pending.total()
            },
    {
        self.pending.sweep_at(now, &mut self.stats)
    }
}

/// A periodic timer that never fires in bursts.
///
/// The first tick is due one period after the start. A tick that is taken
/// late pushes the following one back: the next tick is due one period after
/// the moment at which this one was taken.
#[derive(Debug, Clone, Copy)]
pub struct Ticker {
    /// Time between ticks, in microseconds.
    pub period: u64,
    /// When the next tick is due.
    pub next_due: u64,
}

impl Ticker {
    /// `now + period`, saturating at `u64::MAX`.
    pub open spec fn after(now: u64, period: u64) -> u64 {
        if now + period > u64::MAX {
            u64::MAX
        } else {
            (now + period) as u64
        }
    }

    /// Starts a timer at `now`.
    pub fn new(period: u64, now: u64) -> (t: Self)
        ensures
            t.period == period,
            t.next_due == Self::after(now, period),
    {
        Ticker {
            period,
            next_due: if period > u64::MAX - now {
                u64::MAX
            } else {
                now + period
            },
        }
    }

    /// Takes the tick if one is due at `now`; says whether it was.
    pub fn poll(&mut self, now: u64) -> (fired: bool)
        ensures
            fired == (now >= old(self).next_due),
            final(self).period == old(self).period,
            fired ==> final(self).next_due == Self::after(now, old(self).period),
            !fired ==> final(self).next_due == old(self).next_due,
    {
        if now >= self.next_due {
            self.next_due = if self.period > u64::MAX - now {
                u64::MAX
            } else {
                now + self.period
            };
            true
        } else {
            false
        }
    }
}

/// After a tick was taken at `taken`, however late, no tick is due before a
/// full period has passed: missed ticks are not made up for. (At the very
/// end of the clock's range the due time saturates.)
pub proof fn lemma_no_burst(before: Ticker, taken: u64, later: u64)
    requires
        taken >= before.next_due,
        taken <= later,
        later - taken < before.period,
        taken + before.period <= u64::MAX,
    ensures
        !(later >= Ticker::after(taken, before.period)),
{
}

} // verus!
