//! Links and the messages that wait for them.
//!
//! A message for a destination whose link is still being established is
//! queued, at most [`MAX_QUEUED_MESSAGES_PER_DEST`] per destination. When
//! the link activates the queue is drained, and what has waited longer than
//! the time to live is dropped instead of sent. When the link closes the
//! queue is discarded. A periodic sweep drops what has waited too long.
//!
//! The functions here decide; the caller performs what they decide, and
//! hands in link states and events that the protocol engine reports.

use crate::addr_map::lemma_total_nonnegative;
use crate::addr_map::lemma_total_remove;
use crate::addr_map::lemma_total_unmarked;
use crate::addr_map::lemma_total_update;
use crate::addr_map::lemma_unmarked;
use crate::addr_map::total_len;
use crate::addr_map::AddrMap;
use crate::hash::AddressHash;
use crate::message_queue::QueuedMessage;
use crate::message_queue::QueuedModel;
use crate::message_queue::MAX_QUEUED_MESSAGES_PER_DEST;
use crate::stats::QueueStats;
use vstd::prelude::*;

verus! {

/// Maximum number of links that are kept at the same time.
pub const MAX_CONCURRENT_LINKS: usize = 20;

/// How often the node announces itself again: 300 seconds, in microseconds.
pub const ANNOUNCE_INTERVAL: u64 = 300_000_000;

/// How often the queues are swept: 10 seconds, in microseconds.
pub const QUEUE_CLEANUP_INTERVAL: u64 = 10_000_000;

/// State of a link, as the protocol engine reports it.
#[derive(Debug, Clone, Copy, PartialEq, Eq, Structural)]
pub enum LinkStatus {
    /// The link was requested.
    Pending,
    /// The handshake is under way.
    Handshake,
    /// The link carries data.
    Active,
    /// The peer has gone silent.
    Stale,
    /// The link is closed.
    Closed,
}

/// What becomes of a message that the operator sends.
#[derive(Debug, Clone, Copy, PartialEq, Eq, Structural)]
pub enum SendDecision {
    /// The link is active: send the message now.
    Send,
    /// The link is being established: the message was queued, and the queue
    /// now holds `depth` messages.
    Queued {
        /// Messages waiting for this destination, this one included.
        depth: usize,
    },
    /// The link is being established but the queue is full: the message was
    /// refused.
    QueueFull,
    /// The link is stale or closed: the message was refused.
    LinkDown {
        /// The state of the link, `Stale` or `Closed`.
        status: LinkStatus,
    },
}

/// The decision for a message, given the state of the link and the number of
/// messages already waiting for the destination.
pub open spec fn decide(status: LinkStatus, depth: nat) -> SendDecision {
    match status {
        LinkStatus::Active => SendDecision::Send,
        LinkStatus::Stale => SendDecision::LinkDown { status },
        LinkStatus::Closed => SendDecision::LinkDown { status },
        _ => if depth < MAX_QUEUED_MESSAGES_PER_DEST {
            SendDecision::Queued { depth: (depth + 1) as usize }
        } else {
            SendDecision::QueueFull
        },
    }
}

/// The models of a list of queued messages.
pub open spec fn models(queue: Seq<QueuedMessage>) -> Seq<QueuedModel> {
    queue.map_values(|m: QueuedMessage| m@)
}

/// The messages that have not waited too long at `now`, in order.
pub open spec fn live_messages(queue: Seq<QueuedModel>, now: u64) -> Seq<QueuedModel>
    decreases queue.len(),
{
    if queue.len() == 0 {
        Seq::empty()
    } else if queue.last().expired(now) {
        live_messages(queue.drop_last(), now)
    } else {
        live_messages(queue.drop_last(), now).push(queue.last())
    }
}

/// The queues without the messages that have waited too long and without
/// the destinations that this leaves empty.
pub open spec fn swept(queues: Map<AddressHash, Seq<QueuedModel>>, now: u64) -> Map<
    AddressHash,
    Seq<QueuedModel>,
> {
    Map::new(
        |k: AddressHash| queues.contains_key(k) && live_messages(queues[k], now).len() > 0,
        |k: AddressHash| live_messages(queues[k], now),
    )
}

/// The queue of a destination; empty if it has none.
pub open spec fn queue_of(queues: Map<AddressHash, Seq<QueuedModel>>, destination: AddressHash) -> Seq<
    QueuedModel,
> {
    if queues.contains_key(destination) {
        queues[destination]
    } else {
        Seq::empty()
    }
}

/// Dropping the expired messages never lengthens a queue.
pub proof fn lemma_live_messages(queue: Seq<QueuedModel>, now: u64)
    ensures
        live_messages(queue, now).len() <= queue.len(),
        forall|i: int|
            0 <= i < live_messages(queue, now).len() ==> !(#[trigger] live_messages(
                queue,
                now,
            )[i]).expired(now),
    decreases queue.len(),
{
    if queue.len() > 0 {
        lemma_live_messages(queue.drop_last(), now);
    }
}

/// Draining keeps the order of the queue: of two messages that are sent,
/// the one that was queued first is sent first.
pub proof fn lemma_live_in_order(queue: Seq<QueuedModel>, now: u64, a: int, b: int) -> (at: (
    int,
    int,
))
    requires
        0 <= a < b < live_messages(queue, now).len(),
    ensures
        0 <= at.0 < at.1 < queue.len(),
        queue[at.0] == live_messages(queue, now)[a],
        queue[at.1] == live_messages(queue, now)[b],
    decreases queue.len(),
{
    let rest = queue.drop_last();
    let kept = live_messages(rest, now);
    lemma_live_messages(rest, now);
    if queue.last().expired(now) || b < kept.len() {
        let at = lemma_live_in_order(rest, now, a, b);
        assert(rest[at.0] == queue[at.0] && rest[at.1] == queue[at.1]);
        at
    } else {
        // the later message is the last of the queue
        let first = lemma_live_found(rest, now, a);
        assert(rest[first] == queue[first]);
        (first, queue.len() - 1)
    }
}

/// Every message that is sent stands in the queue.
pub proof fn lemma_live_found(queue: Seq<QueuedModel>, now: u64, a: int) -> (at: int)
    requires
        0 <= a < live_messages(queue, now).len(),
    ensures
        0 <= at < queue.len(),
        queue[at] == live_messages(queue, now)[a],
        !queue[at].expired(now),
    decreases queue.len(),
{
    let rest = queue.drop_last();
    let kept = live_messages(rest, now);
    if queue.last().expired(now) || a < kept.len() {
        let at = lemma_live_found(rest, now, a);
        assert(rest[at] == queue[at]);
        at
    } else {
        queue.len() - 1
    }
}

/// Removes the messages that have waited too long at `now`; returns how many
/// they were.
pub fn drop_expired(queue: &mut Vec<QueuedMessage>, now: u64) -> (removed: usize)
    ensures
        models(final(queue)@) == live_messages(models(old(queue)@), now),
        removed == old(queue)@.len() - final(queue)@.len(),
{
    let ghost before = queue@;
    let start = queue.len();
    let mut i: usize = 0;
    let ghost mut j: int = 0;
    assert(before.take(0) =~= Seq::empty());
    assert(before.skip(0) =~= before);
    assert(models(queue@.take(0)) =~= Seq::empty());
    while i < queue.len()
        invariant
            start == before.len(),
            0 <= j <= before.len(),
            0 <= i <= queue@.len(),
            queue@.len() - i == before.len() - j,
            queue@.skip(i as int) == before.skip(j),
            models(queue@.take(i as int)) == live_messages(models(before.take(j)), now),
        decreases queue@.len() - i,
    {
        let ghost cur = queue@;
        assert(cur[i as int] == cur.skip(i as int)[0]);
        assert(cur[i as int] == before[j]);
        assert(before.take(j + 1).drop_last() =~= before.take(j));
        assert(models(before.take(j + 1)).drop_last() =~= models(before.take(j)));
        assert(models(before.take(j + 1)).last() == before[j]@);
        if queue[i].is_expired_at(now) {
            queue.remove(i);
            assert(queue@.take(i as int) =~= cur.take(i as int));
            assert(queue@.skip(i as int) =~= before.skip(j + 1)) by {
                assert(queue@.skip(i as int) =~= cur.skip(i as int).skip(1));
                assert(before.skip(j + 1) =~= before.skip(j).skip(1));
            }
        } else {
            assert(cur.take(i + 1) =~= cur.take(i as int).push(cur[i as int]));
            assert(models(cur.take(i + 1)) =~= models(cur.take(i as int)).push(cur[i as int]@));
            assert(cur.skip(i + 1) =~= before.skip(j + 1)) by {
                assert(cur.skip(i + 1) =~= cur.skip(i as int).skip(1));
                assert(before.skip(j + 1) =~= before.skip(j).skip(1));
            }
            i = i + 1;
        }
        proof {
            j = j + 1;
        }
    }
    assert(queue@.take(i as int) =~= queue@);
    assert(before.take(j) =~= before);
    proof {
        lemma_live_messages(models(before), now);
    }
    assert(models(queue@).len() == queue@.len());
    assert(models(before).len() == before.len());
    start - queue.len()
}

/// The queues of messages that wait for their links.
pub struct PendingQueues {
    queues: AddrMap<Vec<QueuedMessage>>,
}

impl View for PendingQueues {
    type V = Map<AddressHash, Seq<QueuedModel>>;

    closed spec fn view(&self) -> Map<AddressHash, Seq<QueuedModel>> {
        Map::new(
            |k: AddressHash| self.queues@.contains_key(k),
            |k: AddressHash| models(self.queues@[k]@),
        )
    }
}

impl PendingQueues {
    /// Number of messages in all queues.
    pub closed spec fn total(&self) -> int {
        total_len(self.queues.values())
    }

    /// No queue is empty and none holds more than the maximum.
    pub closed spec fn wf(&self) -> bool {
        &&& self.queues.wf()
        &&& forall|i: int|
            0 <= i < self.queues.values().len() ==> 1 <= (#[trigger] self.queues.values()[i])@.len()
                <= MAX_QUEUED_MESSAGES_PER_DEST
    }

    /// What being well formed means for the queues as a map.
    pub proof fn lemma_wf(&self)
        requires
            self.wf(),
        ensures
            self@.dom().finite(),
            self.total() >= 0,
            forall|k: AddressHash| #[trigger]
                self@.contains_key(k) ==> 1 <= self@[k].len() <= MAX_QUEUED_MESSAGES_PER_DEST,
    {
        self.queues.lemma_view();
        lemma_total_nonnegative(self.queues.values());
        assert(self@.dom() =~= self.queues@.dom());
        assert forall|k: AddressHash| #[trigger] self@.contains_key(k) implies 1 <= self@[k].len()
            <= MAX_QUEUED_MESSAGES_PER_DEST by {
            let i = self.queues.keys().index_of(k);
            assert(self.queues@[k] == self.queues.values()[i]);
        }
    }

    /// No queues.
    pub fn new() -> (q: Self)
        ensures
            q.wf(),
            q@ == Map::<AddressHash, Seq<QueuedModel>>::empty(),
            q.total() == 0,
    {
        let q = PendingQueues { queues: AddrMap::new() };
        assert(q@ =~= Map::<AddressHash, Seq<QueuedModel>>::empty());
        q
    }

    /// Number of messages that wait for a destination.
    pub fn depth(&self, destination: &AddressHash) -> (n: usize)
        requires
            self.wf(),
        ensures
            n == queue_of(self@, *destination).len(),
            n <= MAX_QUEUED_MESSAGES_PER_DEST,
    {
        match self.queues.position(destination) {
            Some(i) => self.queues.value_at(i).len(),
            None => 0,
        }
    }

    /// Number of messages in all queues, saturating at `usize::MAX`.
    pub fn queued_count(&self) -> (n: usize)
        requires
            self.wf(),
        ensures
            n == if self.total() > usize::MAX {
                usize::MAX as int
            } else {
                self.total()
            },
    {
        let mut n: usize = 0;
        let mut i: usize = 0;
        let ghost lists = self.queues.values();
        while i < self.queues.len()
            invariant
                self.wf(),
                lists == self.queues.values(),
                0 <= i <= lists.len(),
                total_len(lists.take(i as int)) >= 0,
                n == if total_len(lists.take(i as int)) > usize::MAX {
                    usize::MAX as int
                } else {
                    total_len(lists.take(i as int))
                },
            decreases lists.len() - i,
        {
            assert(lists.take(i + 1).drop_last() =~= lists.take(i as int));
            assert(lists.take(i + 1).last() == lists[i as int]);
            let len = self.queues.value_at(i).len();
            n = if len > usize::MAX - n {
                usize::MAX
            } else {
                n + len
            };
            i = i + 1;
        }
        assert(lists.take(i as int) =~= lists);
        n
    }

    /// Decides what becomes of a message sent at `now` to a destination whose
    /// link is in state `status`, and queues the message if that is the
    /// decision.
    ///
    /// Reading the state and queueing happen in one step, so that a link
    /// cannot activate in between and leave the message behind.
    pub fn submit_at(
        &mut self,
        destination: AddressHash,
        status: LinkStatus,
        text: &str,
        now: u64,
        stats: &mut QueueStats,
    ) -> (decision: SendDecision)
        requires
            old(self).wf(),
        ensures
            final(self).wf(),
            decision == decide(status, queue_of(old(self)@, destination).len()),
            decision is Queued ==> final(self)@ == old(self)@.insert(
                destination,
                queue_of(old(self)@, destination).push(QueuedModel { text: text@, queued_at: now }),
            ) && *final(stats) == old(stats).queued() && final(self).total() == old(self).total()
                + 1,
            !(decision is Queued) ==> final(self)@ == old(self)@ && *final(stats) == *old(stats)
                && final(self).total() == old(self).total(),
    {
        match status {
            LinkStatus::Active => {
                return SendDecision::Send;
            },
            LinkStatus::Stale => {
                return SendDecision::LinkDown { status };
            },
            LinkStatus::Closed => {
                return SendDecision::LinkDown { status };
            },
            _ => {},
        }
        let ghost before = self.queues.values();
        match self.queues.position(&destination) {
            Some(i) => {
                if self.queues.value_at(i).len() >= MAX_QUEUED_MESSAGES_PER_DEST {
                    return SendDecision::QueueFull;
                }
                let message = QueuedMessage::with_timestamp(text.to_owned(), now);
                let entry = self.queues.remove_at(i);
                let mut queue = entry.1;
                let ghost waiting = queue@;
                queue.push(message);
                let depth = queue.len();
                self.queues.insert_at(i, destination, queue);
                stats.record_queued();
                proof {
                    assert(self.queues.values() =~= before.update(i as int, queue));
                    lemma_total_update(before, i as int, queue);
                    assert(models(queue@) =~= models(waiting).push(message@));
                    assert(self@ =~= old(self)@.insert(
                        destination,
                        queue_of(old(self)@, destination).push(
                            QueuedModel { text: text@, queued_at: now },
                        ),
                    ));
                }
                SendDecision::Queued { depth }
            },
            None => {
                let message = QueuedMessage::with_timestamp(text.to_owned(), now);
                let mut queue: Vec<QueuedMessage> = Vec::new();
                queue.push(message);
                self.queues.push(destination, queue);
                stats.record_queued();
                proof {
                    assert(self.queues.values().drop_last() =~= before);
                    assert(models(queue@) =~= Seq::<QueuedModel>::empty().push(message@));
                    assert(self@ =~= old(self)@.insert(
                        destination,
                        queue_of(old(self)@, destination).push(
                            QueuedModel { text: text@, queued_at: now },
                        ),
                    ));
                    assert forall|j: int| 0 <= j < self.queues.values().len() implies 1 <= (
                    #[trigger] self.queues.values()[j])@.len() <= MAX_QUEUED_MESSAGES_PER_DEST by {
                        if j < before.len() {
                            assert(self.queues.values()[j] == before[j]);
                        }
                    }
                }
                SendDecision::Queued { depth: 1 }
            },
        }
    }

    /// Takes the queue of a destination whose link has activated at `now`.
    ///
    /// Returns the messages to send, oldest first: those that have not
    /// waited too long. The others are dropped and counted as expired.
    pub fn drain_at(&mut self, destination: &AddressHash, now: u64, stats: &mut QueueStats) -> (live:
        Vec<QueuedMessage>)
        requires
            old(self).wf(),
        ensures
            final(self).wf(),
            final(self)@ == old(self)@.remove(*destination),
            models(live@) == live_messages(queue_of(old(self)@, *destination), now),
            *final(stats) == old(stats).drained(
                queue_of(old(self)@, *destination).len() as usize,
                (queue_of(old(self)@, *destination).len() - live@.len()) as usize,
            ),
            final(self).total() == old(self).total() - queue_of(old(self)@, *destination).len(),
    {
        let ghost before = self.queues.values();
        match self.queues.position(destination) {
            None => {
                assert(self@ =~= old(self)@.remove(*destination));
                let live: Vec<QueuedMessage> = Vec::new();
                assert(models(live@) =~= Seq::<QueuedModel>::empty());
                stats.record_drained(0, 0);
                live
            },
            Some(i) => {
                let entry = self.queues.remove_at(i);
                let mut queue = entry.1;
                let total = queue.len();
                let expired = drop_expired(&mut queue, now);
                stats.record_drained(total, expired);
                proof {
                    lemma_total_remove(before, i as int);
                    assert(self@ =~= old(self)@.remove(*destination));
                    assert forall|j: int| 0 <= j < self.queues.values().len() implies 1 <= (
                    #[trigger] self.queues.values()[j])@.len() <= MAX_QUEUED_MESSAGES_PER_DEST by {
                        if j < i {
                            assert(self.queues.values()[j] == before[j]);
                        } else {
                            assert(self.queues.values()[j] == before[j + 1]);
                        }
                    }
                }
                queue
            },
        }
    }

    /// Discards the queue of a destination whose link has closed; returns
    /// how many messages were dropped.
    pub fn discard(&mut self, destination: &AddressHash, stats: &mut QueueStats) -> (dropped: usize)
        requires
            old(self).wf(),
        ensures
            final(self).wf(),
            final(self)@ == old(self)@.remove(*destination),
            dropped == queue_of(old(self)@, *destination).len(),
            *final(stats) == old(stats).dropped(dropped),
            final(self).total() == old(self).total() - dropped,
    {
        let ghost before = self.queues.values();
        match self.queues.position(destination) {
            None => {
                assert(self@ =~= old(self)@.remove(*destination));
                stats.record_dropped(0);
                0
            },
            Some(i) => {
                let entry = self.queues.remove_at(i);
                let dropped = entry.1.len();
                stats.record_dropped(dropped);
                proof {
                    lemma_total_remove(before, i as int);
                    assert(self@ =~= old(self)@.remove(*destination));
                    assert forall|j: int| 0 <= j < self.queues.values().len() implies 1 <= (
                    #[trigger] self.queues.values()[j])@.len() <= MAX_QUEUED_MESSAGES_PER_DEST by {
                        if j < i {
                            assert(self.queues.values()[j] == before[j]);
                        } else {
                            assert(self.queues.values()[j] == before[j + 1]);
                        }
                    }
                }
                dropped
            },
        }
    }

    /// Drops from every queue the messages that have waited too long at
    /// `now`, and the queues that this leaves empty; returns how many
    /// messages were dropped, saturating at `usize::MAX`.
    pub fn sweep_at(&mut self, now: u64, stats: &mut QueueStats) -> (removed: usize)
        requires
            old(self).wf(),
        ensures
            final(self).wf(),
            final(self)@ == swept(old(self)@, now),
            removed == if old(self).total() - final(self).total() > usize::MAX {
                usize::MAX as int
            } else {
                old(self).total() - final(self).total()
            },
            *final(stats) == old(stats).drained(removed, removed),
    {
        let ghost lists0 = self.queues.values();
        let ghost keys0 = self.queues.keys();
        let mut removed: usize = 0;
        let mut marks: Vec<bool> = Vec::new();
        let mut i: usize = 0;
        let total = self.queues.len();
        while i < total
            invariant
                self.queues.wf(),
                self.queues.keys() == keys0,
                total == keys0.len(),
                lists0.len() == keys0.len(),
                self.queues.values().len() == lists0.len(),
                0 <= i <= total,
                marks@.len() == i,
                forall|j: int|
                    0 <= j < lists0.len() ==> 1 <= (#[trigger] lists0[j])@.len()
                        <= MAX_QUEUED_MESSAGES_PER_DEST,
                forall|j: int|
                    0 <= j < i ==> models((#[trigger] self.queues.values()[j])@) == live_messages(
                        models(lists0[j]@),
                        now,
                    ) && marks@[j] == (self.queues.values()[j]@.len() == 0),
                forall|j: int| i <= j < total ==> #[trigger] self.queues.values()[j] == lists0[j],
                total_len(lists0) - total_len(self.queues.values()) >= 0,
                removed == if total_len(lists0) - total_len(self.queues.values()) > usize::MAX {
                    usize::MAX as int
                } else {
                    total_len(lists0) - total_len(self.queues.values())
                },
            decreases total - i,
        {
            let ghost cur = self.queues.values();
            let mut queue = self.queues.set_at(i, Vec::new());
            let gone = drop_expired(&mut queue, now);
            removed = if gone > usize::MAX - removed {
                usize::MAX
            } else {
                removed + gone
            };
            marks.push(queue.len() == 0);
            proof {
                lemma_total_update(cur, i as int, queue);
                assert(models(queue@).len() == queue@.len());
                lemma_live_messages(models(lists0[i as int]@), now);
            }
            self.queues.set_at(i, queue);
            proof {
                assert(self.queues.values() =~= cur.update(i as int, queue));
            }
            i = i + 1;
        }
        let ghost lists1 = self.queues.values();
        proof {
            self.queues.lemma_view();
            old(self).queues.lemma_view();
            lemma_total_unmarked(lists1, marks@);
            lemma_unmarked(keys0, lists1, marks@);
        }
        self.queues.remove_marked(&marks);
        stats.record_drained(removed, removed);
        proof {
            self.queues.lemma_view();
            assert forall|k: AddressHash| #[trigger] self@.contains_key(k) <==> (old(self)@.contains_key(k) && live_messages(old(self)@[k], now).len() > 0) by {
                if old(self)@.contains_key(k) {
                    let b = keys0.index_of(k);
                    assert(old(self).queues@[k] == lists0[b]);
                    assert(models(lists1[b]@).len() == lists1[b]@.len());
                }
            }
            assert forall|k: AddressHash| #[trigger] self@.contains_key(k) implies self@[k]
                == live_messages(old(self)@[k], now) by {
                let b = keys0.index_of(k);
                assert(old(self).queues@[k] == lists0[b]);
                let a = self.queues.keys().index_of(k);
                let c = choose|c: int|
                    0 <= c < keys0.len() && !marks@[c] && #[trigger] keys0[c]
                        == self.queues.keys()[a] && lists1[c] == self.queues.values()[a];
                crate::addr_map::lemma_index_of(keys0, c);
            }
            assert(self@ =~= swept(old(self)@, now));
            assert forall|a: int| 0 <= a < self.queues.values().len() implies 1 <= (
            #[trigger] self.queues.values()[a])@.len() <= MAX_QUEUED_MESSAGES_PER_DEST by {
                let c = choose|c: int|
                    0 <= c < keys0.len() && !marks@[c] && #[trigger] keys0[c]
                        == self.queues.keys()[a] && lists1[c] == self.queues.values()[a];
                lemma_live_messages(models(lists0[c]@), now);
                assert(models(lists1[c]@).len() == lists1[c]@.len());
                assert(models(lists0[c]@).len() == lists0[c]@.len());
            }
        }
        removed
    }
}

} // verus!
