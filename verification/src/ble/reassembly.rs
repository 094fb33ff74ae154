//! Reassembly of fragmented packets.
//!
//! A reassembly is identified by the sender's address together with the
//! sequence number of its first fragment, so that peers whose counters
//! collide never interfere. Every step of the reassembler is described by
//! [`add_fragment_model`], a function on [`ReassemblerModel`] values; the
//! executable code is proved to follow it.

use crate::ble::fragmentation::flags_first;
use crate::ble::fragmentation::flags_more;
use crate::ble::fragmentation::flags_valid;
use crate::ble::fragmentation::seq_add;
use crate::ble::fragmentation::BleAddress;
use crate::ble::fragmentation::Fragment;
use crate::time::age;
use crate::time::age_us;
use crate::time::MonotonicClock;
use std::collections::HashMap;
use vstd::prelude::*;
use vstd::set_lib::*;
use vstd::std_specs::hash::*;

verus! {

/// A fragment belongs to a reassembly only if it lies fewer than this many
/// sequence numbers after the first fragment.
pub const MAX_SEQUENCE_DISTANCE: u8 = 128;

/// Default maximum number of concurrent pending reassemblies.
pub const DEFAULT_MAX_PENDING: usize = 8;

/// Default maximum fragments per packet.
pub const DEFAULT_MAX_FRAGMENTS: usize = 32;

/// Distance from `first` forward to `sequence`, modulo 256.
pub open spec fn seq_diff(sequence: u8, first: u8) -> int {
    if sequence >= first {
        sequence - first
    } else {
        sequence - first + 256
    }
}

/// Payloads at `count` consecutive sequence numbers starting at `first`,
/// joined in order.
pub open spec fn join(frags: Map<u8, Seq<u8>>, first: u8, count: int) -> Seq<u8>
    decreases count,
{
    if count <= 0 {
        Seq::empty()
    } else {
        join(frags, first, count - 1) + frags[seq_add(first, count - 1)]
    }
}

/// The state of one reassembly.
pub struct PendingModel {
    /// Address of the sender.
    pub source: Seq<u8>,
    /// Sequence number of the first fragment.
    pub first: u8,
    /// Sequence number of the last fragment, once it has arrived.
    pub last: Option<u8>,
    /// When the reassembly was opened.
    pub started: u64,
    /// Payloads received so far, by sequence number.
    pub frags: Map<u8, Seq<u8>>,
}

impl PendingModel {
    /// Number of fragments in the packet; meaningful once `last` is known.
    pub open spec fn expected(self) -> int {
        seq_diff(self.last.unwrap(), self.first) + 1
    }

    /// The last fragment is known and as many fragments are stored as lie
    /// between the first and the last.
    pub open spec fn complete(self) -> bool {
        self.last is Some && self.frags.dom().len() == self.expected()
    }

    /// The packet: all payloads from the first to the last sequence number.
    pub open spec fn assembled(self) -> Seq<u8> {
        join(self.frags, self.first, self.expected())
    }

    /// The first fragment is stored, every stored fragment lies in the
    /// forward window of the first, and none lies beyond the last.
    pub open spec fn wf(self) -> bool {
        &&& self.frags.dom().finite()
        &&& self.frags.contains_key(self.first)
        &&& forall|k: u8| #[trigger]
            self.frags.contains_key(k) ==> seq_diff(k, self.first) < MAX_SEQUENCE_DISTANCE
        &&& self.last is Some ==> {
            &&& self.frags.contains_key(self.last.unwrap())
            &&& forall|k: u8| #[trigger]
                self.frags.contains_key(k) ==> seq_diff(k, self.first) <= seq_diff(
                    self.last.unwrap(),
                    self.first,
                )
        }
    }

    /// A later fragment from the same sender belongs here: it lies strictly
    /// after the first fragment and inside the forward window.
    pub open spec fn claims(self, source: Seq<u8>, sequence: u8) -> bool {
        &&& self.source == source
        &&& 0 < seq_diff(sequence, self.first) < MAX_SEQUENCE_DISTANCE
    }

    /// Storing the fragment keeps every stored fragment between the first and
    /// the last: it does not lie beyond a known last fragment, and if it is
    /// itself the last, nothing stored lies beyond it.
    pub open spec fn fits(self, sequence: u8, more: bool) -> bool {
        &&& self.last is Some ==> seq_diff(sequence, self.first) <= seq_diff(
            self.last.unwrap(),
            self.first,
        )
        &&& !more ==> forall|k: u8| #[trigger]
            self.frags.contains_key(k) ==> seq_diff(k, self.first) <= seq_diff(
                sequence,
                self.first,
            )
    }

    /// The reassembly with one more fragment stored.
    pub open spec fn with_fragment(self, sequence: u8, more: bool, payload: Seq<u8>) -> Self {
        PendingModel {
            last: if more {
                self.last
            } else {
                Some(sequence)
            },
            frags: self.frags.insert(sequence, payload),
            ..self
        }
    }

    /// A reassembly freshly opened by a first fragment.
    pub open spec fn opened(source: Seq<u8>, sequence: u8, payload: Seq<u8>, now: u64) -> Self {
        PendingModel {
            source,
            first: sequence,
            last: None,
            started: now,
            frags: Map::empty().insert(sequence, payload),
        }
    }
}

/// The entries of `pending` that have not outlived `timeout` at `now`, in
/// order.
pub open spec fn live(pending: Seq<PendingModel>, now: u64, timeout: u64) -> Seq<PendingModel>
    decreases pending.len(),
{
    if pending.len() == 0 {
        Seq::empty()
    } else if age(now, pending.last().started) <= timeout {
        live(pending.drop_last(), now, timeout).push(pending.last())
    } else {
        live(pending.drop_last(), now, timeout)
    }
}

/// Index of the entry that was opened earliest; the first such entry on a
/// tie. Zero for an empty sequence.
pub open spec fn oldest(pending: Seq<PendingModel>) -> int
    decreases pending.len(),
{
    if pending.len() <= 1 {
        0
    } else {
        let j = oldest(pending.drop_last());
        if pending.last().started < pending[j].started {
            pending.len() - 1
        } else {
            j
        }
    }
}

/// Index of the first entry that claims the fragment, if any.
pub open spec fn first_claim(pending: Seq<PendingModel>, source: Seq<u8>, sequence: u8) -> Option<
    int,
>
    decreases pending.len(),
{
    if pending.len() == 0 {
        None
    } else {
        match first_claim(pending.drop_last(), source, sequence) {
            Some(i) => Some(i),
            None => if pending.last().claims(source, sequence) {
                Some(pending.len() - 1)
            } else {
                None
            },
        }
    }
}

/// Some entry was opened by `source` with first sequence number `first`.
pub open spec fn is_open(pending: Seq<PendingModel>, source: Seq<u8>, first: u8) -> bool {
    exists|i: int|
        0 <= i < pending.len() && (#[trigger] pending[i]).source == source && pending[i].first
            == first
}

/// The state of a reassembler.
pub struct ReassemblerModel {
    /// Reassemblies in progress, in the order in which they were opened.
    pub pending: Seq<PendingModel>,
    /// Age, in microseconds, beyond which an incomplete reassembly is dropped.
    pub timeout: u64,
    /// Maximum number of concurrent reassemblies.
    pub max_pending: usize,
    /// Maximum number of fragments stored for one packet.
    pub max_fragments: usize,
}

impl ReassemblerModel {
    /// Every reassembly is well formed, no two share sender and first
    /// sequence number, and the capacity is respected.
    pub open spec fn wf(self) -> bool {
        &&& forall|i: int| 0 <= i < self.pending.len() ==> (#[trigger] self.pending[i]).wf()
        &&& keys_distinct(self.pending)
        &&& self.pending.len() <= self.max_pending || self.pending.len() <= 1
    }

    /// The same reassembler holding `pending`.
    pub open spec fn with_pending(self, pending: Seq<PendingModel>) -> Self {
        ReassemblerModel { pending, ..self }
    }
}

/// What a first fragment that announces more does to the live reassemblies:
/// at capacity the oldest one is evicted; then a reassembly is opened unless
/// one with the same sender and first sequence number exists.
pub open spec fn open_model(
    alive: Seq<PendingModel>,
    max_pending: usize,
    source: Seq<u8>,
    sequence: u8,
    payload: Seq<u8>,
    now: u64,
) -> Seq<PendingModel> {
    let room = if alive.len() >= max_pending && alive.len() > 0 {
        alive.remove(oldest(alive))
    } else {
        alive
    };
    if is_open(room, source, sequence) {
        room
    } else {
        room.push(PendingModel::opened(source, sequence, payload, now))
    }
}

/// What a later fragment does to the live reassemblies, and the packet it
/// completes, if any.
pub open spec fn continue_model(
    alive: Seq<PendingModel>,
    max_fragments: usize,
    source: Seq<u8>,
    sequence: u8,
    more: bool,
    payload: Seq<u8>,
) -> (Seq<PendingModel>, Option<Seq<u8>>) {
    match first_claim(alive, source, sequence) {
        None => (alive, None),
        Some(i) => {
            let entry = alive[i];
            if entry.frags.dom().len() >= max_fragments {
                (alive.remove(i), None)
            } else if !entry.fits(sequence, more) {
                (alive, None)
            } else {
                let grown = entry.with_fragment(sequence, more, payload);
                if grown.complete() {
                    (alive.remove(i), Some(grown.assembled()))
                } else {
                    (alive.update(i, grown), None)
                }
            }
        },
    }
}

/// One step of the reassembler: the state after a fragment arrives at time
/// `now`, and the packet that the fragment completes, if any.
///
/// A fragment with an undefined flag bit changes nothing. Otherwise
/// reassemblies that have outlived the timeout are dropped first. A first
/// fragment without successor is a whole packet and is handed back at once.
pub open spec fn add_fragment_model(
    pre: ReassemblerModel,
    source: Seq<u8>,
    sequence: u8,
    flags: u8,
    payload: Seq<u8>,
    now: u64,
) -> (ReassemblerModel, Option<Seq<u8>>) {
    if !flags_valid(flags) {
        (pre, None)
    } else {
        let alive = live(pre.pending, now, pre.timeout);
        if flags_first(flags) {
            if !flags_more(flags) {
                (pre.with_pending(alive), Some(payload))
            } else {
                (
                    pre.with_pending(
                        open_model(alive, pre.max_pending, source, sequence, payload, now),
                    ),
                    None,
                )
            }
        } else {
            let (pending, packet) = continue_model(
                alive,
                pre.max_fragments,
                source,
                sequence,
                flags_more(flags),
                payload,
            );
            (pre.with_pending(pending), packet)
        }
    }
}

/// The view of an optional packet.
pub open spec fn packet_view(packet: Option<Vec<u8>>) -> Option<Seq<u8>> {
    match packet {
        Some(p) => Some(p@),
        None => None,
    }
}

/// Sequence numbers `first`, `first + 1`, ..., `first + d`, modulo 256.
spec fn window(first: u8, d: int) -> Set<u8>
    decreases d,
{
    if d <= 0 {
        set![first]
    } else {
        window(first, d - 1).insert(seq_add(first, d))
    }
}

proof fn lemma_window(first: u8, d: int)
    requires
        0 <= d < 256,
    ensures
        window(first, d).finite(),
        window(first, d).len() == d + 1,
        forall|k: u8| #[trigger] window(first, d).contains(k) <==> seq_diff(k, first) <= d,
    decreases d,
{
    if d > 0 {
        lemma_window(first, d - 1);
        assert(seq_diff(seq_add(first, d), first) == d);
        assert(!window(first, d - 1).contains(seq_add(first, d)));
        assert forall|k: u8| #[trigger] window(first, d).contains(k) <==> seq_diff(k, first)
            <= d by {
            if seq_diff(k, first) == d {
                assert(k == seq_add(first, d));
            }
        }
    } else {
        assert(seq_add(first, 0) == first);
        assert forall|k: u8| #[trigger] window(first, d).contains(k) <==> seq_diff(k, first)
            <= d by {
            if seq_diff(k, first) == 0 {
                assert(k == first);
            }
        }
    }
}

/// A set of `d + 1` sequence numbers, none more than `d` after `first`, holds
/// every sequence number from `first` to `first + d`.
pub proof fn lemma_full_window(keys: Set<u8>, first: u8, d: int)
    requires
        0 <= d < 256,
        keys.finite(),
        keys.len() == d + 1,
        forall|k: u8| #[trigger] keys.contains(k) ==> seq_diff(k, first) <= d,
    ensures
        forall|j: int| 0 <= j <= d ==> keys.contains(#[trigger] seq_add(first, j)),
{
    lemma_window(first, d);
    assert(keys.subset_of(window(first, d)));
    lemma_subset_equality(keys, window(first, d));
    assert forall|j: int| 0 <= j <= d implies keys.contains(#[trigger] seq_add(first, j)) by {
        assert(seq_diff(seq_add(first, j), first) == j);
        assert(window(first, d).contains(seq_add(first, j)));
    }
}

/// A packet being reassembled.
#[derive(Debug)]
pub struct PendingPacket {
    source: BleAddress,
    first_sequence: u8,
    last_sequence: Option<u8>,
    /// Largest distance from the first fragment among the stored ones.
    reach: u8,
    started: u64,
    fragments: HashMap<u8, Vec<u8>>,
}

impl View for PendingPacket {
    type V = PendingModel;

    closed spec fn view(&self) -> PendingModel {
        PendingModel {
            source: self.source@,
            first: self.first_sequence,
            last: self.last_sequence,
            started: self.started,
            frags: Map::new(
                |k: u8| self.fragments@.contains_key(k),
                |k: u8| self.fragments@[k]@,
            ),
        }
    }
}

impl PendingPacket {
    /// The model is well formed and `reach` is the distance of the farthest
    /// stored fragment.
    pub closed spec fn wf(&self) -> bool {
        &&& self@.wf()
        &&& self.reach < MAX_SEQUENCE_DISTANCE
        &&& self.fragments@.contains_key(seq_add(self.first_sequence, self.reach as int))
        &&& forall|k: u8| #[trigger]
            self.fragments@.contains_key(k) ==> seq_diff(k, self.first_sequence) <= self.reach
    }

    /// Being well formed includes the model being so.
    pub proof fn lemma_wf(&self)
        requires
            self.wf(),
        ensures
            self@.wf(),
    {
    }

    /// Opens a reassembly with the first fragment of a packet.
    pub fn new(source: BleAddress, first_sequence: u8, payload: Vec<u8>, now: u64) -> (p: Self)
        ensures
            p.wf(),
            p@ == PendingModel::opened(source@, first_sequence, payload@, now),
    {
        broadcast use group_hash_axioms;

        let mut fragments: HashMap<u8, Vec<u8>> = HashMap::new();
        fragments.insert(first_sequence, payload);
        let p = PendingPacket {
            source,
            first_sequence,
            last_sequence: None,
            reach: 0,
            started: now,
            fragments,
        };
        assert(p@.frags =~= Map::<u8, Seq<u8>>::empty().insert(first_sequence, payload@));
        assert(seq_add(first_sequence, 0) == first_sequence);
        p
    }

    /// Whether every fragment from the first to the last has been received.
    pub fn is_complete(&self) -> (r: bool)
        requires
            self.wf(),
        ensures
            r == self@.complete(),
    {
        broadcast use group_hash_axioms;

        assert(self@.frags.dom() =~= self.fragments@.dom());
        match self.last_sequence {
            None => false,
            Some(last) => {
                let expected: usize = (last.wrapping_sub(self.first_sequence) as usize) + 1;
                self.fragments.len() == expected
            },
        }
    }

    /// Number of fragments stored.
    pub fn fragment_count(&self) -> (n: usize)
        requires
            self.wf(),
        ensures
            n == self@.frags.dom().len(),
    {
        broadcast use group_hash_axioms;

        assert(self@.frags.dom() =~= self.fragments@.dom());
        self.fragments.len()
    }

    /// Whether a later fragment from `source` belongs to this reassembly.
    pub fn claims(&self, source: &BleAddress, sequence: u8) -> (r: bool)
        ensures
            r == self@.claims(source@, sequence),
    {
        let d = sequence.wrapping_sub(self.first_sequence);
        self.source.same(source) && d > 0 && d < MAX_SEQUENCE_DISTANCE
    }

    /// Whether this reassembly was opened by `source` with `first_sequence`.
    pub fn has_key(&self, source: &BleAddress, first_sequence: u8) -> (r: bool)
        ensures
            r == (self@.source == source@ && self@.first == first_sequence),
    {
        self.source.same(source) && self.first_sequence == first_sequence
    }

    /// When the reassembly was opened.
    pub fn started(&self) -> (t: u64)
        ensures
            t == self@.started,
    {
        self.started
    }

    /// Whether the fragment can be stored without leaving a stored fragment
    /// beyond the last one.
    pub fn fits(&self, sequence: u8, more: bool) -> (r: bool)
        requires
            self.wf(),
        ensures
            r == self@.fits(sequence, more),
    {
        let d = sequence.wrapping_sub(self.first_sequence);
        assert(d == seq_diff(sequence, self.first_sequence));
        let within = match self.last_sequence {
            Some(last) => d <= last.wrapping_sub(self.first_sequence),
            None => true,
        };
        let closes = more || self.reach <= d;
        proof {
            let far = seq_add(self.first_sequence, self.reach as int);
            assert(seq_diff(far, self.first_sequence) == self.reach);
            assert(self@.frags.contains_key(far));
        }
        within && closes
    }

    /// Stores one more fragment.
    pub fn store(&mut self, sequence: u8, more: bool, payload: Vec<u8>)
        requires
            old(self).wf(),
            0 < seq_diff(sequence, old(self)@.first) < MAX_SEQUENCE_DISTANCE,
            old(self)@.fits(sequence, more),
        ensures
            final(self).wf(),
            final(self)@ == old(self)@.with_fragment(sequence, more, payload@),
    {
        broadcast use group_hash_axioms;

        let d = sequence.wrapping_sub(self.first_sequence);
        assert(d == seq_diff(sequence, self.first_sequence));
        assert(sequence == seq_add(self.first_sequence, d as int));
        self.fragments.insert(sequence, payload);
        if d > self.reach {
            self.reach = d;
        }
        if !more {
            self.last_sequence = Some(sequence);
        }
        assert(self@.frags =~= old(self)@.frags.insert(sequence, payload@));
    }

    /// Joins the fragments in sequence order.
    pub fn assemble(&self) -> (packet: Vec<u8>)
        requires
            self.wf(),
            self@.complete(),
        ensures
            packet@ == self@.assembled(),
    {
        broadcast use group_hash_axioms;

        let last = match self.last_sequence {
            Some(l) => l,
            None => 0,
        };
        let span: u8 = last.wrapping_sub(self.first_sequence);
        proof {
            assert(self@.frags.dom() =~= self.fragments@.dom());
            lemma_full_window(self.fragments@.dom(), self.first_sequence, span as int);
        }
        let mut packet: Vec<u8> = Vec::new();
        let mut i: u8 = 0;
        while i <= span
            invariant
                0 <= i <= span + 1,
                span < MAX_SEQUENCE_DISTANCE,
                forall|j: int|
                    0 <= j <= span ==> self.fragments@.dom().contains(
                        #[trigger] seq_add(self.first_sequence, j),
                    ),
                packet@ == join(self@.frags, self.first_sequence, i as int),
            decreases span + 1 - i,
        {
            let sequence = self.first_sequence.wrapping_add(i);
            assert(sequence == seq_add(self.first_sequence, i as int));
            assert(self.fragments@.dom().contains(seq_add(self.first_sequence, i as int)));
            let part = self.fragments.get(&sequence);
            match part {
                Some(bytes) => {
                    packet.extend_from_slice(bytes.as_slice());
                },
                None => {},
            }
            i = i + 1;
        }
        packet
    }
}


/// The oldest entry of a non-empty list is one of its entries, and none was
/// opened before it.
pub proof fn lemma_oldest(pending: Seq<PendingModel>)
    requires
        pending.len() > 0,
    ensures
        0 <= oldest(pending) < pending.len(),
        forall|i: int|
            0 <= i < pending.len() ==> pending[oldest(pending)].started <= (
            #[trigger] pending[i]).started,
    decreases pending.len(),
{
    if pending.len() > 1 {
        let rest = pending.drop_last();
        lemma_oldest(rest);
        let j = oldest(rest);
        assert(rest[j] == pending[j]);
        assert forall|i: int| 0 <= i < pending.len() implies pending[oldest(pending)].started <= (
        #[trigger] pending[i]).started by {
            if i < rest.len() {
                assert(rest[i] == pending[i]);
            }
        }
    }
}

/// The models of a list of pending packets.
pub open spec fn models(packets: Seq<PendingPacket>) -> Seq<PendingModel> {
    packets.map_values(|p: PendingPacket| p@)
}

/// No two entries share sender and first sequence number.
pub open spec fn keys_distinct(pending: Seq<PendingModel>) -> bool {
    forall|i: int, j: int|
        0 <= i < j < pending.len() ==> !((#[trigger] pending[i]).source == (
        #[trigger] pending[j]).source && pending[i].first == pending[j].first)
}

/// Dropping expired entries keeps the survivors as they were and in order:
/// every survivor is an entry of the given list, so the survivors are
/// well formed and pairwise distinct if the given entries were.
pub proof fn lemma_live(pending: Seq<PendingModel>, now: u64, timeout: u64)
    ensures
        live(pending, now, timeout).len() <= pending.len(),
        forall|a: int|
            0 <= a < live(pending, now, timeout).len() ==> pending.contains(
                #[trigger] live(pending, now, timeout)[a],
            ) && age(now, live(pending, now, timeout)[a].started) <= timeout,
        keys_distinct(pending) ==> keys_distinct(live(pending, now, timeout)),
    decreases pending.len(),
{
    if pending.len() > 0 {
        let rest = pending.drop_last();
        lemma_live(rest, now, timeout);
        let kept = live(rest, now, timeout);
        assert forall|a: int| 0 <= a < kept.len() implies pending.contains(#[trigger] kept[a]) by {
            let b = choose|b: int| 0 <= b < rest.len() && rest[b] == kept[a];
            assert(pending[b] == kept[a]);
        }
        assert(pending[pending.len() - 1] == pending.last());
        if keys_distinct(pending) {
            assert(keys_distinct(rest)) by {
                assert forall|i: int, j: int| 0 <= i < j < rest.len() implies !((
                #[trigger] rest[i]).source == (#[trigger] rest[j]).source && rest[i].first
                    == rest[j].first) by {
                    assert(rest[i] == pending[i] && rest[j] == pending[j]);
                }
            }
            let out = live(pending, now, timeout);
            assert forall|i: int, j: int| 0 <= i < j < out.len() implies !((
            #[trigger] out[i]).source == (#[trigger] out[j]).source && out[i].first
                == out[j].first) by {
                if j == kept.len() {
                    let b = choose|b: int| 0 <= b < rest.len() && rest[b] == kept[i];
                    assert(pending[b] == out[i]);
                    assert(pending[pending.len() - 1] == out[j]);
                }
            }
        }
    }
}

/// Reassembles fragments into packets, for any number of senders at once.
///
/// At most `max_pending` reassemblies are kept (one, if `max_pending` is
/// zero), and at most `max_fragments` fragments are stored for each.
pub struct Reassembler {
    pending: Vec<PendingPacket>,
    timeout: u64,
    max_pending: usize,
    max_fragments_per_packet: usize,
    clock: MonotonicClock,
}

impl View for Reassembler {
    type V = ReassemblerModel;

    closed spec fn view(&self) -> ReassemblerModel {
        ReassemblerModel {
            pending: models(self.pending@),
            timeout: self.timeout,
            max_pending: self.max_pending,
            max_fragments: self.max_fragments_per_packet,
        }
    }
}

impl Reassembler {
    /// The model is well formed and so is every stored packet.
    pub closed spec fn wf(&self) -> bool {
        &&& self@.wf()
        &&& forall|i: int| 0 <= i < self.pending@.len() ==> (#[trigger] self.pending@[i]).wf()
    }

    /// Being well formed includes the model being so.
    pub proof fn lemma_wf(&self)
        requires
            self.wf(),
        ensures
            self@.wf(),
    {
    }

    /// Creates a reassembler with the default limits; `timeout` is in
    /// microseconds.
    pub fn new(timeout: u64) -> (r: Self)
        ensures
            r.wf(),
            r@ == (ReassemblerModel {
                pending: Seq::empty(),
                timeout,
                max_pending: DEFAULT_MAX_PENDING,
                max_fragments: DEFAULT_MAX_FRAGMENTS,
            }),
    {
        Self::with_limits(timeout, DEFAULT_MAX_PENDING, DEFAULT_MAX_FRAGMENTS)
    }

    /// Creates a reassembler with the given limits; `timeout` is in
    /// microseconds.
    pub fn with_limits(timeout: u64, max_pending: usize, max_fragments_per_packet: usize) -> (r:
        Self)
        ensures
            r.wf(),
            r@ == (ReassemblerModel {
                pending: Seq::empty(),
                timeout,
                max_pending,
                max_fragments: max_fragments_per_packet,
            }),
    {
        let r = Reassembler {
            pending: Vec::new(),
            timeout,
            max_pending,
            max_fragments_per_packet,
            clock: MonotonicClock::new(),
        };
        assert(r@.pending =~= Seq::empty());
        r
    }

    /// The clock that the reassembler reads. A time that is handed to the reassembler
    /// is a reading of this clock.
    pub closed spec fn spec_clock(&self) -> MonotonicClock {
        self.clock
    }

    /// The clock that the reassembler reads.
    pub fn clock(&self) -> (c: &MonotonicClock)
        ensures
            *c == self.spec_clock(),
    {
        &self.clock
    }

    /// Number of reassemblies in progress.
    pub fn pending_count(&self) -> (n: usize)
        ensures
            n == self@.pending.len(),
    {
        self.pending.len()
    }

    /// Drops every reassembly in progress.
    pub fn clear(&mut self)
        ensures
            final(self).wf(),
            final(self)@ == old(self)@.with_pending(Seq::empty()),
    {
        self.pending.clear();
        assert(self@.pending =~= Seq::empty());
    }

    /// Drops the reassemblies that have outlived the timeout at `now`.
    pub fn cleanup_expired_at(&mut self, now: u64)
        requires
            old(self).wf(),
        ensures
            final(self).wf(),
            final(self)@ == old(self)@.with_pending(
                live(old(self)@.pending, now, old(self)@.timeout),
            ),
    {
        let ghost before = self.pending@;
        let ghost timeout = self.timeout;
        let mut i: usize = 0;
        let ghost mut j: int = 0;
        assert(before.take(0) =~= Seq::empty());
        assert(before.skip(0) =~= before);
        while i < self.pending.len()
            invariant
                self.timeout == timeout,
                self.max_pending == old(self).max_pending,
                self.max_fragments_per_packet == old(self).max_fragments_per_packet,
                0 <= j <= before.len(),
                0 <= i <= self.pending@.len(),
                self.pending@.len() - i == before.len() - j,
                self.pending@.skip(i as int) == before.skip(j),
                models(self.pending@.take(i as int)) == live(models(before.take(j)), now, timeout),
                forall|k: int| 0 <= k < before.len() ==> (#[trigger] before[k]).wf(),
                forall|k: int| 0 <= k < self.pending@.len() ==> (#[trigger] self.pending@[k]).wf(),
            decreases self.pending@.len() - i,
        {
            let ghost cur = self.pending@;
            assert(cur[i as int] == cur.skip(i as int)[0]);
            assert(cur[i as int] == before[j]);
            assert(before.take(j + 1).drop_last() =~= before.take(j));
            assert(models(before.take(j + 1)).drop_last() =~= models(before.take(j)));
            assert(models(before.take(j + 1)).last() == before[j]@);
            if age_us(now, self.pending[i].started()) <= self.timeout {
                assert(cur.take(i + 1) =~= cur.take(i as int).push(cur[i as int]));
                assert(models(cur.take(i + 1)) =~= models(cur.take(i as int)).push(cur[i as int]@));
                assert(cur.skip(i + 1) =~= before.skip(j + 1)) by {
                    assert(cur.skip(i + 1) =~= cur.skip(i as int).skip(1));
                    assert(before.skip(j + 1) =~= before.skip(j).skip(1));
                }
                i = i + 1;
            } else {
                self.pending.remove(i);
                assert(self.pending@.take(i as int) =~= cur.take(i as int));
                assert(self.pending@.skip(i as int) =~= before.skip(j + 1)) by {
                    assert(self.pending@.skip(i as int) =~= cur.skip(i as int).skip(1));
                    assert(before.skip(j + 1) =~= before.skip(j).skip(1));
                }
            }
            proof {
                j = j + 1;
            }
        }
        proof {
            assert(self.pending@.take(i as int) =~= self.pending@);
            assert(before.take(j) =~= before);
            lemma_live(models(before), now, timeout);
            assert forall|a: int| 0 <= a < self@.pending.len() implies (
            #[trigger] self@.pending[a]).wf() by {
                assert(self@.pending[a] == self.pending@[a]@);
                self.pending@[a].lemma_wf();
            }
        }
    }

    /// Index of the reassembly that was opened earliest, if there is any.
    pub fn find_oldest_pending(&self) -> (r: Option<usize>)
        ensures
            self@.pending.len() == 0 ==> r is None,
            self@.pending.len() > 0 ==> r == Some(oldest(self@.pending) as usize) && 0 <= oldest(
                self@.pending,
            ) < self@.pending.len(),
    {
        if self.pending.len() == 0 {
            return None;
        }
        let ghost all = models(self.pending@);
        let mut best: usize = 0;
        let mut i: usize = 1;
        assert(all.take(1).len() == 1);
        while i < self.pending.len()
            invariant
                all == models(self.pending@),
                1 <= i <= self.pending@.len(),
                0 <= best < i,
                best == oldest(all.take(i as int)),
            decreases self.pending@.len() - i,
        {
            assert(all.take(i + 1).drop_last() =~= all.take(i as int));
            assert(all.take(i + 1).last() == all[i as int]);
            assert(all.take(i + 1)[best as int] == all[best as int]);
            if self.pending[i].started() < self.pending[best].started() {
                best = i;
            }
            i = i + 1;
        }
        assert(all.take(i as int) =~= all);
        Some(best)
    }

    /// Index of the reassembly that a later fragment from `source` belongs
    /// to: the first one that claims it.
    pub fn find_key_for_fragment(&self, source: &BleAddress, sequence: u8) -> (r: Option<usize>)
        ensures
            match r {
                Some(i) => first_claim(self@.pending, source@, sequence) == Some(i as int) && i
                    < self@.pending.len() && self@.pending[i as int].claims(source@, sequence),
                None => first_claim(self@.pending, source@, sequence) is None,
            },
    {
        let ghost all = models(self.pending@);
        let mut found: Option<usize> = None;
        let mut i: usize = 0;
        while i < self.pending.len()
            invariant
                all == models(self.pending@),
                0 <= i <= self.pending@.len(),
                match found {
                    Some(k) => first_claim(all.take(i as int), source@, sequence) == Some(k as int)
                        && k < i && all[k as int].claims(source@, sequence),
                    None => first_claim(all.take(i as int), source@, sequence) is None,
                },
            decreases self.pending@.len() - i,
        {
            assert(all.take(i + 1).drop_last() =~= all.take(i as int));
            assert(all.take(i + 1).last() == all[i as int]);
            if found.is_none() && self.pending[i].claims(source, sequence) {
                found = Some(i);
            }
            i = i + 1;
        }
        assert(all.take(i as int) =~= all);
        found
    }

    /// Whether a reassembly opened by `source` with `first_sequence` exists.
    pub fn is_open(&self, source: &BleAddress, first_sequence: u8) -> (r: bool)
        ensures
            r == is_open(self@.pending, source@, first_sequence),
    {
        let ghost all = models(self.pending@);
        let mut i: usize = 0;
        while i < self.pending.len()
            invariant
                all == models(self.pending@),
                0 <= i <= self.pending@.len(),
                forall|k: int|
                    0 <= k < i ==> !((#[trigger] all[k]).source == source@ && all[k].first
                        == first_sequence),
            decreases self.pending@.len() - i,
        {
            if self.pending[i].has_key(source, first_sequence) {
                assert(all[i as int].source == source@ && all[i as int].first == first_sequence);
                return true;
            }
            i = i + 1;
        }
        false
    }

    /// Handles a first fragment that announces more: evicts the oldest
    /// reassembly if the capacity is reached, then opens a new one unless the
    /// same sender already has one with this first sequence number.
    pub fn open_reassembly(&mut self, source: BleAddress, sequence: u8, payload: Vec<u8>, now: u64)
        requires
            old(self).wf(),
        ensures
            final(self).wf(),
            final(self)@ == old(self)@.with_pending(
                open_model(
                    old(self)@.pending,
                    old(self)@.max_pending,
                    source@,
                    sequence,
                    payload@,
                    now,
                ),
            ),
    {
        let ghost alive = self@.pending;
        if self.pending.len() >= self.max_pending {
            match self.find_oldest_pending() {
                Some(i) => {
                    self.pending.remove(i);
                    assert(self@.pending =~= alive.remove(i as int));
                },
                None => {},
            }
        }
        let ghost room = self@.pending;
        assert(keys_distinct(room));
        if self.is_open(&source, sequence) {
            return ;
        }
        self.pending.push(PendingPacket::new(source, sequence, payload, now));
        proof {
            assert(self@.pending =~= room.push(
                PendingModel::opened(source@, sequence, payload@, now),
            ));
            assert forall|a: int| 0 <= a < self@.pending.len() implies (
            #[trigger] self@.pending[a]).wf() by {
                self.pending@[a].lemma_wf();
            }
            assert(keys_distinct(self@.pending));
        }
    }

    /// Handles a fragment that is not a first one: stores it in the
    /// reassembly that claims it and hands back the packet if that completes
    /// it. A fragment that no reassembly claims, or that does not fit, is
    /// dropped; a reassembly that already holds the maximum number of
    /// fragments is dropped as a whole.
    pub fn continue_reassembly(
        &mut self,
        source: BleAddress,
        sequence: u8,
        more: bool,
        payload: Vec<u8>,
    ) -> (packet: Option<Vec<u8>>)
        requires
            old(self).wf(),
        ensures
            final(self).wf(),
            final(self)@.timeout == old(self)@.timeout,
            final(self)@.max_pending == old(self)@.max_pending,
            final(self)@.max_fragments == old(self)@.max_fragments,
            (final(self)@.pending, packet_view(packet)) == continue_model(
                old(self)@.pending,
                old(self)@.max_fragments,
                source@,
                sequence,
                more,
                payload@,
            ),
    {
        let ghost alive = self@.pending;
        match self.find_key_for_fragment(&source, sequence) {
            None => None,
            Some(i) => {
                if self.pending[i].fragment_count() >= self.max_fragments_per_packet {
                    self.pending.remove(i);
                    assert(self@.pending =~= alive.remove(i as int));
                    assert(keys_distinct(self@.pending));
                    return None;
                }
                if !self.pending[i].fits(sequence, more) {
                    return None;
                }
                let mut entry = self.pending.remove(i);
                assert(self@.pending =~= alive.remove(i as int));
                assert(keys_distinct(self@.pending));
                entry.store(sequence, more, payload);
                if entry.is_complete() {
                    Some(entry.assemble())
                } else {
                    self.pending.insert(i, entry);
                    proof {
                        assert(self@.pending =~= alive.update(i as int, entry@));
                        assert forall|a: int| 0 <= a < self@.pending.len() implies (
                        #[trigger] self@.pending[a]).wf() by {
                            self.pending@[a].lemma_wf();
                        }
                        assert(keys_distinct(self@.pending));
                    }
                    None
                }
            },
        }
    }

    /// Takes in a fragment that arrived from `source` at time `now` and
    /// returns the packet that it completes, if any.
    ///
    /// State and result are exactly those of [`add_fragment_model`].
    pub fn add_fragment_at(&mut self, source: BleAddress, fragment: Fragment, now: u64) -> (packet:
        Option<Vec<u8>>)
        requires
            old(self).wf(),
        ensures
            final(self).wf(),
            (final(self)@, packet_view(packet)) == add_fragment_model(
                old(self)@,
                source@,
                fragment.sequence,
                fragment.flags,
                fragment.payload@,
                now,
            ),
    {
        if !fragment.has_valid_flags() {
            return None;
        }
        self.cleanup_expired_at(now);
        let first = fragment.is_first();
        let more = fragment.has_more();
        let sequence = fragment.sequence;
        let payload = fragment.payload;
        if first {
            if !more {
                return Some(payload);
            }
            self.open_reassembly(source, sequence, payload, now);
            None
        } else {
            self.continue_reassembly(source, sequence, more, payload)
        }
    }

    /// Drops the reassemblies that have outlived the timeout now.
    ///
    /// Does what [`Reassembler::cleanup_expired_at`] does at the clock's
    /// reading.
    pub fn cleanup_expired(&mut self)
        requires
            old(self).wf(),
        ensures
            final(self).wf(),
            exists|now: u64|
                final(self)@ == old(self)@.with_pending(
                    #[trigger] live(old(self)@.pending, now, old(self)@.timeout),
                ),
    {
        let now = self.clock.now();
        self.cleanup_expired_at(now);
    }

    /// Takes in a fragment that arrived from `source` just now and returns
    /// the packet that it completes, if any.
    ///
    /// Does what [`Reassembler::add_fragment_at`] does at the clock's
    /// reading.
    pub fn add_fragment(&mut self, source: BleAddress, fragment: Fragment) -> (packet: Option<
        Vec<u8>,
    >)
        requires
            old(self).wf(),
        ensures
            final(self).wf(),
            exists|now: u64|
                (final(self)@, packet_view(packet)) == #[trigger] add_fragment_model(
                    old(self)@,
                    source@,
                    fragment.sequence,
                    fragment.flags,
                    fragment.payload@,
                    now,
                ),
    {
        let now = self.clock.now();
        self.add_fragment_at(source, fragment, now)
    }
}

} // verus!
