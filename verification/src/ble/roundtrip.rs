//! Fragmenting a packet and reassembling the fragments gives the packet
//! back.

use crate::ble::fragmentation::chunk;
use crate::ble::fragmentation::flags_first;
use crate::ble::fragmentation::flags_more;
use crate::ble::fragmentation::flags_valid;
use crate::ble::fragmentation::fragment_flags;
use crate::ble::fragmentation::is_fragmentation_of;
use crate::ble::fragmentation::lemma_fragment_count;
use crate::ble::fragmentation::seq_add;
use crate::ble::fragmentation::Fragment;
use crate::ble::reassembly::add_fragment_model;
use crate::ble::reassembly::continue_model;
use crate::ble::reassembly::first_claim;
use crate::ble::reassembly::is_open;
use crate::ble::reassembly::join;
use crate::ble::reassembly::lemma_live;
use crate::ble::reassembly::lemma_oldest;
use crate::ble::reassembly::live;
use crate::ble::reassembly::oldest;
use crate::ble::reassembly::open_model;
use crate::ble::reassembly::seq_diff;
use crate::ble::reassembly::PendingModel;
use crate::ble::reassembly::ReassemblerModel;
use crate::time::age;
use vstd::prelude::*;

verus! {

/// State and outputs after the first `k` arrivals, where arrival `j` is
/// fragment `order[j]` of `frags`, coming from `source` at time `times[j]`.
pub open spec fn feed(
    pre: ReassemblerModel,
    source: Seq<u8>,
    frags: Seq<Fragment>,
    order: Seq<int>,
    times: Seq<u64>,
    k: nat,
) -> (ReassemblerModel, Seq<Option<Seq<u8>>>)
    decreases k,
{
    if k == 0 {
        (pre, Seq::empty())
    } else {
        let (mid, outs) = feed(pre, source, frags, order, times, (k - 1) as nat);
        let f = frags[order[k - 1]];
        let (post, out) = add_fragment_model(
            mid,
            source,
            f.sequence,
            f.flags,
            f.payload@,
            times[k - 1],
        );
        (post, outs.push(out))
    }
}

/// No entry of `pending` was opened by `source`.
pub open spec fn absent(pending: Seq<PendingModel>, source: Seq<u8>) -> bool {
    forall|i: int| 0 <= i < pending.len() ==> (#[trigger] pending[i]).source != source
}

/// `order` lists each of `0 .. n` exactly once.
pub open spec fn is_arrival_order(order: Seq<int>, n: int) -> bool {
    &&& order.len() == n
    &&& forall|j: int| 0 <= j < n ==> 0 <= #[trigger] order[j] < n
    &&& forall|i: int, j: int| 0 <= i < j < n ==> #[trigger] order[i] != #[trigger] order[j]
}

/// Entry `idx` is the only one opened by `source`.
spec fn sole(pending: Seq<PendingModel>, source: Seq<u8>, idx: int) -> bool {
    &&& 0 <= idx < pending.len()
    &&& pending[idx].source == source
    &&& forall|j: int| 0 <= j < pending.len() && j != idx ==> (#[trigger] pending[j]).source != source
}

/// Index `i` is among the first `k` arrivals.
spec fn arrived(order: Seq<int>, k: int, i: int) -> bool {
    exists|j: int| 0 <= j < k && #[trigger] order[j] == i
}

/// The entry holds exactly the fragments that arrived among the first `k`.
spec fn holds_arrived(
    e: PendingModel,
    source: Seq<u8>,
    packet: Seq<u8>,
    mp: int,
    start: u8,
    n: int,
    order: Seq<int>,
    t0: u64,
    k: int,
) -> bool {
    &&& e.source == source
    &&& e.first == start
    &&& e.started == t0
    &&& e.frags.dom().finite()
    &&& e.frags.dom().len() == k
    &&& e.last == if arrived(order, k, n - 1) {
        Some(seq_add(start, n - 1))
    } else {
        None
    }
    &&& forall|i: int|
        0 <= i < n ==> (e.frags.contains_key(#[trigger] seq_add(start, i)) <==> arrived(
            order,
            k,
            i,
        ))
    &&& forall|key: u8| #[trigger] e.frags.contains_key(key) ==> seq_diff(key, start) < n
    &&& forall|i: int|
        0 <= i < n && arrived(order, k, i) ==> e.frags[#[trigger] seq_add(start, i)] == chunk(
            packet,
            i,
            mp,
        )
}

proof fn lemma_flags(i: int, n: int)
    requires
        0 <= i < n,
    ensures
        flags_valid(fragment_flags(i, n)),
        flags_first(fragment_flags(i, n)) == (i == 0),
        flags_more(fragment_flags(i, n)) == (i + 1 < n),
{
    assert(0x00u8 & !0x03u8 == 0 && 0x01u8 & !0x03u8 == 0 && 0x02u8 & !0x03u8 == 0 && 0x03u8
        & !0x03u8 == 0) by (bit_vector);
    assert(0x00u8 & 0x01u8 == 0 && 0x01u8 & 0x01u8 != 0 && 0x02u8 & 0x01u8 == 0 && 0x03u8 & 0x01u8
        != 0) by (bit_vector);
    assert(0x00u8 & 0x02u8 == 0 && 0x01u8 & 0x02u8 == 0 && 0x02u8 & 0x02u8 != 0 && 0x03u8 & 0x02u8
        != 0) by (bit_vector);
}

proof fn lemma_live_absent(pending: Seq<PendingModel>, source: Seq<u8>, now: u64, timeout: u64)
    requires
        absent(pending, source),
    ensures
        absent(live(pending, now, timeout), source),
{
    lemma_live(pending, now, timeout);
    let out = live(pending, now, timeout);
    assert forall|i: int| 0 <= i < out.len() implies (#[trigger] out[i]).source != source by {
        assert(pending.contains(out[i]));
        let b = choose|b: int| 0 <= b < pending.len() && pending[b] == out[i];
        assert(pending[b].source != source);
    }
}

proof fn lemma_live_sole(
    pending: Seq<PendingModel>,
    source: Seq<u8>,
    idx: int,
    now: u64,
    timeout: u64,
) -> (at: int)
    requires
        sole(pending, source, idx),
        age(now, pending[idx].started) <= timeout,
    ensures
        sole(live(pending, now, timeout), source, at),
        live(pending, now, timeout)[at] == pending[idx],
    decreases pending.len(),
{
    let rest = pending.drop_last();
    let out = live(pending, now, timeout);
    if idx == pending.len() - 1 {
        assert(absent(rest, source)) by {
            assert forall|i: int| 0 <= i < rest.len() implies (#[trigger] rest[i]).source
                != source by {
                assert(rest[i] == pending[i]);
            }
        }
        lemma_live_absent(rest, source, now, timeout);
        let kept = live(rest, now, timeout);
        assert(out == kept.push(pending.last()));
        assert forall|j: int| 0 <= j < out.len() && j != kept.len() implies (
        #[trigger] out[j]).source != source by {
            assert(out[j] == kept[j]);
        }
        kept.len() as int
    } else {
        assert(sole(rest, source, idx)) by {
            assert(rest[idx] == pending[idx]);
            assert forall|j: int| 0 <= j < rest.len() && j != idx implies (
            #[trigger] rest[j]).source != source by {
                assert(rest[j] == pending[j]);
            }
        }
        assert(rest[idx] == pending[idx]);
        let at = lemma_live_sole(rest, source, idx, now, timeout);
        let kept = live(rest, now, timeout);
        assert(pending.last() == pending[pending.len() - 1]);
        assert(pending.last().source != source);
        assert forall|j: int| 0 <= j < out.len() && j != at implies (#[trigger] out[j]).source
            != source by {
            if j < kept.len() {
                assert(out[j] == kept[j]);
            }
        }
        assert(out[at] == kept[at]);
        at
    }
}

proof fn lemma_no_claim(pending: Seq<PendingModel>, source: Seq<u8>, sequence: u8)
    requires
        absent(pending, source),
    ensures
        first_claim(pending, source, sequence) is None,
    decreases pending.len(),
{
    if pending.len() > 0 {
        let rest = pending.drop_last();
        assert forall|i: int| 0 <= i < rest.len() implies (#[trigger] rest[i]).source != source by {
            assert(rest[i] == pending[i]);
        }
        lemma_no_claim(rest, source, sequence);
        assert(pending.last() == pending[pending.len() - 1]);
    }
}

proof fn lemma_sole_claim(pending: Seq<PendingModel>, source: Seq<u8>, idx: int, sequence: u8)
    requires
        sole(pending, source, idx),
        pending[idx].claims(source, sequence),
    ensures
        first_claim(pending, source, sequence) == Some(idx),
    decreases pending.len(),
{
    let rest = pending.drop_last();
    if idx == pending.len() - 1 {
        assert forall|i: int| 0 <= i < rest.len() implies (#[trigger] rest[i]).source != source by {
            assert(rest[i] == pending[i]);
        }
        lemma_no_claim(rest, source, sequence);
    } else {
        assert(rest[idx] == pending[idx]);
        assert forall|j: int| 0 <= j < rest.len() && j != idx implies (#[trigger] rest[j]).source
            != source by {
            assert(rest[j] == pending[j]);
        }
        lemma_sole_claim(rest, source, idx, sequence);
    }
}

/// Joining the chunks of a packet in order gives the packet's prefix.
proof fn lemma_join_chunks(
    frags: Map<u8, Seq<u8>>,
    packet: Seq<u8>,
    mp: int,
    start: u8,
    n: int,
    count: int,
)
    requires
        mp > 0,
        0 <= count <= n,
        (n - 1) * mp < packet.len() <= n * mp,
        forall|i: int| 0 <= i < n ==> frags[#[trigger] seq_add(start, i)] == chunk(packet, i, mp),
    ensures
        join(frags, start, count) == packet.subrange(
            0,
            if count * mp < packet.len() {
                count * mp
            } else {
                packet.len() as int
            },
        ),
    decreases count,
{
    if count > 0 {
        lemma_join_chunks(frags, packet, mp, start, n, count - 1);
        let i = count - 1;
        assert(i * mp < packet.len()) by (nonlinear_arith)
            requires
                i <= n - 1,
                (n - 1) * mp < packet.len(),
                mp > 0,
        ;
        assert(count * mp == i * mp + mp) by (nonlinear_arith)
            requires
                count == i + 1,
        ;
        assert(i * mp >= 0) by (nonlinear_arith)
            requires
                i >= 0,
                mp > 0,
        ;
        let end = if count * mp < packet.len() {
            count * mp
        } else {
            packet.len() as int
        };
        assert(frags[seq_add(start, i)] == chunk(packet, i, mp));
        assert(packet.subrange(0, i * mp) + packet.subrange(i * mp, end) =~= packet.subrange(
            0,
            end,
        ));
    } else {
        assert(packet.subrange(0, 0) =~= Seq::<u8>::empty());
    }
}

/// One more arrival adds exactly its index to the arrived ones.
proof fn lemma_arrived_step(order: Seq<int>, n: int, k: int)
    requires
        is_arrival_order(order, n),
        0 <= k < n,
    ensures
        !arrived(order, k, order[k]),
        forall|x: int|
            #![trigger arrived(order, k + 1, x)]
            arrived(order, k + 1, x) <==> (arrived(order, k, x) || x == order[k]),
{
    if arrived(order, k, order[k]) {
        let j = choose|j: int| 0 <= j < k && #[trigger] order[j] == order[k];
        assert(order[j] != order[k]);
    }
    assert forall|x: int| #![trigger arrived(order, k + 1, x)] arrived(order, k + 1, x) <==> (
    arrived(order, k, x) || x == order[k]) by {
        if arrived(order, k, x) {
            let j = choose|j: int| 0 <= j < k && #[trigger] order[j] == x;
            assert(0 <= j < k + 1 && order[j] == x);
        }
        if x == order[k] {
            assert(0 <= k < k + 1 && order[k] == x);
        }
        if arrived(order, k + 1, x) {
            let j = choose|j: int| 0 <= j < k + 1 && #[trigger] order[j] == x;
            if j < k {
                assert(arrived(order, k, x));
            }
        }
    }
}

/// Sequence numbers fewer than 256 steps apart from `start` are told apart
/// by their distance.
proof fn lemma_seq_add_diff(start: u8, x: int)
    requires
        0 <= x < 256,
    ensures
        seq_diff(seq_add(start, x), start) == x,
{
}

/// The next arrival fits the entry, and storing it gives the entry that
/// holds one more arrival.
proof fn lemma_grow(
    e: PendingModel,
    source: Seq<u8>,
    packet: Seq<u8>,
    mp: int,
    start: u8,
    n: int,
    order: Seq<int>,
    t0: u64,
    k: int,
)
    requires
        2 <= n <= 128,
        is_arrival_order(order, n),
        order[0] == 0,
        1 <= k < n,
        holds_arrived(e, source, packet, mp, start, n, order, t0, k),
    ensures
        ({
            let i = order[k];
            let sequence = seq_add(start, i);
            let more = i + 1 < n;
            let grown = e.with_fragment(sequence, more, chunk(packet, i, mp));
            &&& e.claims(source, sequence)
            &&& e.fits(sequence, more)
            &&& holds_arrived(grown, source, packet, mp, start, n, order, t0, k + 1)
        }),
{
    let i = order[k];
    let sequence = seq_add(start, i);
    let more = i + 1 < n;
    let grown = e.with_fragment(sequence, more, chunk(packet, i, mp));
    lemma_arrived_step(order, n, k);
    lemma_seq_add_diff(start, i);
    lemma_seq_add_diff(start, n - 1);
    assert(i != 0) by {
        assert(order[0] != order[k]);
    }
    assert(!e.frags.contains_key(sequence));
    assert(grown.frags.dom() =~= e.frags.dom().insert(sequence));
    assert forall|x: int| 0 <= x < n implies (grown.frags.contains_key(
        #[trigger] seq_add(start, x),
    ) <==> arrived(order, k + 1, x)) by {
        lemma_seq_add_diff(start, x);
    }
    assert forall|x: int| 0 <= x < n && arrived(order, k + 1, x) implies grown.frags[
        #[trigger] seq_add(start, x)
    ] == chunk(packet, x, mp) by {
        lemma_seq_add_diff(start, x);
    }
    assert(arrived(order, k + 1, n - 1) <==> (arrived(order, k, n - 1) || n - 1 == i));
}

/// An entry that holds fewer than all fragments is not complete; one that
/// holds all of them is, and assembles to the packet.
proof fn lemma_completion(
    e: PendingModel,
    source: Seq<u8>,
    packet: Seq<u8>,
    mp: int,
    start: u8,
    n: int,
    order: Seq<int>,
    t0: u64,
    k: int,
)
    requires
        mp > 0,
        2 <= n <= 128,
        (n - 1) * mp < packet.len() <= n * mp,
        1 <= k <= n,
        holds_arrived(e, source, packet, mp, start, n, order, t0, k),
    ensures
        k < n ==> !e.complete(),
        k == n ==> e.complete() && e.assembled() == packet,
{
    lemma_seq_add_diff(start, n - 1);
    if k == n {
        lemma_all_present(e.frags.dom(), start, n);
        assert(e.frags.contains_key(seq_add(start, n - 1)));
        assert(arrived(order, k, n - 1));
        assert forall|x: int| 0 <= x < n implies e.frags[#[trigger] seq_add(start, x)] == chunk(
            packet,
            x,
            mp,
        ) by {
            assert(e.frags.contains_key(seq_add(start, x)));
        }
        lemma_join_chunks(e.frags, packet, mp, start, n, n);
        assert(packet.subrange(0, packet.len() as int) =~= packet);
    }
}

/// What one more arrival does to the live reassemblies when the sender's
/// only entry holds the first `k` arrivals.
proof fn lemma_step(
    alive: Seq<PendingModel>,
    at: int,
    max_fragments: usize,
    source: Seq<u8>,
    packet: Seq<u8>,
    mp: int,
    start: u8,
    n: int,
    order: Seq<int>,
    t0: u64,
    k: int,
)
    requires
        mp > 0,
        2 <= n <= 128,
        n <= max_fragments,
        (n - 1) * mp < packet.len() <= n * mp,
        is_arrival_order(order, n),
        order[0] == 0,
        1 <= k < n,
        sole(alive, source, at),
        holds_arrived(alive[at], source, packet, mp, start, n, order, t0, k),
    ensures
        ({
            let i = order[k];
            let (pending, out) = continue_model(
                alive,
                max_fragments,
                source,
                seq_add(start, i),
                i + 1 < n,
                chunk(packet, i, mp),
            );
            &&& k + 1 < n ==> out is None && sole(pending, source, at) && holds_arrived(
                pending[at],
                source,
                packet,
                mp,
                start,
                n,
                order,
                t0,
                k + 1,
            )
            &&& k + 1 == n ==> out == Some(packet) && absent(pending, source)
        }),
{
    let i = order[k];
    let e = alive[at];
    let sequence = seq_add(start, i);
    let more = i + 1 < n;
    lemma_grow(e, source, packet, mp, start, n, order, t0, k);
    let grown = e.with_fragment(sequence, more, chunk(packet, i, mp));
    lemma_completion(grown, source, packet, mp, start, n, order, t0, k + 1);
    lemma_sole_claim(alive, source, at, sequence);
    let (pending, out) = continue_model(alive, max_fragments, source, sequence, more, chunk(
        packet,
        i,
        mp,
    ));
    if k + 1 < n {
        assert(pending == alive.update(at, grown));
        assert forall|j: int| 0 <= j < pending.len() && j != at implies (
        #[trigger] pending[j]).source != source by {
            assert(pending[j] == alive[j]);
        }
    } else {
        assert(pending == alive.remove(at));
        assert forall|j: int| 0 <= j < pending.len() implies (#[trigger] pending[j]).source
            != source by {
            if j < at {
                assert(pending[j] == alive[j]);
            } else {
                assert(pending[j] == alive[j + 1]);
            }
        }
    }
}

/// The first fragment of a packet of two or more opens the sender's only
/// reassembly.
proof fn lemma_first_arrival(
    pre: ReassemblerModel,
    source: Seq<u8>,
    packet: Seq<u8>,
    mp: int,
    start: u8,
    n: int,
    order: Seq<int>,
    now: u64,
) -> (idx: int)
    requires
        2 <= n <= 128,
        is_arrival_order(order, n),
        order[0] == 0,
        absent(pre.pending, source),
    ensures
        ({
            let (post, out) = add_fragment_model(
                pre,
                source,
                start,
                fragment_flags(0, n),
                chunk(packet, 0, mp),
                now,
            );
            &&& out is None
            &&& post == pre.with_pending(post.pending)
            &&& sole(post.pending, source, idx)
            &&& holds_arrived(post.pending[idx], source, packet, mp, start, n, order, now, 1)
        }),
{
    lemma_flags(0, n);
    let payload = chunk(packet, 0, mp);
    let alive = live(pre.pending, now, pre.timeout);
    lemma_live_absent(pre.pending, source, now, pre.timeout);
    let room = if alive.len() >= pre.max_pending && alive.len() > 0 {
        alive.remove(oldest(alive))
    } else {
        alive
    };
    assert(absent(room, source)) by {
        assert forall|i: int| 0 <= i < room.len() implies (#[trigger] room[i]).source != source by {
            if alive.len() >= pre.max_pending && alive.len() > 0 {
                let o = oldest(alive);
                lemma_oldest(alive);
                if i < o {
                    assert(room[i] == alive[i]);
                } else {
                    assert(room[i] == alive[i + 1]);
                }
            }
        }
    }
    assert(!is_open(room, source, start));
    let e = PendingModel::opened(source, start, payload, now);
    let opened = room.push(e);
    assert(open_model(alive, pre.max_pending, source, start, payload, now) == opened);
    let idx = room.len() as int;
    assert(opened[idx] == e);
    assert forall|j: int| 0 <= j < opened.len() && j != idx implies (
    #[trigger] opened[j]).source != source by {
        assert(opened[j] == room[j]);
    }
    assert(seq_add(start, 0) == start);
    assert(arrived(order, 1, 0));
    assert forall|i: int| 0 <= i < n implies (e.frags.contains_key(#[trigger] seq_add(start, i))
        <==> arrived(order, 1, i)) by {
        lemma_seq_add_diff(start, i);
        if arrived(order, 1, i) {
            let j = choose|j: int| 0 <= j < 1 && #[trigger] order[j] == i;
        }
    }
    assert(!arrived(order, 1, n - 1)) by {
        if arrived(order, 1, n - 1) {
            let j = choose|j: int| 0 <= j < 1 && #[trigger] order[j] == n - 1;
        }
    }
    assert(e.frags.dom() =~= set![start]);
    assert(seq_diff(start, start) == 0);
    idx
}

/// After `k` of the `n >= 2` fragments have arrived, the first of them
/// fragment 0, the reassembler holds exactly those and has handed out
/// nothing.
proof fn lemma_progress(
    pre: ReassemblerModel,
    source: Seq<u8>,
    packet: Seq<u8>,
    mp: int,
    start: u8,
    frags: Seq<Fragment>,
    order: Seq<int>,
    times: Seq<u64>,
    k: nat,
) -> (idx: int)
    requires
        mp > 0,
        packet.len() > 0,
        is_fragmentation_of(frags, packet, mp, start),
        2 <= frags.len() <= 128,
        frags.len() <= pre.max_fragments,
        is_arrival_order(order, frags.len() as int),
        order[0] == 0,
        times.len() == frags.len(),
        forall|j: int| 0 <= j < times.len() ==> age(#[trigger] times[j], times[0]) <= pre.timeout,
        absent(pre.pending, source),
        1 <= k < frags.len(),
    ensures
        ({
            let (mid, outs) = feed(pre, source, frags, order, times, k);
            &&& mid == pre.with_pending(mid.pending)
            &&& sole(mid.pending, source, idx)
            &&& holds_arrived(
                mid.pending[idx],
                source,
                packet,
                mp,
                start,
                frags.len() as int,
                order,
                times[0],
                k as int,
            )
            &&& outs.len() == k
            &&& forall|j: int| 0 <= j < k ==> #[trigger] outs[j] is None
        }),
    decreases k,
{
    let n = frags.len() as int;
    lemma_fragment_count(packet.len() as int, mp);
    if k == 1 {
        assert(feed(pre, source, frags, order, times, 0) == (pre, Seq::<Option<Seq<u8>>>::empty()));
        let f = frags[order[0]];
        assert(f.sequence == seq_add(start, 0));
        assert(seq_add(start, 0) == start);
        lemma_first_arrival(pre, source, packet, mp, start, n, order, times[0])
    } else {
        let prev = lemma_progress(pre, source, packet, mp, start, frags, order, times, (k - 1) as nat);
        let km = (k - 1) as int;
        let (mid, outs0) = feed(pre, source, frags, order, times, (k - 1) as nat);
        let i = order[km];
        let f = frags[i];
        let now = times[km];
        lemma_flags(i, n);
        assert(i != 0) by {
            assert(order[0] != order[km]);
        }
        let at = lemma_live_sole(mid.pending, source, prev, now, mid.timeout);
        let alive = live(mid.pending, now, mid.timeout);
        lemma_step(alive, at, mid.max_fragments, source, packet, mp, start, n, order, times[0], km);
        let (post, outs) = feed(pre, source, frags, order, times, k);
        assert(outs == outs0.push(outs[km]));
        at
    }
}

/// Fragments of one packet, fed to a reassembler in any order of arrival that
/// begins with the first fragment, yield the packet exactly once: on the
/// last arrival, and nothing before.
///
/// This holds when the packet has at most 128 fragments and no more than the
/// reassembler stores per packet, every fragment arrives within the timeout
/// of the first, and the sender has no other reassembly in progress.
pub proof fn lemma_round_trip(
    pre: ReassemblerModel,
    source: Seq<u8>,
    packet: Seq<u8>,
    max_payload: int,
    start: u8,
    frags: Seq<Fragment>,
    order: Seq<int>,
    times: Seq<u64>,
)
    requires
        max_payload > 0,
        packet.len() > 0,
        is_fragmentation_of(frags, packet, max_payload, start),
        frags.len() <= 128,
        frags.len() <= pre.max_fragments,
        is_arrival_order(order, frags.len() as int),
        order[0] == 0,
        times.len() == frags.len(),
        forall|j: int| 0 <= j < times.len() ==> age(#[trigger] times[j], times[0]) <= pre.timeout,
        absent(pre.pending, source),
    ensures
        ({
            let n = frags.len();
            let (post, outs) = feed(pre, source, frags, order, times, n);
            &&& outs.len() == n
            &&& forall|j: int| 0 <= j < n - 1 ==> #[trigger] outs[j] is None
            &&& outs[n - 1] == Some(packet)
            &&& absent(post.pending, source)
        }),
{
    let n = frags.len() as int;
    let mp = max_payload;
    lemma_fragment_count(packet.len() as int, mp);
    if n == 1 {
        let f = frags[0];
        lemma_flags(0, 1);
        assert(feed(pre, source, frags, order, times, 0) == (pre, Seq::<Option<Seq<u8>>>::empty()));
        lemma_live_absent(pre.pending, source, times[0], pre.timeout);
        assert(f.payload@ == chunk(packet, 0, mp));
        assert(chunk(packet, 0, mp) =~= packet) by {
            assert(0 * mp == 0) by (nonlinear_arith);
            assert(1 * mp == mp) by (nonlinear_arith);
        }
    } else {
        let km = n - 1;
        let prev = lemma_progress(pre, source, packet, mp, start, frags, order, times, km as nat);
        let (mid, outs0) = feed(pre, source, frags, order, times, km as nat);
        let i = order[km];
        let f = frags[i];
        let now = times[km];
        lemma_flags(i, n);
        assert(i != 0) by {
            assert(order[0] != order[km]);
        }
        let at = lemma_live_sole(mid.pending, source, prev, now, mid.timeout);
        let alive = live(mid.pending, now, mid.timeout);
        lemma_step(alive, at, mid.max_fragments, source, packet, mp, start, n, order, times[0], km);
        let (post, outs) = feed(pre, source, frags, order, times, n as nat);
        assert(outs == outs0.push(outs[km]));
    }
}

/// A set of `n` sequence numbers, all fewer than `n` after `start`, holds
/// each of `start .. start + n`.
proof fn lemma_all_present(keys: Set<u8>, start: u8, n: int)
    requires
        1 <= n <= 256,
        keys.finite(),
        keys.len() == n,
        forall|key: u8| #[trigger] keys.contains(key) ==> seq_diff(key, start) < n,
    ensures
        forall|x: int| 0 <= x < n ==> keys.contains(#[trigger] seq_add(start, x)),
{
    crate::ble::reassembly::lemma_full_window(keys, start, n - 1);
}

} // verus!
