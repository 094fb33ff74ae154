//! Path table for routing decisions.
//!
//! For every destination the table keeps at most one path per interface.
//! Paths are ranked by a score in which the hop count dominates: any shorter
//! path beats any longer one, whatever the signal strength. Validation is a
//! bonus smaller than one hop.

use crate::addr_map::lemma_total_unmarked;
use crate::addr_map::lemma_total_update;
use crate::addr_map::total_len;
use crate::addr_map::AddrMap;
use crate::hash::AddressHash;
use crate::text::push_text;
use crate::time::age;
use crate::time::age_us;
use crate::time::later;
use crate::time::later_of;
use crate::time::MonotonicClock;
use vstd::prelude::*;
use vstd::string::*;

verus! {

/// Hash identifying a destination.
pub type DestinationHash = AddressHash;

/// Hash identifying a next hop node.
pub type NextHopHash = AddressHash;

/// Type of interface of a path.
#[derive(Debug, Clone, Copy, PartialEq, Eq, Hash, Structural)]
pub enum InterfaceType {
    /// LoRa radio interface.
    LoRa,
    /// Bluetooth Low Energy interface.
    Ble,
    /// WiFi/TCP interface.
    Wifi,
}

impl InterfaceType {
    /// The usual spelling of the interface's name.
    pub fn name(&self) -> (s: &'static str)
        ensures
            s@ == match *self {
                InterfaceType::LoRa => "LoRa"@,
                InterfaceType::Ble => "BLE"@,
                InterfaceType::Wifi => "WiFi"@,
            },
    {
        match self {
            InterfaceType::LoRa => "LoRa",
            InterfaceType::Ble => "BLE",
            InterfaceType::Wifi => "WiFi",
        }
    }
}

/// Routing metrics of a path.
#[derive(Debug, Clone, Copy)]
pub struct RoutingMetrics {
    /// Number of hops to the destination.
    pub hops: u8,
    /// Signal strength in dBm when the path was learned, if measured.
    pub rssi_dbm: Option<i16>,
    /// Whether a response has confirmed the path.
    pub validated: bool,
}

impl RoutingMetrics {
    /// The score of a path; higher is better.
    ///
    /// `(255 - hops) * 1000`, plus `rssi_dbm + 120` if the signal strength is
    /// known, plus 500 if the path is validated.
    pub open spec fn spec_score(&self) -> int {
        (255 - self.hops) * 1000 + (match self.rssi_dbm {
            Some(rssi) => rssi + 120,
            None => 0,
        }) + (if self.validated {
            500int
        } else {
            0int
        })
    }

    /// Computes the score.
    pub fn score(&self) -> (s: i32)
        ensures
            s == self.spec_score(),
    {
        let hop_score: i32 = (255 - self.hops as i32) * 1000;
        let rssi_score: i32 = match self.rssi_dbm {
            Some(rssi) => rssi as i32 + 120,
            None => 0,
        };
        let validation_bonus: i32 = if self.validated {
            500
        } else {
            0
        };
        hop_score + rssi_score + validation_bonus
    }
}

impl Default for RoutingMetrics {
    /// Zero hops, unknown signal strength, not validated.
    fn default() -> (m: Self)
        ensures
            m.hops == 0,
            m.rssi_dbm is None,
            !m.validated,
    {
        RoutingMetrics { hops: 0, rssi_dbm: None, validated: false }
    }
}

/// Among paths whose signal strength is an ordinary reading, a path with
/// fewer hops scores higher, whatever the signal strengths and validation.
pub proof fn lemma_fewer_hops_wins(a: RoutingMetrics, b: RoutingMetrics)
    requires
        a.hops < b.hops,
        a.rssi_dbm is Some ==> -120 <= a.rssi_dbm->Some_0 <= 0,
        b.rssi_dbm is Some ==> -120 <= b.rssi_dbm->Some_0 <= 0,
    ensures
        a.spec_score() > b.spec_score(),
{
}

/// Configuration of the path table.
#[derive(Debug, Clone, Copy)]
pub struct PathTableConfig {
    /// Maximum number of destinations.
    pub max_destinations: usize,
    /// Maximum number of paths per destination.
    pub max_paths_per_dest: usize,
    /// Time to live of a path, in microseconds.
    pub path_ttl: u64,
}

/// Errors of the path table.
#[derive(Debug, Clone, PartialEq, Eq)]
pub enum PathTableError {
    /// A configuration value is out of range; the text names it.
    InvalidConfig(&'static str),
}

impl PathTableError {
    /// A sentence that describes the error.
    pub fn describe(&self) -> (s: String)
        ensures
            s@ == "invalid config: "@ + self->InvalidConfig_0@,
    {
        match self {
            PathTableError::InvalidConfig(msg) => {
                let mut s = String::from_str("invalid config: ");
                push_text(&mut s, msg);
                s
            },
        }
    }
}

impl PathTableConfig {
    /// All three values are positive.
    pub open spec fn valid(&self) -> bool {
        self.max_destinations > 0 && self.max_paths_per_dest > 0 && self.path_ttl > 0
    }

    /// Accepts exactly the valid configurations; the error names the first
    /// rule that is broken.
    pub fn validate(&self) -> (r: Result<(), PathTableError>)
        ensures
            r is Ok <==> self.valid(),
            r is Err ==> r->Err_0->InvalidConfig_0@ == (if self.max_destinations == 0 {
                "max_destinations must be greater than 0"@
            } else if self.max_paths_per_dest == 0 {
                "max_paths_per_dest must be greater than 0"@
            } else {
                "path_ttl must be greater than 0"@
            }),
    {
        if self.max_destinations == 0 {
            return Err(PathTableError::InvalidConfig("max_destinations must be greater than 0"));
        }
        if self.max_paths_per_dest == 0 {
            return Err(PathTableError::InvalidConfig("max_paths_per_dest must be greater than 0"));
        }
        if self.path_ttl == 0 {
            return Err(PathTableError::InvalidConfig("path_ttl must be greater than 0"));
        }
        Ok(())
    }
}

impl Default for PathTableConfig {
    /// 128 destinations, four paths each, living for 30 minutes.
    fn default() -> (c: Self)
        ensures
            c.max_destinations == 128,
            c.max_paths_per_dest == 4,
            c.path_ttl == 1_800_000_000,
            c.valid(),
    {
        PathTableConfig { max_destinations: 128, max_paths_per_dest: 4, path_ttl: 1_800_000_000 }
    }
}

/// One path to a destination.
#[derive(Debug, Clone, Copy)]
pub struct PathEntry {
    /// Interface of the path.
    pub interface: InterfaceType,
    /// Next hop, or `None` for a direct path.
    pub next_hop: Option<NextHopHash>,
    /// Routing metrics.
    pub metrics: RoutingMetrics,
    /// When the path was first learned.
    pub learned_at: u64,
    /// When the path was last refreshed.
    pub last_refreshed: u64,
}

impl PathEntry {
    /// A path learned at `now`.
    pub open spec fn learned(
        interface: InterfaceType,
        next_hop: Option<NextHopHash>,
        metrics: RoutingMetrics,
        now: u64,
    ) -> Self {
        PathEntry { interface, next_hop, metrics, learned_at: now, last_refreshed: now }
    }

    /// Not refreshed before it was learned.
    pub open spec fn wf(self) -> bool {
        self.last_refreshed >= self.learned_at
    }

    /// More than `ttl` has passed since the last refresh.
    pub open spec fn expired(self, ttl: u64, now: u64) -> bool {
        age(now, self.last_refreshed) > ttl
    }

    /// The path refreshed at `now`.
    pub open spec fn refreshed(self, now: u64) -> Self {
        PathEntry { last_refreshed: later(now, self.last_refreshed), ..self }
    }

    /// The path with other next hop and metrics, refreshed at `now`.
    pub open spec fn upgraded(
        self,
        next_hop: Option<NextHopHash>,
        metrics: RoutingMetrics,
        now: u64,
    ) -> Self {
        PathEntry { next_hop, metrics, last_refreshed: later(now, self.last_refreshed), ..self }
    }

    /// The path marked as validated and refreshed at `now`.
    pub open spec fn confirmed(self, now: u64) -> Self {
        PathEntry {
            metrics: RoutingMetrics { validated: true, ..self.metrics },
            last_refreshed: later(now, self.last_refreshed),
            ..self
        }
    }

    /// Creates a path learned at `now`.
    pub fn new(
        interface: InterfaceType,
        next_hop: Option<NextHopHash>,
        metrics: RoutingMetrics,
        now: u64,
    ) -> (e: Self)
        ensures
            e == Self::learned(interface, next_hop, metrics, now),
            e.wf(),
    {
        PathEntry { interface, next_hop, metrics, learned_at: now, last_refreshed: now }
    }

    /// Whether more than `ttl` has passed since the last refresh.
    pub fn is_expired(&self, ttl: u64, now: u64) -> (r: bool)
        ensures
            r == self.expired(ttl, now),
    {
        age_us(now, self.last_refreshed) > ttl
    }

    /// Refreshes the path at `now`.
    pub fn refresh(&mut self, now: u64)
        ensures
            *final(self) == old(self).refreshed(now),
            old(self).wf() ==> final(self).wf(),
    {
        self.last_refreshed = later_of(now, self.last_refreshed);
    }
}

/// Index of the path over `interface`, if there is one.
pub open spec fn find_interface(list: Seq<PathEntry>, interface: InterfaceType) -> Option<int>
    decreases list.len(),
{
    if list.len() == 0 {
        None
    } else {
        match find_interface(list.drop_last(), interface) {
            Some(i) => Some(i),
            None => if list.last().interface == interface {
                Some(list.len() - 1)
            } else {
                None
            },
        }
    }
}

/// Index of the path with the lowest score; the first such path on a tie.
pub open spec fn worst(list: Seq<PathEntry>) -> int
    decreases list.len(),
{
    if list.len() <= 1 {
        0
    } else {
        let j = worst(list.drop_last());
        if list.last().metrics.spec_score() < list[j].metrics.spec_score() {
            list.len() - 1
        } else {
            j
        }
    }
}

/// Index of the path with the highest score among those that have not
/// expired; the last such path on a tie.
pub open spec fn best(list: Seq<PathEntry>, ttl: u64, now: u64) -> Option<int>
    decreases list.len(),
{
    if list.len() == 0 {
        None
    } else {
        let before = best(list.drop_last(), ttl, now);
        if list.last().expired(ttl, now) {
            before
        } else {
            match before {
                None => Some(list.len() - 1),
                Some(j) => if list.last().metrics.spec_score() >= list[j].metrics.spec_score() {
                    Some(list.len() - 1)
                } else {
                    Some(j)
                },
            }
        }
    }
}

/// The paths that have not expired, in order.
pub open spec fn live_paths(list: Seq<PathEntry>, ttl: u64, now: u64) -> Seq<PathEntry>
    decreases list.len(),
{
    if list.len() == 0 {
        Seq::empty()
    } else if list.last().expired(ttl, now) {
        live_paths(list.drop_last(), ttl, now)
    } else {
        live_paths(list.drop_last(), ttl, now).push(list.last())
    }
}

/// `entry` put into a list that is sorted best first: behind every path that
/// scores at least as high, before every path that scores lower.
pub open spec fn placed(sorted: Seq<PathEntry>, entry: PathEntry) -> Seq<PathEntry>
    decreases sorted.len(),
{
    if sorted.len() == 0 {
        seq![entry]
    } else if sorted.last().metrics.spec_score() >= entry.metrics.spec_score() {
        sorted.push(entry)
    } else {
        placed(sorted.drop_last(), entry).push(sorted.last())
    }
}

/// The paths that have not expired, best first; paths of equal score keep
/// their order.
pub open spec fn ranked(list: Seq<PathEntry>, ttl: u64, now: u64) -> Seq<PathEntry>
    decreases list.len(),
{
    if list.len() == 0 {
        Seq::empty()
    } else if list.last().expired(ttl, now) {
        ranked(list.drop_last(), ttl, now)
    } else {
        placed(ranked(list.drop_last(), ttl, now), list.last())
    }
}

/// Scores never rise along the list.
pub open spec fn best_first(list: Seq<PathEntry>) -> bool {
    forall|i: int, j: int|
        0 <= i < j < list.len() ==> (#[trigger] list[i]).metrics.spec_score() >= (
        #[trigger] list[j]).metrics.spec_score()
}

/// What adding a path does to the list of a destination, and whether the
/// routing state changed.
///
/// A path over the same interface is upgraded if the new metrics score at
/// least as high, and only refreshed otherwise. A path over a new interface
/// is appended while there is room; in a full list it replaces the
/// worst path if it scores strictly higher.
pub open spec fn list_with_path(
    list: Seq<PathEntry>,
    interface: InterfaceType,
    next_hop: Option<NextHopHash>,
    metrics: RoutingMetrics,
    now: u64,
    max_paths: usize,
) -> (Seq<PathEntry>, bool) {
    match find_interface(list, interface) {
        Some(i) => if metrics.spec_score() >= list[i].metrics.spec_score() {
            (list.update(i, list[i].upgraded(next_hop, metrics, now)), true)
        } else {
            (list.update(i, list[i].refreshed(now)), false)
        },
        None => if list.len() < max_paths {
            (list.push(PathEntry::learned(interface, next_hop, metrics, now)), true)
        } else if list.len() > 0 && metrics.spec_score() > list[worst(list)].metrics.spec_score() {
            (list.update(worst(list), PathEntry::learned(interface, next_hop, metrics, now)), true)
        } else {
            (list, false)
        },
    }
}

/// A destination's list: between one and `max_paths` well-formed paths, no
/// two over the same interface.
pub open spec fn list_wf(list: Seq<PathEntry>, max_paths: usize) -> bool {
    &&& 1 <= list.len() <= max_paths
    &&& forall|i: int| 0 <= i < list.len() ==> (#[trigger] list[i]).wf()
    &&& forall|i: int, j: int|
        0 <= i < j < list.len() ==> (#[trigger] list[i]).interface != (#[trigger] list[j]).interface
}

/// Where `find_interface` points, the interface is found, and nowhere before.
pub proof fn lemma_find_interface(list: Seq<PathEntry>, interface: InterfaceType)
    ensures
        match find_interface(list, interface) {
            Some(i) => 0 <= i < list.len() && list[i].interface == interface,
            None => forall|j: int| 0 <= j < list.len() ==> (#[trigger] list[j]).interface != interface,
        },
    decreases list.len(),
{
    if list.len() > 0 {
        lemma_find_interface(list.drop_last(), interface);
        match find_interface(list.drop_last(), interface) {
            Some(i) => {
                assert(list.drop_last()[i] == list[i]);
            },
            None => {
                assert forall|j: int| 0 <= j < list.len() - 1 implies (#[trigger] list[j]).interface
                    != interface by {
                    assert(list.drop_last()[j] == list[j]);
                }
            },
        }
    }
}

/// The worst path of a list is one of its paths, and none scores lower.
pub proof fn lemma_worst(list: Seq<PathEntry>)
    requires
        list.len() > 0,
    ensures
        0 <= worst(list) < list.len(),
        forall|i: int|
            0 <= i < list.len() ==> list[worst(list)].metrics.spec_score() <= (
            #[trigger] list[i]).metrics.spec_score(),
    decreases list.len(),
{
    if list.len() > 1 {
        let rest = list.drop_last();
        lemma_worst(rest);
        let j = worst(rest);
        assert(rest[j] == list[j]);
        assert forall|i: int| 0 <= i < list.len() implies list[worst(list)].metrics.spec_score() <= (
        #[trigger] list[i]).metrics.spec_score() by {
            if i < rest.len() {
                assert(rest[i] == list[i]);
            }
        }
    }
}

/// The best path has not expired, and no path that has not expired scores
/// higher; there is none exactly when every path has expired.
pub proof fn lemma_best(list: Seq<PathEntry>, ttl: u64, now: u64)
    ensures
        match best(list, ttl, now) {
            Some(b) => 0 <= b < list.len() && !list[b].expired(ttl, now) && forall|i: int|
                0 <= i < list.len() && !(#[trigger] list[i]).expired(ttl, now)
                    ==> list[b].metrics.spec_score() >= list[i].metrics.spec_score(),
            None => forall|i: int| 0 <= i < list.len() ==> (#[trigger] list[i]).expired(ttl, now),
        },
    decreases list.len(),
{
    if list.len() > 0 {
        let rest = list.drop_last();
        lemma_best(rest, ttl, now);
        match best(rest, ttl, now) {
            Some(j) => {
                assert(rest[j] == list[j]);
            },
            None => {},
        }
        match best(list, ttl, now) {
            Some(b) => {
                assert forall|i: int|
                    0 <= i < list.len() && !(#[trigger] list[i]).expired(ttl, now) implies list[b].metrics.spec_score()
                    >= list[i].metrics.spec_score() by {
                    if i < rest.len() {
                        assert(rest[i] == list[i]);
                    }
                }
            },
            None => {
                assert forall|i: int| 0 <= i < list.len() implies (#[trigger] list[i]).expired(
                    ttl,
                    now,
                ) by {
                    if i < rest.len() {
                        assert(rest[i] == list[i]);
                    }
                }
            },
        }
    }
}

/// Placing a path into a list that is sorted best first keeps it sorted.
pub proof fn lemma_placed(sorted: Seq<PathEntry>, entry: PathEntry)
    requires
        best_first(sorted),
    ensures
        best_first(placed(sorted, entry)),
        placed(sorted, entry).len() == sorted.len() + 1,
        forall|i: int|
            0 <= i < placed(sorted, entry).len() ==> (#[trigger] placed(sorted, entry)[i]) == entry
                || sorted.contains(placed(sorted, entry)[i]),
    decreases sorted.len(),
{
    let out = placed(sorted, entry);
    if sorted.len() == 0 {
    } else if sorted.last().metrics.spec_score() >= entry.metrics.spec_score() {
        assert forall|i: int, j: int| 0 <= i < j < out.len() implies (
        #[trigger] out[i]).metrics.spec_score() >= (#[trigger] out[j]).metrics.spec_score() by {
            if j == sorted.len() {
                assert(out[i] == sorted[i]);
                if i < sorted.len() - 1 {
                    assert(sorted[i].metrics.spec_score() >= sorted[sorted.len()
                        - 1].metrics.spec_score());
                }
            } else {
                assert(out[i] == sorted[i] && out[j] == sorted[j]);
            }
        }
        assert forall|i: int| 0 <= i < out.len() implies (#[trigger] out[i]) == entry
            || sorted.contains(out[i]) by {
            if i < sorted.len() {
                assert(out[i] == sorted[i]);
            }
        }
    } else {
        let rest = sorted.drop_last();
        assert(best_first(rest)) by {
            assert forall|i: int, j: int| 0 <= i < j < rest.len() implies (
            #[trigger] rest[i]).metrics.spec_score() >= (#[trigger] rest[j]).metrics.spec_score() by {
                assert(rest[i] == sorted[i] && rest[j] == sorted[j]);
            }
        }
        lemma_placed(rest, entry);
        let inner = placed(rest, entry);
        assert forall|i: int| 0 <= i < out.len() implies (#[trigger] out[i]) == entry
            || sorted.contains(out[i]) by {
            if i < inner.len() {
                assert(out[i] == inner[i]);
                if inner[i] != entry {
                    let b = choose|b: int| 0 <= b < rest.len() && rest[b] == inner[i];
                    assert(sorted[b] == inner[i]);
                }
            } else {
                assert(out[i] == sorted[sorted.len() - 1]);
            }
        }
        assert forall|i: int, j: int| 0 <= i < j < out.len() implies (
        #[trigger] out[i]).metrics.spec_score() >= (#[trigger] out[j]).metrics.spec_score() by {
            if j == inner.len() {
                assert(out[i] == inner[i]);
                if inner[i] != entry {
                    let b = choose|b: int| 0 <= b < rest.len() && rest[b] == inner[i];
                    assert(sorted[b] == inner[i]);
                    assert(sorted[b].metrics.spec_score() >= sorted[sorted.len()
                        - 1].metrics.spec_score());
                }
            } else {
                assert(out[i] == inner[i] && out[j] == inner[j]);
            }
        }
    }
}

/// The ranking is sorted best first and holds only paths of the list that
/// have not expired, as many as there are.
pub proof fn lemma_ranked(list: Seq<PathEntry>, ttl: u64, now: u64)
    ensures
        best_first(ranked(list, ttl, now)),
        ranked(list, ttl, now).len() == live_paths(list, ttl, now).len(),
        ranked(list, ttl, now).len() <= list.len(),
        forall|i: int|
            0 <= i < ranked(list, ttl, now).len() ==> list.contains(
                #[trigger] ranked(list, ttl, now)[i],
            ) && !ranked(list, ttl, now)[i].expired(ttl, now),
    decreases list.len(),
{
    if list.len() > 0 {
        let rest = list.drop_last();
        lemma_ranked(rest, ttl, now);
        let inner = ranked(rest, ttl, now);
        let out = ranked(list, ttl, now);
        if !list.last().expired(ttl, now) {
            lemma_placed(inner, list.last());
        }
        assert forall|i: int| 0 <= i < out.len() implies list.contains(#[trigger] out[i])
            && !out[i].expired(ttl, now) by {
            if out[i] == list.last() && !list.last().expired(ttl, now) {
                assert(list[list.len() - 1] == out[i]);
            } else {
                assert(inner.contains(out[i]));
                let a = choose|a: int| 0 <= a < inner.len() && inner[a] == out[i];
                assert(rest.contains(inner[a]));
                let b = choose|b: int| 0 <= b < rest.len() && rest[b] == inner[a];
                assert(list[b] == out[i]);
            }
        }
    }
}

/// Dropping the expired paths keeps the others as they were and in order.
pub proof fn lemma_live_paths(list: Seq<PathEntry>, ttl: u64, now: u64)
    ensures
        live_paths(list, ttl, now).len() <= list.len(),
        forall|a: int|
            0 <= a < live_paths(list, ttl, now).len() ==> list.contains(
                #[trigger] live_paths(list, ttl, now)[a],
            ) && !live_paths(list, ttl, now)[a].expired(ttl, now),
        (forall|i: int, j: int|
            0 <= i < j < list.len() ==> (#[trigger] list[i]).interface != (
            #[trigger] list[j]).interface) ==> (forall|i: int, j: int|
            0 <= i < j < live_paths(list, ttl, now).len() ==> (#[trigger] live_paths(
                list,
                ttl,
                now,
            )[i]).interface != (#[trigger] live_paths(list, ttl, now)[j]).interface),
    decreases list.len(),
{
    if list.len() > 0 {
        let rest = list.drop_last();
        lemma_live_paths(rest, ttl, now);
        let kept = live_paths(rest, ttl, now);
        let out = live_paths(list, ttl, now);
        assert forall|a: int| 0 <= a < out.len() implies list.contains(#[trigger] out[a])
            && !out[a].expired(ttl, now) by {
            if a < kept.len() {
                let b = choose|b: int| 0 <= b < rest.len() && rest[b] == kept[a];
                assert(list[b] == out[a]);
            } else {
                assert(list[list.len() - 1] == out[a]);
            }
        }
        if forall|i: int, j: int|
            0 <= i < j < list.len() ==> (#[trigger] list[i]).interface != (
            #[trigger] list[j]).interface {
            assert forall|i: int, j: int| 0 <= i < j < rest.len() implies (
            #[trigger] rest[i]).interface != (#[trigger] rest[j]).interface by {
                assert(rest[i] == list[i] && rest[j] == list[j]);
            }
            assert forall|i: int, j: int| 0 <= i < j < out.len() implies (
            #[trigger] out[i]).interface != (#[trigger] out[j]).interface by {
                if j == kept.len() {
                    let b = choose|b: int| 0 <= b < rest.len() && rest[b] == kept[i];
                    assert(list[b] == out[i]);
                    assert(list[list.len() - 1] == out[j]);
                } else {
                    assert(out[i] == kept[i] && out[j] == kept[j]);
                }
            }
        }
    }
}

/// Finds the path over `interface`.
pub fn find_interface_in(list: &Vec<PathEntry>, interface: InterfaceType) -> (r: Option<usize>)
    ensures
        match r {
            Some(i) => find_interface(list@, interface) == Some(i as int) && i < list@.len()
                && list@[i as int].interface == interface,
            None => find_interface(list@, interface) is None,
        },
{
    let mut found: Option<usize> = None;
    let mut i: usize = 0;
    while i < list.len()
        invariant
            0 <= i <= list@.len(),
            match found {
                Some(k) => find_interface(list@.take(i as int), interface) == Some(k as int) && k
                    < i && list@[k as int].interface == interface,
                None => find_interface(list@.take(i as int), interface) is None,
            },
        decreases list@.len() - i,
    {
        assert(list@.take(i + 1).drop_last() =~= list@.take(i as int));
        assert(list@.take(i + 1).last() == list@[i as int]);
        if found.is_none() && list[i].interface == interface {
            found = Some(i);
        }
        i = i + 1;
    }
    assert(list@.take(i as int) =~= list@);
    found
}

/// Finds the path with the lowest score.
pub fn worst_in(list: &Vec<PathEntry>) -> (w: usize)
    requires
        list@.len() > 0,
    ensures
        w == worst(list@),
        w < list@.len(),
{
    let mut w: usize = 0;
    let mut i: usize = 1;
    assert(list@.take(1).len() == 1);
    while i < list.len()
        invariant
            1 <= i <= list@.len(),
            0 <= w < i,
            w == worst(list@.take(i as int)),
        decreases list@.len() - i,
    {
        assert(list@.take(i + 1).drop_last() =~= list@.take(i as int));
        assert(list@.take(i + 1).last() == list@[i as int]);
        assert(list@.take(i + 1)[w as int] == list@[w as int]);
        if list[i].metrics.score() < list[w].metrics.score() {
            w = i;
        }
        i = i + 1;
    }
    assert(list@.take(i as int) =~= list@);
    w
}

/// Finds the path with the highest score among those that have not expired.
pub fn best_in(list: &Vec<PathEntry>, ttl: u64, now: u64) -> (r: Option<usize>)
    ensures
        match r {
            Some(b) => best(list@, ttl, now) == Some(b as int) && b < list@.len(),
            None => best(list@, ttl, now) is None,
        },
{
    let mut found: Option<usize> = None;
    let mut i: usize = 0;
    while i < list.len()
        invariant
            0 <= i <= list@.len(),
            match found {
                Some(k) => best(list@.take(i as int), ttl, now) == Some(k as int) && k < i,
                None => best(list@.take(i as int), ttl, now) is None,
            },
        decreases list@.len() - i,
    {
        assert(list@.take(i + 1).drop_last() =~= list@.take(i as int));
        assert(list@.take(i + 1).last() == list@[i as int]);
        if !list[i].is_expired(ttl, now) {
            match found {
                None => {
                    found = Some(i);
                },
                Some(k) => {
                    assert(list@.take(i + 1)[k as int] == list@[k as int]);
                    if list[i].metrics.score() >= list[k].metrics.score() {
                        found = Some(i);
                    }
                },
            }
        }
        i = i + 1;
    }
    assert(list@.take(i as int) =~= list@);
    found
}

/// Copies the paths that have not expired.
pub fn live_in(list: &Vec<PathEntry>, ttl: u64, now: u64) -> (kept: Vec<PathEntry>)
    ensures
        kept@ == live_paths(list@, ttl, now),
{
    let mut kept: Vec<PathEntry> = Vec::new();
    let mut i: usize = 0;
    while i < list.len()
        invariant
            0 <= i <= list@.len(),
            kept@ == live_paths(list@.take(i as int), ttl, now),
        decreases list@.len() - i,
    {
        assert(list@.take(i + 1).drop_last() =~= list@.take(i as int));
        assert(list@.take(i + 1).last() == list@[i as int]);
        if !list[i].is_expired(ttl, now) {
            kept.push(list[i]);
        }
        i = i + 1;
    }
    assert(list@.take(i as int) =~= list@);
    kept
}

/// Puts `entry` into a list sorted best first.
pub fn place(sorted: &mut Vec<PathEntry>, entry: PathEntry)
    ensures
        final(sorted)@ == placed(old(sorted)@, entry),
{
    let ghost before = sorted@;
    let mut at: usize = sorted.len();
    proof {
        assert(before.take(at as int) =~= before);
        assert(placed(before, entry) + before.skip(at as int) =~= placed(before, entry));
    }
    // walk back over the paths that score lower
    while at > 0 && sorted[at - 1].metrics.score() < entry.metrics.score()
        invariant
            sorted@ == before,
            0 <= at <= before.len(),
            placed(before, entry) == placed(before.take(at as int), entry) + before.skip(at as int),
        decreases at,
    {
        proof {
            let head = before.take(at as int);
            assert(head.last() == before[at - 1]);
            assert(head.drop_last() =~= before.take(at - 1));
            assert(placed(head, entry) == placed(before.take(at - 1), entry).push(before[at - 1]));
            assert(placed(before.take(at - 1), entry).push(before[at - 1]) + before.skip(at as int)
                =~= placed(before.take(at - 1), entry) + before.skip(at - 1));
        }
        at = at - 1;
    }
    proof {
        let head = before.take(at as int);
        if at > 0 {
            assert(head.last() == before[at - 1]);
        }
        assert(placed(head, entry) =~= head.push(entry));
        assert(before.insert(at as int, entry) =~= head.push(entry) + before.skip(at as int));
    }
    sorted.insert(at, entry);
    assert(before.take(0) =~= Seq::empty());
}

/// Copies the paths that have not expired, best first.
pub fn ranked_in(list: &Vec<PathEntry>, ttl: u64, now: u64) -> (out: Vec<PathEntry>)
    ensures
        out@ == ranked(list@, ttl, now),
        best_first(out@),
        forall|i: int|
            0 <= i < out@.len() ==> list@.contains(#[trigger] out@[i]) && !out@[i].expired(ttl, now),
{
    let mut out: Vec<PathEntry> = Vec::new();
    let mut i: usize = 0;
    while i < list.len()
        invariant
            0 <= i <= list@.len(),
            out@ == ranked(list@.take(i as int), ttl, now),
        decreases list@.len() - i,
    {
        assert(list@.take(i + 1).drop_last() =~= list@.take(i as int));
        assert(list@.take(i + 1).last() == list@[i as int]);
        if !list[i].is_expired(ttl, now) {
            place(&mut out, list[i]);
        }
        i = i + 1;
    }
    proof {
        assert(list@.take(i as int) =~= list@);
        lemma_ranked(list@, ttl, now);
    }
    out
}

/// Adds a path to the list of a destination; see [`list_with_path`].
pub fn add_to_list(
    list: &mut Vec<PathEntry>,
    interface: InterfaceType,
    next_hop: Option<NextHopHash>,
    metrics: RoutingMetrics,
    now: u64,
    max_paths: usize,
) -> (changed: bool)
    requires
        list_wf(old(list)@, max_paths),
    ensures
        (final(list)@, changed) == list_with_path(
            old(list)@,
            interface,
            next_hop,
            metrics,
            now,
            max_paths,
        ),
        list_wf(final(list)@, max_paths),
{
    proof {
        lemma_find_interface(list@, interface);
        lemma_worst(list@);
    }
    match find_interface_in(list, interface) {
        Some(i) => {
            let existing = list[i];
            if metrics.score() >= existing.metrics.score() {
                list[i] = PathEntry {
                    next_hop,
                    metrics,
                    last_refreshed: later_of(now, existing.last_refreshed),
                    ..existing
                };
                true
            } else {
                list[i] = PathEntry {
                    last_refreshed: later_of(now, existing.last_refreshed),
                    ..existing
                };
                false
            }
        },
        None => {
            if list.len() < max_paths {
                list.push(PathEntry::new(interface, next_hop, metrics, now));
                true
            } else {
                let w = worst_in(list);
                if metrics.score() > list[w].metrics.score() {
                    list[w] = PathEntry::new(interface, next_hop, metrics, now);
                    true
                } else {
                    false
                }
            }
        },
    }
}

/// The table without the paths that have expired and without the
/// destinations that this leaves empty.
pub open spec fn swept(table: Map<DestinationHash, Seq<PathEntry>>, ttl: u64, now: u64) -> Map<
    DestinationHash,
    Seq<PathEntry>,
> {
    Map::new(
        |k: DestinationHash| table.contains_key(k) && live_paths(table[k], ttl, now).len() > 0,
        |k: DestinationHash| live_paths(table[k], ttl, now),
    )
}

/// Routing table: the known paths to every destination.
pub struct PathTable {
    config: PathTableConfig,
    paths: AddrMap<Vec<PathEntry>>,
    clock: MonotonicClock,
}

impl View for PathTable {
    type V = Map<DestinationHash, Seq<PathEntry>>;

    closed spec fn view(&self) -> Map<DestinationHash, Seq<PathEntry>> {
        Map::new(|k: DestinationHash| self.paths@.contains_key(k), |k: DestinationHash| self.paths@[k]@)
    }
}

impl PathTable {
    /// The configuration that the table was created with.
    pub closed spec fn spec_config(&self) -> PathTableConfig {
        self.config
    }

    /// Number of paths over all destinations.
    pub closed spec fn total_paths(&self) -> int {
        total_len(self.paths.values())
    }

    /// The configuration is valid, the table holds no more destinations than
    /// it allows, and the list of every destination is well formed.
    pub closed spec fn wf(&self) -> bool {
        &&& self.paths.wf()
        &&& self.config.valid()
        &&& self.paths.keys().len() <= self.config.max_destinations
        &&& forall|i: int|
            0 <= i < self.paths.values().len() ==> list_wf(
                (#[trigger] self.paths.values()[i])@,
                self.config.max_paths_per_dest,
            )
    }

    /// What being well formed means for the table as a map.
    pub proof fn lemma_wf(&self)
        requires
            self.wf(),
        ensures
            self.spec_config().valid(),
            self@.dom().finite(),
            self@.dom().len() <= self.spec_config().max_destinations,
            forall|k: DestinationHash| #[trigger]
                self@.contains_key(k) ==> list_wf(self@[k], self.spec_config().max_paths_per_dest),
    {
        self.paths.lemma_view();
        assert(self@.dom() =~= self.paths@.dom());
        assert forall|k: DestinationHash| #[trigger] self@.contains_key(k) implies list_wf(
            self@[k],
            self.spec_config().max_paths_per_dest,
        ) by {
            let i = self.paths.keys().index_of(k);
            assert(self.paths@[k] == self.paths.values()[i]);
        }
    }

    /// Creates an empty table, or fails exactly when the configuration is
    /// not valid.
    pub fn new(config: PathTableConfig) -> (r: Result<Self, PathTableError>)
        ensures
            r is Ok <==> config.valid(),
            r is Ok ==> r->Ok_0.wf() && r->Ok_0@ == Map::<DestinationHash, Seq<PathEntry>>::empty()
                && r->Ok_0.spec_config() == config,
            r is Err ==> r->Err_0->InvalidConfig_0@ == (if config.max_destinations == 0 {
                "max_destinations must be greater than 0"@
            } else if config.max_paths_per_dest == 0 {
                "max_paths_per_dest must be greater than 0"@
            } else {
                "path_ttl must be greater than 0"@
            }),
    {
        match config.validate() {
            Err(e) => Err(e),
            Ok(()) => {
                let t = PathTable { config, paths: AddrMap::new(), clock: MonotonicClock::new() };
                assert(t@ =~= Map::<DestinationHash, Seq<PathEntry>>::empty());
                Ok(t)
            },
        }
    }

    /// The configuration.
    pub fn config(&self) -> (c: &PathTableConfig)
        ensures
            *c == self.spec_config(),
    {
        &self.config
    }

    /// The clock that the table reads. A time that is handed to the table
    /// is a reading of this clock.
    pub closed spec fn spec_clock(&self) -> MonotonicClock {
        self.clock
    }

    /// The clock that the table reads.
    pub fn clock(&self) -> (c: &MonotonicClock)
        ensures
            *c == self.spec_clock(),
    {
        &self.clock
    }

    /// Number of destinations; never more than the configured maximum.
    pub fn destination_count(&self) -> (n: usize)
        requires
            self.wf(),
        ensures
            n == self@.dom().len(),
            n <= self.spec_config().max_destinations,
    {
        assert(self@.dom() =~= self.paths@.dom());
        self.paths.len()
    }

    /// Whether the table holds no destination.
    pub fn is_empty(&self) -> (r: bool)
        requires
            self.wf(),
        ensures
            r == (self@.dom().len() == 0),
    {
        assert(self@.dom() =~= self.paths@.dom());
        self.paths.is_empty()
    }

    /// Number of paths over all destinations, saturating at `usize::MAX`.
    pub fn path_count(&self) -> (n: usize)
        requires
            self.wf(),
        ensures
            n == if self.total_paths() > usize::MAX {
                usize::MAX as int
            } else {
                self.total_paths()
            },
    {
        let mut n: usize = 0;
        let mut i: usize = 0;
        let ghost lists = self.paths.values();
        while i < self.paths.len()
            invariant
                self.wf(),
                lists == self.paths.values(),
                0 <= i <= lists.len(),
                total_len(lists.take(i as int)) >= 0,
                n == if total_len(lists.take(i as int)) > usize::MAX {
                    usize::MAX as int
                } else {
                    total_len(lists.take(i as int))
                },
            decreases lists.len() - i,
        {
            assert(lists.take(i + 1).drop_last() =~= lists.take(i as int));
            assert(lists.take(i + 1).last() == lists[i as int]);
            let len = self.paths.value_at(i).len();
            n = if len > usize::MAX - n {
                usize::MAX
            } else {
                n + len
            };
            i = i + 1;
        }
        assert(lists.take(i as int) =~= lists);
        n
    }

    /// Removes every path.
    pub fn clear(&mut self)
        requires
            old(self).wf(),
        ensures
            final(self).wf(),
            final(self).spec_config() == old(self).spec_config(),
            final(self)@ == Map::<DestinationHash, Seq<PathEntry>>::empty(),
    {
        self.paths.clear();
        assert(self@ =~= Map::<DestinationHash, Seq<PathEntry>>::empty());
    }

    /// Removes all paths to a destination; says whether there were any.
    pub fn remove_destination(&mut self, destination: &DestinationHash) -> (r: bool)
        requires
            old(self).wf(),
        ensures
            final(self).wf(),
            final(self).spec_config() == old(self).spec_config(),
            final(self)@ == old(self)@.remove(*destination),
            r == old(self)@.contains_key(*destination),
    {
        let ghost before = self.paths.values();
        match self.paths.position(destination) {
            Some(i) => {
                self.paths.remove_at(i);
                proof {
                    assert(self@ =~= old(self)@.remove(*destination));
                    assert forall|j: int| 0 <= j < self.paths.values().len() implies list_wf(
                        (#[trigger] self.paths.values()[j])@,
                        self.config.max_paths_per_dest,
                    ) by {
                        if j < i {
                            assert(self.paths.values()[j] == before[j]);
                        } else {
                            assert(self.paths.values()[j] == before[j + 1]);
                        }
                    }
                }
                true
            },
            None => {
                assert(self@ =~= old(self)@.remove(*destination));
                false
            },
        }
    }

    /// Adds or updates a path learned at `now`; says whether the routing
    /// state changed.
    ///
    /// For a known destination the list changes as [`list_with_path`] says.
    /// A new destination gets a list of one path, unless the table already
    /// holds the maximum number of destinations: then the path is refused.
    pub fn add_path_at(
        &mut self,
        destination: DestinationHash,
        interface: InterfaceType,
        next_hop: Option<NextHopHash>,
        metrics: RoutingMetrics,
        now: u64,
    ) -> (changed: bool)
        requires
            old(self).wf(),
        ensures
            final(self).wf(),
            final(self).spec_config() == old(self).spec_config(),
            old(self)@.contains_key(destination) ==> (final(self)@[destination], changed)
                == list_with_path(
                old(self)@[destination],
                interface,
                next_hop,
                metrics,
                now,
                old(self).spec_config().max_paths_per_dest,
            ) && final(self)@ == old(self)@.insert(destination, final(self)@[destination]),
            !old(self)@.contains_key(destination) && old(self)@.dom().len() < old(self).spec_config().max_destinations ==> changed && final(self)@ == old(self)@.insert(
                destination,
                seq![PathEntry::learned(interface, next_hop, metrics, now)],
            ),
            !old(self)@.contains_key(destination) && old(self)@.dom().len() >= old(self).spec_config().max_destinations ==> !changed && final(self)@ == old(self)@,
    {
        proof {
            self.paths.lemma_view();
            assert(self@.dom() =~= self.paths@.dom());
        }
        let ghost before = self.paths.values();
        match self.paths.position(&destination) {
            Some(i) => {
                let entry = self.paths.remove_at(i);
                let mut list = entry.1;
                assert(list == before[i as int]);
                let changed = add_to_list(
                    &mut list,
                    interface,
                    next_hop,
                    metrics,
                    now,
                    self.config.max_paths_per_dest,
                );
                self.paths.insert_at(i, destination, list);
                proof {
                    assert(self.paths.values() =~= before.update(i as int, list));
                    assert(self@ =~= old(self)@.insert(destination, list@));
                }
                changed
            },
            None => {
                if self.paths.len() >= self.config.max_destinations {
                    return false;
                }
                let mut list: Vec<PathEntry> = Vec::new();
                list.push(PathEntry::new(interface, next_hop, metrics, now));
                assert(list@ =~= seq![PathEntry::learned(interface, next_hop, metrics, now)]);
                self.paths.push(destination, list);
                proof {
                    assert(self@ =~= old(self)@.insert(destination, list@));
                    assert forall|j: int| 0 <= j < self.paths.values().len() implies list_wf(
                        (#[trigger] self.paths.values()[j])@,
                        self.config.max_paths_per_dest,
                    ) by {
                        if j < before.len() {
                            assert(self.paths.values()[j] == before[j]);
                        }
                    }
                }
                true
            },
        }
    }

    /// The best path to a destination at `now`: the one that scores highest
    /// among those that have not expired, if there is any.
    pub fn best_path_at(&self, destination: &DestinationHash, now: u64) -> (r: Option<&PathEntry>)
        requires
            self.wf(),
        ensures
            !self@.contains_key(*destination) ==> r is None,
            self@.contains_key(*destination) ==> match best(
                self@[*destination],
                self.spec_config().path_ttl,
                now,
            ) {
                Some(b) => r is Some && *r->Some_0 == self@[*destination][b],
                None => r is None,
            },
            r is Some ==> self@.contains_key(*destination) && self@[*destination].contains(
                *r->Some_0,
            ) && !r->Some_0.expired(self.spec_config().path_ttl, now) && forall|i: int|
                0 <= i < self@[*destination].len() && !(#[trigger] self@[*destination][i]).expired(
                    self.spec_config().path_ttl,
                    now,
                ) ==> r->Some_0.metrics.spec_score() >= self@[*destination][i].metrics.spec_score(),
    {
        match self.paths.get(destination) {
            None => None,
            Some(list) => {
                proof {
                    lemma_best(list@, self.config.path_ttl, now);
                }
                match best_in(list, self.config.path_ttl, now) {
                    Some(b) => Some(&list[b]),
                    None => None,
                }
            },
        }
    }

    /// All paths to a destination that have not expired at `now`, best
    /// first; paths of equal score in the order in which they were added.
    pub fn paths_to_at(&self, destination: &DestinationHash, now: u64) -> (r: Vec<PathEntry>)
        requires
            self.wf(),
        ensures
            !self@.contains_key(*destination) ==> r@.len() == 0,
            self@.contains_key(*destination) ==> r@ == ranked(
                self@[*destination],
                self.spec_config().path_ttl,
                now,
            ) && forall|i: int|
                0 <= i < r@.len() ==> self@[*destination].contains(#[trigger] r@[i])
                    && !r@[i].expired(self.spec_config().path_ttl, now),
            best_first(r@),
    {
        match self.paths.get(destination) {
            None => Vec::new(),
            Some(list) => ranked_in(list, self.config.path_ttl, now),
        }
    }

    /// Whether some path to the destination has not expired at `now`.
    pub fn has_path_at(&self, destination: &DestinationHash, now: u64) -> (r: bool)
        requires
            self.wf(),
        ensures
            r == (self@.contains_key(*destination) && best(
                self@[*destination],
                self.spec_config().path_ttl,
                now,
            ) is Some),
            r == (self@.contains_key(*destination) && exists|i: int|
                0 <= i < self@[*destination].len() && !(#[trigger] self@[*destination][i]).expired(
                    self.spec_config().path_ttl,
                    now,
                )),
    {
        proof {
            if self@.contains_key(*destination) {
                lemma_best(self@[*destination], self.config.path_ttl, now);
            }
        }
        self.best_path_at(destination, now).is_some()
    }

    /// Marks the path to a destination over `interface` as validated and
    /// refreshes it at `now`. Does nothing if there is no such path.
    pub fn validate_path_at(
        &mut self,
        destination: &DestinationHash,
        interface: InterfaceType,
        now: u64,
    )
        requires
            old(self).wf(),
        ensures
            final(self).wf(),
            final(self).spec_config() == old(self).spec_config(),
            old(self)@.contains_key(*destination) ==> match find_interface(
                old(self)@[*destination],
                interface,
            ) {
                Some(i) => final(self)@ == old(self)@.insert(
                    *destination,
                    old(self)@[*destination].update(
                        i,
                        old(self)@[*destination][i].confirmed(now),
                    ),
                ),
                None => final(self)@ == old(self)@,
            },
            !old(self)@.contains_key(*destination) ==> final(self)@ == old(self)@,
    {
        let ghost before = self.paths.values();
        match self.paths.position(destination) {
            None => {},
            Some(i) => {
                let found = find_interface_in(self.paths.value_at(i), interface);
                match found {
                    None => {},
                    Some(p) => {
                        let entry = self.paths.remove_at(i);
                        let mut list = entry.1;
                        let existing = list[p];
                        list[p] = PathEntry {
                            metrics: RoutingMetrics { validated: true, ..existing.metrics },
                            last_refreshed: later_of(now, existing.last_refreshed),
                            ..existing
                        };
                        self.paths.insert_at(i, *destination, list);
                        proof {
                            assert(self.paths.values() =~= before.update(i as int, list));
                            assert(self@ =~= old(self)@.insert(*destination, list@));
                        }
                    },
                }
            },
        }
    }

    /// Removes the paths that have expired at `now` and the destinations
    /// left without a path; returns the number of paths removed, saturating
    /// at `usize::MAX`.
    pub fn cleanup_expired_at(&mut self, now: u64) -> (removed: usize)
        requires
            old(self).wf(),
        ensures
            final(self).wf(),
            final(self).spec_config() == old(self).spec_config(),
            final(self)@ == swept(old(self)@, old(self).spec_config().path_ttl, now),
            removed == if old(self).total_paths() - final(self).total_paths() > usize::MAX {
                usize::MAX as int
            } else {
                old(self).total_paths() - final(self).total_paths()
            },
    {
        let ttl = self.config.path_ttl;
        let ghost lists0 = self.paths.values();
        let ghost keys0 = self.paths.keys();
        let mut removed: usize = 0;
        let mut marks: Vec<bool> = Vec::new();
        let mut i: usize = 0;
        let total = self.paths.len();
        while i < total
            invariant
                self.paths.wf(),
                self.config == old(self).config,
                ttl == self.config.path_ttl,
                self.config.valid(),
                self.paths.keys() == keys0,
                total == keys0.len(),
                lists0.len() == keys0.len(),
                self.paths.values().len() == lists0.len(),
                0 <= i <= total,
                marks@.len() == i,
                forall|j: int|
                    0 <= j < lists0.len() ==> list_wf(
                        (#[trigger] lists0[j])@,
                        self.config.max_paths_per_dest,
                    ),
                forall|j: int|
                    0 <= j < i ==> (#[trigger] self.paths.values()[j])@ == live_paths(
                        lists0[j]@,
                        ttl,
                        now,
                    ) && marks@[j] == (self.paths.values()[j]@.len() == 0),
                forall|j: int| i <= j < total ==> #[trigger] self.paths.values()[j] == lists0[j],
                total_len(lists0) - total_len(self.paths.values()) >= 0,
                removed == if total_len(lists0) - total_len(self.paths.values()) > usize::MAX {
                    usize::MAX as int
                } else {
                    total_len(lists0) - total_len(self.paths.values())
                },
            decreases total - i,
        {
            let ghost cur = self.paths.values();
            let list = self.paths.value_at(i);
            let before_len = list.len();
            let kept = live_in(list, ttl, now);
            proof {
                lemma_live_paths(lists0[i as int]@, ttl, now);
                lemma_total_update(cur, i as int, kept);
            }
            let gone = before_len - kept.len();
            removed = if gone > usize::MAX - removed {
                usize::MAX
            } else {
                removed + gone
            };
            marks.push(kept.len() == 0);
            self.paths.set_at(i, kept);
            i = i + 1;
        }
        let ghost lists1 = self.paths.values();
        proof {
            self.paths.lemma_view();
            old(self).paths.lemma_view();
            lemma_total_unmarked(lists1, marks@);
            crate::addr_map::lemma_unmarked(keys0, lists1, marks@);
        }
        self.paths.remove_marked(&marks);
        proof {
            self.paths.lemma_view();
            assert forall|k: DestinationHash| #[trigger] self@.contains_key(k) <==> (old(self)@.contains_key(k) && live_paths(old(self)@[k], ttl, now).len() > 0) by {
                if old(self)@.contains_key(k) {
                    let b = keys0.index_of(k);
                    assert(old(self).paths@[k] == lists0[b]);
                }
            }
            assert forall|k: DestinationHash| #[trigger] self@.contains_key(k) implies self@[k]
                == live_paths(old(self)@[k], ttl, now) by {
                let b = keys0.index_of(k);
                assert(old(self).paths@[k] == lists0[b]);
                let a = self.paths.keys().index_of(k);
                let c = choose|c: int|
                    0 <= c < keys0.len() && !marks@[c] && #[trigger] keys0[c] == self.paths.keys()[a]
                        && lists1[c] == self.paths.values()[a];
                crate::addr_map::lemma_index_of(keys0, c);
            }
            assert(self@ =~= swept(old(self)@, ttl, now));
            assert forall|a: int| 0 <= a < self.paths.values().len() implies list_wf(
                (#[trigger] self.paths.values()[a])@,
                self.config.max_paths_per_dest,
            ) by {
                let c = choose|c: int|
                    0 <= c < keys0.len() && !marks@[c] && #[trigger] keys0[c] == self.paths.keys()[a]
                        && lists1[c] == self.paths.values()[a];
                lemma_live_paths(lists0[c]@, ttl, now);
                let live = live_paths(lists0[c]@, ttl, now);
                assert forall|x: int| 0 <= x < live.len() implies (#[trigger] live[x]).wf() by {
                    let y = choose|y: int| 0 <= y < lists0[c]@.len() && lists0[c]@[y] == live[x];
                    assert(lists0[c]@[y].wf());
                }
            }
        }
        removed
    }

    /// Adds or updates a path learned just now; see
    /// [`PathTable::add_path_at`].
    pub fn add_path(
        &mut self,
        destination: DestinationHash,
        interface: InterfaceType,
        next_hop: Option<NextHopHash>,
        metrics: RoutingMetrics,
    ) -> (changed: bool)
        requires
            old(self).wf(),
        ensures
            final(self).wf(),
            final(self).spec_config() == old(self).spec_config(),
            old(self)@.contains_key(destination) ==> final(self)@ == old(self)@.insert(
                destination,
                final(self)@[destination],
            ) && exists|now: u64|
                (final(self)@[destination], changed) == #[trigger] list_with_path(
                    old(self)@[destination],
                    interface,
                    next_hop,
                    metrics,
                    now,
                    old(self).spec_config().max_paths_per_dest,
                ),
            !old(self)@.contains_key(destination) ==> changed == (old(self)@.dom().len() < old(self).spec_config().max_destinations),
            !old(self)@.contains_key(destination) && !changed ==> final(self)@ == old(self)@,
            !old(self)@.contains_key(destination) && changed ==> exists|now: u64|
                final(self)@ == old(self)@.insert(
                    destination,
                    seq![#[trigger] PathEntry::learned(interface, next_hop, metrics, now)],
                ),
    {
        let now = self.clock.now();
        self.add_path_at(destination, interface, next_hop, metrics, now)
    }

    /// The best path to a destination just now; see
    /// [`PathTable::best_path_at`].
    pub fn best_path(&self, destination: &DestinationHash) -> (r: Option<&PathEntry>)
        requires
            self.wf(),
        ensures
            r is Some ==> self@.contains_key(*destination) && self@[*destination].contains(
                *r->Some_0,
            ),
            exists|now: u64|
                !self@.contains_key(*destination) && r is None || self@.contains_key(*destination)
                    && match #[trigger] best(
                    self@[*destination],
                    self.spec_config().path_ttl,
                    now,
                ) {
                    Some(b) => r is Some && *r->Some_0 == self@[*destination][b],
                    None => r is None,
                },
    {
        let now = self.clock.now();
        let r = self.best_path_at(destination, now);
        proof {
            if !self@.contains_key(*destination) {
                assert(best(Seq::empty(), self.spec_config().path_ttl, now) is None);
            }
        }
        r
    }

    /// All paths to a destination that have not expired just now, best
    /// first; see [`PathTable::paths_to_at`].
    pub fn paths_to(&self, destination: &DestinationHash) -> (r: Vec<PathEntry>)
        requires
            self.wf(),
        ensures
            best_first(r@),
            !self@.contains_key(*destination) ==> r@.len() == 0,
            self@.contains_key(*destination) ==> exists|now: u64|
                r@ == #[trigger] ranked(self@[*destination], self.spec_config().path_ttl, now),
    {
        let now = self.clock.now();
        self.paths_to_at(destination, now)
    }

    /// Whether some path to the destination has not expired just now; see
    /// [`PathTable::has_path_at`].
    pub fn has_path(&self, destination: &DestinationHash) -> (r: bool)
        requires
            self.wf(),
        ensures
            r ==> self@.contains_key(*destination),
            self@.contains_key(*destination) ==> exists|now: u64|
                r == (#[trigger] best(self@[*destination], self.spec_config().path_ttl, now)
                    is Some),
    {
        let now = self.clock.now();
        self.has_path_at(destination, now)
    }

    /// Marks a path as validated and refreshes it just now; see
    /// [`PathTable::validate_path_at`].
    pub fn validate_path(&mut self, destination: &DestinationHash, interface: InterfaceType)
        requires
            old(self).wf(),
        ensures
            final(self).wf(),
            final(self).spec_config() == old(self).spec_config(),
            !old(self)@.contains_key(*destination) ==> final(self)@ == old(self)@,
            old(self)@.contains_key(*destination) ==> match find_interface(
                old(self)@[*destination],
                interface,
            ) {
                Some(i) => exists|now: u64|
                    final(self)@ == old(self)@.insert(
                        *destination,
                        old(self)@[*destination].update(
                            i,
                            #[trigger] old(self)@[*destination][i].confirmed(now),
                        ),
                    ),
                None => final(self)@ == old(self)@,
            },
    {
        let now = self.clock.now();
        self.validate_path_at(destination, interface, now);
    }

    /// Removes the paths that have expired just now; see
    /// [`PathTable::cleanup_expired_at`].
    pub fn cleanup_expired(&mut self) -> (removed: usize)
        requires
            old(self).wf(),
        ensures
            final(self).wf(),
            final(self).spec_config() == old(self).spec_config(),
            removed == if old(self).total_paths() - final(self).total_paths() > usize::MAX {
                usize::MAX as int
            } else {
                old(self).total_paths() - final(self).total_paths()
            },
            exists|now: u64|
                final(self)@ == #[trigger] swept(
                    old(self)@,
                    old(self).spec_config().path_ttl,
                    now,
                ),
    {
        let now = self.clock.now();
        self.cleanup_expired_at(now)
    }
}

impl Default for PathTable {
    /// An empty table with the default configuration.
    fn default() -> (t: Self)
        ensures
            t.wf(),
            t@ == Map::<DestinationHash, Seq<PathEntry>>::empty(),
    {
        let t = PathTable {
            config: PathTableConfig::default(),
            paths: AddrMap::new(),
            clock: MonotonicClock::new(),
        };
        assert(t@ =~= Map::<DestinationHash, Seq<PathEntry>>::empty());
        t
    }
}

} // verus!
