//! Announce cache for duplicate detection.
//!
//! Announces flood through the mesh. The cache remembers which announces
//! were seen and with how many hops, so that a node rebroadcasts an announce
//! only when it is new or arrived over a strictly shorter path. The cache is
//! bounded: when it is full, a new announce first pushes out the entries
//! older than the time to live and, if there is none, the entry that was
//! accessed least recently.

use crate::addr_map::AddrMap;
use crate::hash::AddressHash;
use crate::text::push_text;
use crate::time::age;
use crate::time::age_us;
use crate::time::later;
use crate::time::later_of;
use crate::time::MonotonicClock;
use vstd::prelude::*;
use vstd::string::*;

verus! {

/// Hash identifying an announce.
pub type AnnounceHash = AddressHash;

/// Configuration of the announce cache.
#[derive(Debug, Clone, Copy)]
pub struct AnnounceCacheConfig {
    /// Maximum number of entries in the cache.
    pub max_entries: usize,
    /// Time to live of an entry, in microseconds.
    pub ttl: u64,
}

/// Errors of the announce cache.
#[derive(Debug, Clone, PartialEq, Eq)]
pub enum AnnounceCacheError {
    /// A configuration value is out of range; the text names it.
    InvalidConfig(&'static str),
}

/// What the cache knows about one announce.
#[derive(Debug, Clone, Copy, PartialEq, Eq)]
pub struct AnnounceEntry {
    /// When the announce was first seen.
    pub first_seen: u64,
    /// When the entry was last accessed.
    pub last_accessed: u64,
    /// Lowest hop count seen.
    pub hops: u8,
    /// Number of times the announce was seen.
    pub seen_count: u32,
}

/// Verdict on an announce.
#[derive(Debug, Clone, PartialEq, Eq)]
#[must_use]
pub enum InsertResult {
    /// First time this announce is seen: rebroadcast.
    New,
    /// Seen before with the same or a lower hop count: suppress.
    Duplicate,
    /// Seen before with a higher hop count: rebroadcast.
    BetterPath {
        /// Previous hop count.
        old_hops: u8,
        /// New, lower hop count.
        new_hops: u8,
    },
}

impl AnnounceCacheError {
    /// A sentence that describes the error.
    pub fn describe(&self) -> (s: String)
        ensures
            s@ == "invalid config: "@ + self->InvalidConfig_0@,
    {
        match self {
            AnnounceCacheError::InvalidConfig(msg) => {
                let mut s = String::from_str("invalid config: ");
                push_text(&mut s, msg);
                s
            },
        }
    }
}

impl AnnounceCacheConfig {
    /// At least one entry and a positive time to live.
    pub open spec fn valid(&self) -> bool {
        self.max_entries > 0 && self.ttl > 0
    }

    /// Accepts exactly the valid configurations; the error names the first
    /// rule that is broken.
    pub fn validate(&self) -> (r: Result<(), AnnounceCacheError>)
        ensures
            r is Ok <==> self.valid(),
            r is Err && self.max_entries == 0 ==> r->Err_0->InvalidConfig_0@
                == "max_entries must be greater than 0"@,
            r is Err && self.max_entries != 0 ==> r->Err_0->InvalidConfig_0@
                == "ttl must be greater than 0"@,
    {
        if self.max_entries == 0 {
            return Err(AnnounceCacheError::InvalidConfig("max_entries must be greater than 0"));
        }
        if self.ttl == 0 {
            return Err(AnnounceCacheError::InvalidConfig("ttl must be greater than 0"));
        }
        Ok(())
    }
}

impl Default for AnnounceCacheConfig {
    /// 256 entries that live for one hour.
    fn default() -> (c: Self)
        ensures
            c.max_entries == 256,
            c.ttl == 3_600_000_000,
            c.valid(),
    {
        AnnounceCacheConfig { max_entries: 256, ttl: 3_600_000_000 }
    }
}

impl AnnounceEntry {
    /// Seen at least once, and not accessed before it was first seen.
    pub open spec fn wf(self) -> bool {
        self.seen_count >= 1 && self.last_accessed >= self.first_seen
    }

    /// The entry of an announce seen for the first time at `now`.
    pub open spec fn fresh(hops: u8, now: u64) -> Self {
        AnnounceEntry { first_seen: now, last_accessed: now, hops, seen_count: 1 }
    }

    /// The entry after the announce was seen again at `now` with `hops`
    /// hops: counted once more, saturating; accessed at `now`; the hop count
    /// lowered if the new one is lower.
    pub open spec fn seen_again(self, hops: u8, now: u64) -> Self {
        AnnounceEntry {
            first_seen: self.first_seen,
            last_accessed: later(now, self.last_accessed),
            hops: if hops < self.hops {
                hops
            } else {
                self.hops
            },
            seen_count: if self.seen_count == u32::MAX {
                u32::MAX
            } else {
                (self.seen_count + 1) as u32
            },
        }
    }

    /// The entry after an access at `now`.
    pub open spec fn touched(self, now: u64) -> Self {
        AnnounceEntry { last_accessed: later(now, self.last_accessed), ..self }
    }

    /// The entry is older than the time to live.
    pub open spec fn expired(self, now: u64, ttl: u64) -> bool {
        age(now, self.first_seen) > ttl
    }

    /// The entry of an announce seen for the first time at `now`.
    pub fn new(hops: u8, now: u64) -> (e: Self)
        ensures
            e == Self::fresh(hops, now),
            e.wf(),
    {
        AnnounceEntry { first_seen: now, last_accessed: now, hops, seen_count: 1 }
    }
}

/// The verdict on an announce with `hops` hops, given what is cached.
pub open spec fn verdict(
    cached: Map<AnnounceHash, AnnounceEntry>,
    hash: AnnounceHash,
    hops: u8,
) -> InsertResult {
    if !cached.contains_key(hash) {
        InsertResult::New
    } else if hops < cached[hash].hops {
        InsertResult::BetterPath { old_hops: cached[hash].hops, new_hops: hops }
    } else {
        InsertResult::Duplicate
    }
}

/// The entries that are not older than the time to live.
pub open spec fn unexpired(cached: Map<AnnounceHash, AnnounceEntry>, now: u64, ttl: u64) -> Map<
    AnnounceHash,
    AnnounceEntry,
> {
    Map::new(
        |k: AnnounceHash| cached.contains_key(k) && !cached[k].expired(now, ttl),
        |k: AnnounceHash| cached[k],
    )
}

/// No entry was accessed earlier than the one of `hash`.
pub open spec fn is_lru(cached: Map<AnnounceHash, AnnounceEntry>, hash: AnnounceHash) -> bool {
    &&& cached.contains_key(hash)
    &&& forall|o: AnnounceHash| #[trigger]
        cached.contains_key(o) ==> cached[hash].last_accessed <= cached[o].last_accessed
}

/// `after` is `before` with room made for one entry: the expired entries
/// are gone or, if there was none, one least recently used entry is.
pub open spec fn made_room(
    before: Map<AnnounceHash, AnnounceEntry>,
    after: Map<AnnounceHash, AnnounceEntry>,
    now: u64,
    ttl: u64,
) -> bool {
    if exists|k: AnnounceHash| #[trigger] before.contains_key(k) && before[k].expired(now, ttl) {
        after == unexpired(before, now, ttl)
    } else {
        exists|victim: AnnounceHash| #[trigger]
            is_lru(before, victim) && after == before.remove(victim)
    }
}

/// `after` is what a full cache becomes before a new entry goes in; a cache
/// with room stays as it is.
pub open spec fn room_for_one(
    before: Map<AnnounceHash, AnnounceEntry>,
    after: Map<AnnounceHash, AnnounceEntry>,
    max_entries: usize,
    now: u64,
    ttl: u64,
) -> bool {
    if before.dom().len() < max_entries {
        after == before
    } else {
        made_room(before, after, now, ttl)
    }
}

/// `after` is what the cache `before` becomes when an announce with `hops`
/// hops is seen at `now`: a cached announce is seen again; a new one gets a
/// fresh entry, after room was made for it in a full cache.
pub open spec fn inserted(
    before: Map<AnnounceHash, AnnounceEntry>,
    after: Map<AnnounceHash, AnnounceEntry>,
    hash: AnnounceHash,
    hops: u8,
    now: u64,
    config: AnnounceCacheConfig,
) -> bool {
    if before.contains_key(hash) {
        after == before.insert(hash, before[hash].seen_again(hops, now))
    } else {
        exists|base: Map<AnnounceHash, AnnounceEntry>|
            #![trigger base.insert(hash, AnnounceEntry::fresh(hops, now))]
            room_for_one(before, base, config.max_entries, now, config.ttl) && after
                == base.insert(hash, AnnounceEntry::fresh(hops, now))
    }
}

/// Dropping the expired entries twice at the same time drops nothing the
/// second time.
pub proof fn lemma_cleanup_idempotent(cached: Map<AnnounceHash, AnnounceEntry>, now: u64, ttl: u64)
    ensures
        unexpired(unexpired(cached, now, ttl), now, ttl) == unexpired(cached, now, ttl),
{
    assert(unexpired(unexpired(cached, now, ttl), now, ttl) =~= unexpired(cached, now, ttl));
}

/// An announce that comes again over a strictly shorter path is a better
/// path, and the cache then holds the lower hop count.
///
/// `earlier` is the entry that an insert with `old_hops` hops left behind,
/// be it a fresh one or one that had no lower hop count before.
pub proof fn lemma_better_path(
    cached: Map<AnnounceHash, AnnounceEntry>,
    hash: AnnounceHash,
    old_hops: u8,
    new_hops: u8,
    now: u64,
)
    requires
        cached.contains_key(hash),
        cached[hash].hops == old_hops,
        new_hops < old_hops,
    ensures
        verdict(cached, hash, new_hops) == (InsertResult::BetterPath { old_hops, new_hops }),
        cached[hash].seen_again(new_hops, now).hops == new_hops,
{
}

/// After an announce was taken in with `old_hops` hops, and was not known
/// with fewer hops before, the same announce with fewer hops is a better
/// path from `old_hops` to the new count, and the cache then holds the new
/// count.
pub proof fn lemma_better_path_after_insert(
    before: Map<AnnounceHash, AnnounceEntry>,
    between: Map<AnnounceHash, AnnounceEntry>,
    after: Map<AnnounceHash, AnnounceEntry>,
    hash: AnnounceHash,
    old_hops: u8,
    new_hops: u8,
    first: u64,
    second: u64,
    config: AnnounceCacheConfig,
)
    requires
        inserted(before, between, hash, old_hops, first, config),
        before.contains_key(hash) ==> before[hash].hops >= old_hops,
        inserted(between, after, hash, new_hops, second, config),
        new_hops < old_hops,
    ensures
        verdict(between, hash, new_hops) == (InsertResult::BetterPath { old_hops, new_hops }),
        after.contains_key(hash),
        after[hash].hops == new_hops,
{
    if !before.contains_key(hash) {
        let base = choose|base: Map<AnnounceHash, AnnounceEntry>|
            #![trigger base.insert(hash, AnnounceEntry::fresh(old_hops, first))]
            room_for_one(before, base, config.max_entries, first, config.ttl) && between
                == base.insert(hash, AnnounceEntry::fresh(old_hops, first));
        assert(between[hash] == AnnounceEntry::fresh(old_hops, first));
    }
    assert(between.contains_key(hash));
    assert(between[hash].hops == old_hops);
}

/// Seeing an announce again never raises its hop count, never lowers its
/// count of sightings, and keeps the entry well formed.
pub proof fn lemma_seen_again(entry: AnnounceEntry, hops: u8, now: u64)
    requires
        entry.wf(),
    ensures
        entry.seen_again(hops, now).wf(),
        entry.seen_again(hops, now).hops <= entry.hops,
        entry.seen_again(hops, now).hops <= hops,
        entry.seen_again(hops, now).seen_count >= entry.seen_count,
        entry.seen_again(hops, now).first_seen == entry.first_seen,
{
}

/// Bounded cache of the announces seen recently.
pub struct AnnounceCache {
    config: AnnounceCacheConfig,
    entries: AddrMap<AnnounceEntry>,
    clock: MonotonicClock,
}

impl View for AnnounceCache {
    type V = Map<AnnounceHash, AnnounceEntry>;

    closed spec fn view(&self) -> Map<AnnounceHash, AnnounceEntry> {
        self.entries@
    }
}

impl AnnounceCache {
    /// The configuration that the cache was created with.
    pub closed spec fn spec_config(&self) -> AnnounceCacheConfig {
        self.config
    }

    /// The configuration is valid, the cache holds no more entries than it
    /// allows, and every entry is well formed.
    pub closed spec fn wf(&self) -> bool {
        &&& self.entries.wf()
        &&& self.config.valid()
        &&& self.entries.keys().len() <= self.config.max_entries
        &&& forall|i: int|
            0 <= i < self.entries.values().len() ==> (#[trigger] self.entries.values()[i]).wf()
    }

    /// What being well formed means for the cached map.
    pub proof fn lemma_wf(&self)
        requires
            self.wf(),
        ensures
            self.spec_config().valid(),
            self@.dom().finite(),
            self@.dom().len() <= self.spec_config().max_entries,
            forall|k: AnnounceHash| #[trigger] self@.contains_key(k) ==> self@[k].wf(),
    {
        self.entries.lemma_view();
        assert forall|k: AnnounceHash| #[trigger] self@.contains_key(k) implies self@[k].wf() by {
            let i = self.entries.keys().index_of(k);
            assert(self.entries.values()[i].wf());
        }
    }

    /// Creates an empty cache, or fails exactly when the configuration is
    /// not valid.
    pub fn new(config: AnnounceCacheConfig) -> (r: Result<Self, AnnounceCacheError>)
        ensures
            r is Ok <==> config.valid(),
            r is Ok ==> r->Ok_0.wf() && r->Ok_0@ == Map::<AnnounceHash, AnnounceEntry>::empty()
                && r->Ok_0.spec_config() == config,
            r is Err && config.max_entries == 0 ==> r->Err_0->InvalidConfig_0@
                == "max_entries must be greater than 0"@,
            r is Err && config.max_entries != 0 ==> r->Err_0->InvalidConfig_0@
                == "ttl must be greater than 0"@,
    {
        match config.validate() {
            Err(e) => Err(e),
            Ok(()) => Ok(
                AnnounceCache { config, entries: AddrMap::new(), clock: MonotonicClock::new() },
            ),
        }
    }

    /// The clock that the cache reads. A time that is handed to the cache
    /// is a reading of this clock.
    pub closed spec fn spec_clock(&self) -> MonotonicClock {
        self.clock
    }

    /// The clock that the cache reads.
    pub fn clock(&self) -> (c: &MonotonicClock)
        ensures
            *c == self.spec_clock(),
    {
        &self.clock
    }

    /// Whether the announce is cached. Does not count as an access.
    pub fn contains(&self, hash: &AnnounceHash) -> (r: bool)
        requires
            self.wf(),
        ensures
            r == self@.contains_key(*hash),
    {
        self.entries.contains_key(hash)
    }

    /// The entry of an announce. Does not count as an access.
    pub fn peek(&self, hash: &AnnounceHash) -> (r: Option<&AnnounceEntry>)
        requires
            self.wf(),
        ensures
            r is Some <==> self@.contains_key(*hash),
            r is Some ==> *r->Some_0 == self@[*hash],
    {
        self.entries.get(hash)
    }

    /// Number of entries; never more than the configured maximum.
    pub fn len(&self) -> (n: usize)
        requires
            self.wf(),
        ensures
            n == self@.dom().len(),
            n <= self.spec_config().max_entries,
    {
        self.entries.len()
    }

    /// Whether the cache is empty.
    pub fn is_empty(&self) -> (r: bool)
        requires
            self.wf(),
        ensures
            r == (self@.dom().len() == 0),
    {
        self.entries.is_empty()
    }

    /// The configuration.
    pub fn config(&self) -> (c: &AnnounceCacheConfig)
        ensures
            *c == self.spec_config(),
    {
        &self.config
    }

    /// Removes an announce and returns its entry, if it was cached.
    pub fn remove(&mut self, hash: &AnnounceHash) -> (r: Option<AnnounceEntry>)
        requires
            old(self).wf(),
        ensures
            final(self).wf(),
            final(self).spec_config() == old(self).spec_config(),
            final(self)@ == old(self)@.remove(*hash),
            r is Some <==> old(self)@.contains_key(*hash),
            r is Some ==> r->Some_0 == old(self)@[*hash],
    {
        let ghost before = self.entries.values();
        match self.entries.position(hash) {
            Some(i) => {
                let entry = self.entries.remove_at(i);
                assert forall|j: int| 0 <= j < self.entries.values().len() implies (
                #[trigger] self.entries.values()[j]).wf() by {
                    if j < i {
                        assert(self.entries.values()[j] == before[j]);
                    } else {
                        assert(self.entries.values()[j] == before[j + 1]);
                    }
                }
                Some(entry.1)
            },
            None => {
                assert(self@ =~= old(self)@.remove(*hash));
                None
            },
        }
    }

    /// Removes every entry.
    pub fn clear(&mut self)
        requires
            old(self).wf(),
        ensures
            final(self).wf(),
            final(self).spec_config() == old(self).spec_config(),
            final(self)@ == Map::<AnnounceHash, AnnounceEntry>::empty(),
    {
        self.entries.clear();
    }

    /// Marks, for every entry, whether it is older than the time to live.
    fn mark_expired(&self, now: u64) -> (marks: Vec<bool>)
        requires
            self.wf(),
        ensures
            marks@.len() == self.entries.keys().len(),
            forall|i: int|
                0 <= i < marks@.len() ==> #[trigger] marks@[i] == self.entries.values()[i].expired(
                    now,
                    self.config.ttl,
                ),
    {
        let mut marks: Vec<bool> = Vec::new();
        let mut i: usize = 0;
        while i < self.entries.len()
            invariant
                self.wf(),
                0 <= i <= self.entries.keys().len(),
                marks@.len() == i,
                forall|j: int|
                    0 <= j < i ==> #[trigger] marks@[j] == self.entries.values()[j].expired(
                        now,
                        self.config.ttl,
                    ),
            decreases self.entries.keys().len() - i,
        {
            let entry = self.entries.value_at(i);
            marks.push(age_us(now, entry.first_seen) > self.config.ttl);
            i = i + 1;
        }
        marks
    }

    /// Removes the entries that are older than the time to live at `now` and
    /// returns how many they were.
    pub fn cleanup_expired_at(&mut self, now: u64) -> (removed: usize)
        requires
            old(self).wf(),
        ensures
            final(self).wf(),
            final(self).spec_config() == old(self).spec_config(),
            final(self)@ == unexpired(old(self)@, now, old(self).spec_config().ttl),
            removed == old(self)@.dom().len() - final(self)@.dom().len(),
    {
        let marks = self.mark_expired(now);
        let ghost keys0 = self.entries.keys();
        let ghost values0 = self.entries.values();
        proof {
            self.entries.lemma_view();
            crate::addr_map::lemma_unmarked(keys0, values0, marks@);
        }
        let removed = self.entries.remove_marked(&marks);
        proof {
            self.entries.lemma_view();
            assert(self@ =~= unexpired(old(self)@, now, old(self).config.ttl));
            assert forall|i: int| 0 <= i < self.entries.values().len() implies (
            #[trigger] self.entries.values()[i]).wf() by {
                let b = choose|b: int|
                    0 <= b < keys0.len() && !marks@[b] && #[trigger] keys0[b]
                        == self.entries.keys()[i] && values0[b] == self.entries.values()[i];
                assert(values0[b].wf());
            }
        }
        removed
    }

    /// Index of an entry that was accessed least recently.
    fn find_lru(&self) -> (i: usize)
        requires
            self.wf(),
            self.entries.keys().len() > 0,
        ensures
            i < self.entries.keys().len(),
            is_lru(self@, self.entries.keys()[i as int]),
    {
        let mut best: usize = 0;
        let mut i: usize = 1;
        while i < self.entries.len()
            invariant
                self.wf(),
                1 <= i <= self.entries.keys().len(),
                0 <= best < i,
                forall|j: int|
                    0 <= j < i ==> self.entries.values()[best as int].last_accessed <= (
                    #[trigger] self.entries.values()[j]).last_accessed,
            decreases self.entries.keys().len() - i,
        {
            if self.entries.value_at(i).last_accessed < self.entries.value_at(best).last_accessed {
                best = i;
            }
            i = i + 1;
        }
        proof {
            self.entries.lemma_view();
            let victim = self.entries.keys()[best as int];
            assert forall|o: AnnounceHash| #[trigger] self@.contains_key(o) implies self@[victim].last_accessed
                <= self@[o].last_accessed by {
                let j = self.entries.keys().index_of(o);
                assert(self@[o] == self.entries.values()[j]);
            }
        }
        best
    }

    /// Evicts an entry that was accessed least recently, if there is any.
    pub fn evict_lru(&mut self)
        requires
            old(self).wf(),
        ensures
            final(self).wf(),
            final(self).spec_config() == old(self).spec_config(),
            old(self)@.dom().len() == 0 ==> final(self)@ == old(self)@,
            old(self)@.dom().len() > 0 ==> exists|victim: AnnounceHash| #[trigger]
                is_lru(old(self)@, victim) && final(self)@ == old(self)@.remove(victim),
    {
        if self.entries.is_empty() {
            return ;
        }
        let ghost before = self.entries.values();
        let i = self.find_lru();
        let ghost victim = self.entries.keys()[i as int];
        self.entries.remove_at(i);
        proof {
            assert(is_lru(old(self)@, victim) && self@ == old(self)@.remove(victim));
            assert forall|j: int| 0 <= j < self.entries.values().len() implies (
            #[trigger] self.entries.values()[j]).wf() by {
                if j < i {
                    assert(self.entries.values()[j] == before[j]);
                } else {
                    assert(self.entries.values()[j] == before[j + 1]);
                }
            }
        }
    }

    /// Makes room in a cache that is not empty: drops the entries older than
    /// the time to live or, if there is none, an entry that was accessed
    /// least recently.
    pub fn evict_expired_or_lru(&mut self, now: u64)
        requires
            old(self).wf(),
            old(self)@.dom().len() > 0,
        ensures
            final(self).wf(),
            final(self).spec_config() == old(self).spec_config(),
            made_room(old(self)@, final(self)@, now, old(self).spec_config().ttl),
            final(self)@.dom().len() < old(self)@.dom().len(),
    {
        proof {
            self.entries.lemma_view();
        }
        let removed = self.cleanup_expired_at(now);
        let ghost ttl = self.config.ttl;
        if removed == 0 {
            proof {
                self.entries.lemma_view();
                // nothing was dropped, so nothing was expired
                assert(unexpired(old(self)@, now, ttl).dom().subset_of(old(self)@.dom()));
                vstd::set_lib::lemma_subset_equality(
                    unexpired(old(self)@, now, ttl).dom(),
                    old(self)@.dom(),
                );
                assert(self@ =~= old(self)@);
                assert(!exists|k: AnnounceHash| #[trigger]
                    old(self)@.contains_key(k) && old(self)@[k].expired(now, ttl)) by {
                    if exists|k: AnnounceHash| #[trigger]
                        old(self)@.contains_key(k) && old(self)@[k].expired(now, ttl) {
                        let k = choose|k: AnnounceHash| #[trigger]
                            old(self)@.contains_key(k) && old(self)@[k].expired(now, ttl);
                        assert(!unexpired(old(self)@, now, ttl).contains_key(k));
                    }
                }
            }
            self.evict_lru();
            proof {
                self.entries.lemma_view();
            }
        } else {
            proof {
                self.entries.lemma_view();
                assert(exists|k: AnnounceHash| #[trigger]
                    old(self)@.contains_key(k) && old(self)@[k].expired(now, ttl)) by {
                    if !exists|k: AnnounceHash| #[trigger]
                        old(self)@.contains_key(k) && old(self)@[k].expired(now, ttl) {
                        assert(unexpired(old(self)@, now, ttl) =~= old(self)@);
                    }
                }
            }
        }
    }

    /// Takes in an announce seen at `now` and says whether it is new, a
    /// duplicate or a better path.
    ///
    /// A cached announce is counted once more and its hop count lowered if
    /// the new one is lower. A new announce gets a fresh entry; if the cache
    /// is full, room is made first.
    pub fn insert_at(&mut self, hash: AnnounceHash, hops: u8, now: u64) -> (r: InsertResult)
        requires
            old(self).wf(),
        ensures
            final(self).wf(),
            final(self).spec_config() == old(self).spec_config(),
            r == verdict(old(self)@, hash, hops),
            inserted(old(self)@, final(self)@, hash, hops, now, old(self).spec_config()),
            final(self)@.contains_key(hash),
    {
        proof {
            self.entries.lemma_view();
        }
        match self.entries.position(&hash) {
            Some(i) => {
                let entry = *self.entries.value_at(i);
                let seen = AnnounceEntry {
                    first_seen: entry.first_seen,
                    last_accessed: later_of(now, entry.last_accessed),
                    hops: if hops < entry.hops {
                        hops
                    } else {
                        entry.hops
                    },
                    seen_count: if entry.seen_count == u32::MAX {
                        u32::MAX
                    } else {
                        entry.seen_count + 1
                    },
                };
                assert(entry.wf());
                assert(seen == entry.seen_again(hops, now));
                self.entries.set_at(i, seen);
                if hops < entry.hops {
                    InsertResult::BetterPath { old_hops: entry.hops, new_hops: hops }
                } else {
                    InsertResult::Duplicate
                }
            },
            None => {
                if self.entries.len() >= self.config.max_entries {
                    self.evict_expired_or_lru(now);
                }
                let ghost base = self@;
                proof {
                    self.entries.lemma_view();
                    assert(!base.contains_key(hash));
                }
                let ghost before = self.entries.values();
                self.entries.push(hash, AnnounceEntry::new(hops, now));
                proof {
                    assert(self@ == base.insert(hash, AnnounceEntry::fresh(hops, now)));
                    assert forall|j: int| 0 <= j < self.entries.values().len() implies (
                    #[trigger] self.entries.values()[j]).wf() by {
                        if j < before.len() {
                            assert(self.entries.values()[j] == before[j]);
                        }
                    }
                }
                InsertResult::New
            },
        }
    }

    /// The entry of an announce after an access at `now`, if it is cached.
    pub fn get_at(&mut self, hash: &AnnounceHash, now: u64) -> (r: Option<AnnounceEntry>)
        requires
            old(self).wf(),
        ensures
            final(self).wf(),
            final(self).spec_config() == old(self).spec_config(),
            r is Some <==> old(self)@.contains_key(*hash),
            r is Some ==> r->Some_0 == old(self)@[*hash].touched(now) && final(self)@ == old(self)@.insert(*hash, r->Some_0),
            r is None ==> final(self)@ == old(self)@,
    {
        match self.entries.position(hash) {
            Some(i) => {
                let entry = *self.entries.value_at(i);
                assert(entry.wf());
                let touched = AnnounceEntry {
                    last_accessed: later_of(now, entry.last_accessed),
                    ..entry
                };
                self.entries.set_at(i, touched);
                Some(touched)
            },
            None => None,
        }
    }

    /// Takes in an announce seen just now; see [`AnnounceCache::insert_at`].
    pub fn insert(&mut self, hash: AnnounceHash, hops: u8) -> (r: InsertResult)
        requires
            old(self).wf(),
        ensures
            final(self).wf(),
            final(self).spec_config() == old(self).spec_config(),
            r == verdict(old(self)@, hash, hops),
            final(self)@.contains_key(hash),
            exists|now: u64| #[trigger]
                inserted(old(self)@, final(self)@, hash, hops, now, old(self).spec_config()),
    {
        let now = self.clock.now();
        self.insert_at(hash, hops, now)
    }

    /// The entry of an announce after an access just now; see
    /// [`AnnounceCache::get_at`].
    pub fn get(&mut self, hash: &AnnounceHash) -> (r: Option<AnnounceEntry>)
        requires
            old(self).wf(),
        ensures
            final(self).wf(),
            final(self).spec_config() == old(self).spec_config(),
            r is Some <==> old(self)@.contains_key(*hash),
            r is Some ==> final(self)@ == old(self)@.insert(*hash, r->Some_0) && exists|now: u64|
                r->Some_0 == #[trigger] old(self)@[*hash].touched(now),
            r is None ==> final(self)@ == old(self)@,
    {
        let now = self.clock.now();
        self.get_at(hash, now)
    }

    /// Removes the entries that are older than the time to live just now;
    /// see [`AnnounceCache::cleanup_expired_at`].
    pub fn cleanup_expired(&mut self) -> (removed: usize)
        requires
            old(self).wf(),
        ensures
            final(self).wf(),
            final(self).spec_config() == old(self).spec_config(),
            removed == old(self)@.dom().len() - final(self)@.dom().len(),
            exists|now: u64|
                final(self)@ == #[trigger] unexpired(
                    old(self)@,
                    now,
                    old(self).spec_config().ttl,
                ),
    {
        let now = self.clock.now();
        self.cleanup_expired_at(now)
    }
}

impl Default for AnnounceCache {
    /// An empty cache with the default configuration.
    fn default() -> (c: Self)
        ensures
            c.wf(),
            c@ == Map::<AnnounceHash, AnnounceEntry>::empty(),
    {
        AnnounceCache {
            config: AnnounceCacheConfig::default(),
            entries: AddrMap::new(),
            clock: MonotonicClock::new(),
        }
    }
}

} // verus!
