use reticulum_node::announce::cache::AnnounceCache;
use reticulum_node::announce::cache::AnnounceCacheConfig;
use reticulum_node::announce::cache::AnnounceCacheError;
use reticulum_node::announce::cache::AnnounceEntry;
use reticulum_node::announce::cache::AnnounceHash;
use reticulum_node::announce::cache::InsertResult;

const SECOND: u64 = 1_000_000;

fn make_hash(id: u8) -> AnnounceHash {
    let mut hash = [0u8; 16];
    hash[0] = id;
    hash
}

#[test]
fn test_new_cache() {
    let config = AnnounceCacheConfig::default();
    let cache = AnnounceCache::new(config).unwrap();
    assert!(cache.is_empty());
    assert_eq!(cache.len(), 0);
}

#[test]
fn test_invalid_config_zero_entries() {
    let config = AnnounceCacheConfig { max_entries: 0, ttl: 60 * SECOND };
    let result = AnnounceCache::new(config);
    assert!(matches!(result, Err(AnnounceCacheError::InvalidConfig(_))));
    assert_eq!(config.validate(), Err(AnnounceCacheError::InvalidConfig("max_entries must be greater than 0")));
}

#[test]
fn test_invalid_config_zero_ttl() {
    let config = AnnounceCacheConfig { max_entries: 100, ttl: 0 };
    let result = AnnounceCache::new(config);
    assert!(matches!(result, Err(AnnounceCacheError::InvalidConfig(_))));
    assert_eq!(config.validate(), Err(AnnounceCacheError::InvalidConfig("ttl must be greater than 0")));
}

#[test]
fn test_insert_new() {
    let mut cache = AnnounceCache::new(AnnounceCacheConfig::default()).unwrap();
    let hash = make_hash(1);
    let result = cache.insert(hash, 3);
    assert_eq!(result, InsertResult::New);
    assert_eq!(cache.len(), 1);
    assert!(cache.contains(&hash));
}

#[test]
fn test_insert_duplicate() {
    let mut cache = AnnounceCache::new(AnnounceCacheConfig::default()).unwrap();
    let hash = make_hash(1);
    let _ = cache.insert(hash, 3);
    let result = cache.insert(hash, 3);
    assert_eq!(result, InsertResult::Duplicate);
    let result = cache.insert(hash, 5);
    assert_eq!(result, InsertResult::Duplicate);
}

#[test]
fn test_insert_better_path() {
    let mut cache = AnnounceCache::new(AnnounceCacheConfig::default()).unwrap();
    let hash = make_hash(1);
    let _ = cache.insert(hash, 5);
    let result = cache.insert(hash, 3);
    assert_eq!(result, InsertResult::BetterPath { old_hops: 5, new_hops: 3 });
    let entry = cache.peek(&hash).unwrap();
    assert_eq!(entry.hops, 3);
}

#[test]
fn test_announce_dedup_sequence() {
    let mut cache = AnnounceCache::new(AnnounceCacheConfig::default()).unwrap();
    let hash = [0u8; 16];
    assert_eq!(cache.insert(hash, 5), InsertResult::New);
    assert_eq!(cache.insert(hash, 5), InsertResult::Duplicate);
    assert_eq!(cache.peek(&hash).unwrap().seen_count, 2);
    assert_eq!(cache.insert(hash, 3), InsertResult::BetterPath { old_hops: 5, new_hops: 3 });
    assert_eq!(cache.peek(&hash).unwrap().hops, 3);
    assert_eq!(cache.insert(hash, 7), InsertResult::Duplicate);
    assert_eq!(cache.peek(&hash).unwrap().hops, 3);
}

#[test]
fn test_seen_count_increments() {
    let mut cache = AnnounceCache::new(AnnounceCacheConfig::default()).unwrap();
    let hash = make_hash(1);
    let _ = cache.insert(hash, 3);
    assert_eq!(cache.peek(&hash).unwrap().seen_count, 1);
    let _ = cache.insert(hash, 3);
    assert_eq!(cache.peek(&hash).unwrap().seen_count, 2);
    let _ = cache.insert(hash, 2);
    assert_eq!(cache.peek(&hash).unwrap().seen_count, 3);
}

#[test]
fn test_entry_after_inserts_exact() {
    let mut cache = AnnounceCache::new(AnnounceCacheConfig::default()).unwrap();
    let hash = make_hash(9);
    assert_eq!(cache.insert_at(hash, 4, 100), InsertResult::New);
    assert_eq!(*cache.peek(&hash).unwrap(), AnnounceEntry { first_seen: 100, last_accessed: 100, hops: 4, seen_count: 1 });
    assert_eq!(cache.insert_at(hash, 6, 250), InsertResult::Duplicate);
    assert_eq!(*cache.peek(&hash).unwrap(), AnnounceEntry { first_seen: 100, last_accessed: 250, hops: 4, seen_count: 2 });
    // a clock that reads earlier does not move the access time back
    assert_eq!(cache.insert_at(hash, 1, 200), InsertResult::BetterPath { old_hops: 4, new_hops: 1 });
    assert_eq!(*cache.peek(&hash).unwrap(), AnnounceEntry { first_seen: 100, last_accessed: 250, hops: 1, seen_count: 3 });
}

#[test]
fn test_get_updates_access_time() {
    let mut cache = AnnounceCache::new(AnnounceCacheConfig::default()).unwrap();
    let hash = make_hash(1);
    let _ = cache.insert_at(hash, 3, 1_000);
    let first_access = cache.peek(&hash).unwrap().last_accessed;
    let got = cache.get_at(&hash, 11_000).unwrap();
    let second_access = cache.peek(&hash).unwrap().last_accessed;
    assert!(second_access > first_access);
    assert_eq!(second_access, 11_000);
    assert_eq!(got.last_accessed, 11_000);
    assert_eq!(cache.get_at(&make_hash(2), 12_000), None);
    assert!(cache.get(&hash).is_some());
}

#[test]
fn test_peek_does_not_update_access_time() {
    let mut cache = AnnounceCache::new(AnnounceCacheConfig::default()).unwrap();
    let hash = make_hash(1);
    let _ = cache.insert_at(hash, 3, 1_000);
    let first_access = cache.peek(&hash).unwrap().last_accessed;
    cache.peek(&hash);
    let second_access = cache.peek(&hash).unwrap().last_accessed;
    assert_eq!(first_access, second_access);
}

#[test]
fn test_remove() {
    let mut cache = AnnounceCache::new(AnnounceCacheConfig::default()).unwrap();
    let hash = make_hash(1);
    let _ = cache.insert(hash, 3);
    assert!(cache.contains(&hash));
    let removed = cache.remove(&hash);
    assert!(removed.is_some());
    assert_eq!(removed.unwrap().hops, 3);
    assert!(!cache.contains(&hash));
    assert!(cache.is_empty());
    assert_eq!(cache.remove(&hash), None);
}

#[test]
fn test_clear() {
    let mut cache = AnnounceCache::new(AnnounceCacheConfig::default()).unwrap();
    for i in 0..5 {
        let _ = cache.insert(make_hash(i), 3);
    }
    assert_eq!(cache.len(), 5);
    cache.clear();
    assert!(cache.is_empty());
}

#[test]
fn test_lru_eviction() {
    let config = AnnounceCacheConfig { max_entries: 3, ttl: 3600 * SECOND };
    let mut cache = AnnounceCache::new(config).unwrap();
    let _ = cache.insert_at(make_hash(1), 3, 0);
    let _ = cache.insert_at(make_hash(2), 3, 5_000);
    let _ = cache.insert_at(make_hash(3), 3, 10_000);
    // an access makes the first entry the most recently used
    cache.get_at(&make_hash(1), 11_000);
    let _ = cache.insert_at(make_hash(4), 3, 12_000);
    assert_eq!(cache.len(), 3);
    assert!(cache.contains(&make_hash(1)));
    assert!(!cache.contains(&make_hash(2)));
    assert!(cache.contains(&make_hash(3)));
    assert!(cache.contains(&make_hash(4)));
}

#[test]
fn test_full_cache_drops_expired_before_lru() {
    let config = AnnounceCacheConfig { max_entries: 3, ttl: 100 };
    let mut cache = AnnounceCache::new(config).unwrap();
    let _ = cache.insert_at(make_hash(1), 3, 0);
    let _ = cache.insert_at(make_hash(2), 3, 10);
    let _ = cache.insert_at(make_hash(3), 3, 150);
    // 1 and 2 were accessed later than 3 but are older than the time to live
    cache.get_at(&make_hash(1), 160);
    cache.get_at(&make_hash(2), 160);
    assert_eq!(cache.insert_at(make_hash(4), 3, 170), InsertResult::New);
    assert_eq!(cache.len(), 2);
    assert!(!cache.contains(&make_hash(1)));
    assert!(!cache.contains(&make_hash(2)));
    assert!(cache.contains(&make_hash(3)));
    assert!(cache.contains(&make_hash(4)));
}

#[test]
fn test_known_announce_in_full_cache_evicts_nothing() {
    let config = AnnounceCacheConfig { max_entries: 2, ttl: 3600 * SECOND };
    let mut cache = AnnounceCache::new(config).unwrap();
    let _ = cache.insert_at(make_hash(1), 3, 0);
    let _ = cache.insert_at(make_hash(2), 3, 10);
    assert_eq!(cache.insert_at(make_hash(1), 2, 20), InsertResult::BetterPath { old_hops: 3, new_hops: 2 });
    assert_eq!(cache.len(), 2);
    assert!(cache.contains(&make_hash(1)));
    assert!(cache.contains(&make_hash(2)));
}

#[test]
fn test_len_never_exceeds_max_entries() {
    let config = AnnounceCacheConfig { max_entries: 4, ttl: 50 };
    let mut cache = AnnounceCache::new(config).unwrap();
    for i in 0..40u8 {
        let _ = cache.insert_at(make_hash(i), i, (i as u64) * 7);
        assert!(cache.len() <= 4);
        if i % 3 == 0 {
            cache.get_at(&make_hash(i / 2), (i as u64) * 7 + 1);
        }
        if i % 5 == 0 {
            cache.cleanup_expired_at((i as u64) * 7 + 2);
        }
        assert!(cache.len() <= 4);
    }
}

#[test]
fn test_cleanup_expired_is_idempotent() {
    let config = AnnounceCacheConfig { max_entries: 10, ttl: 100 };
    let mut cache = AnnounceCache::new(config).unwrap();
    let _ = cache.insert_at(make_hash(1), 3, 0);
    let _ = cache.insert_at(make_hash(2), 3, 50);
    let _ = cache.insert_at(make_hash(3), 3, 120);
    // at 150 the first entry is exactly at the time to live and stays
    assert_eq!(cache.cleanup_expired_at(100), 0);
    assert_eq!(cache.cleanup_expired_at(151), 2);
    assert_eq!(cache.len(), 1);
    assert!(cache.contains(&make_hash(3)));
    assert_eq!(cache.cleanup_expired_at(151), 0);
    assert_eq!(cache.len(), 1);
    assert_eq!(cache.cleanup_expired(), 0);
}

#[test]
fn test_evict_lru_and_make_room() {
    let config = AnnounceCacheConfig { max_entries: 10, ttl: 100 };
    let mut cache = AnnounceCache::new(config).unwrap();
    cache.evict_lru();
    assert!(cache.is_empty());
    let _ = cache.insert_at(make_hash(1), 3, 30);
    let _ = cache.insert_at(make_hash(2), 3, 20);
    let _ = cache.insert_at(make_hash(3), 3, 40);
    cache.evict_lru();
    assert!(!cache.contains(&make_hash(2)));
    cache.evict_expired_or_lru(50);
    assert!(!cache.contains(&make_hash(1)));
    assert!(cache.contains(&make_hash(3)));
}

#[test]
fn test_multiple_entries() {
    let mut cache = AnnounceCache::new(AnnounceCacheConfig::default()).unwrap();
    for i in 0..10 {
        let result = cache.insert(make_hash(i), i);
        assert_eq!(result, InsertResult::New);
    }
    assert_eq!(cache.len(), 10);
    for i in 0..10 {
        assert!(cache.contains(&make_hash(i)));
        assert_eq!(cache.peek(&make_hash(i)).unwrap().hops, i);
    }
}

#[test]
fn test_config_accessors() {
    let config = AnnounceCacheConfig { max_entries: 500, ttl: 7200 * SECOND };
    let cache = AnnounceCache::new(config).unwrap();
    assert_eq!(cache.config().max_entries, 500);
    assert_eq!(cache.config().ttl, 7200 * SECOND);
}

#[test]
fn test_announce_default_config() {
    let config = AnnounceCacheConfig::default();
    assert_eq!(config.max_entries, 256);
    assert_eq!(config.ttl, 3600 * SECOND);
    assert!(AnnounceCache::default().is_empty());
}

#[test]
fn test_seen_count_saturates() {
    let entry = AnnounceEntry::new(3, 7);
    assert_eq!(entry, AnnounceEntry { first_seen: 7, last_accessed: 7, hops: 3, seen_count: 1 });
}
