use lettering_core::cache::{
    CacheConfig, CacheEntry, CacheManager, EvictionStrategy, LruCache, PerformanceConfig,
};

fn entry(value: &str, created: u64, ttl: u64) -> CacheEntry {
    CacheEntry {
        value: value.to_string(),
        created_at_ms: created,
        last_accessed_ms: created,
        access_count: 1,
        ttl_seconds: ttl,
    }
}

#[test]
fn test_cache_hit_miss() {
    let mut cache = CacheManager::new(CacheConfig::default());

    // First request misses, so the value is computed and stored.
    let first = match cache.get_from_l1("test_key", 0) {
        Some(v) => v,
        None => {
            let computed = "test_value".to_string();
            cache.set_in_l1("test_key", computed.clone(), 0);
            cache.record_miss();
            computed
        }
    };
    assert_eq!(first, "test_value");

    // Second request is served from the cache.
    let second = match cache.get_from_l1("test_key", 10) {
        Some(v) => {
            cache.record_hit();
            v
        }
        None => {
            let computed = "different_value".to_string();
            cache.set_in_l1("test_key", computed.clone(), 10);
            cache.record_miss();
            computed
        }
    };
    assert_eq!(second, "test_value");

    let stats = cache.stats();
    assert_eq!(stats.l1_hits, 1);
    assert_eq!(stats.l1_misses, 1);
}

#[test]
fn test_cache_expiration() {
    let mut config = CacheConfig::default();
    config.l1_ttl_seconds = 1;
    let mut cache = CacheManager::new(config);

    cache.set_in_l1("expire_key", "expire_value".to_string(), 0);
    // Two seconds later the entry has expired.
    let result = match cache.get_from_l1("expire_key", 2000) {
        Some(v) => v,
        None => {
            cache.set_in_l1("expire_key", "new_value".to_string(), 2000);
            "new_value".to_string()
        }
    };
    assert_eq!(result, "new_value");
    assert_eq!(cache.stats().evictions, 1);
}

#[test]
fn value_is_served_until_its_ttl_runs_out() {
    let mut cache = CacheManager::new(CacheConfig::default());
    cache.set_in_l1("k", "v".to_string(), 1_000);
    assert_eq!(cache.get_from_l1("k", 1_000 + 300_000), Some("v".to_string()));
    assert_eq!(cache.get_from_l1("k", 1_000 + 300_001), None);
    assert_eq!(cache.len(), 0);
}

#[test]
fn default_configuration() {
    let config = CacheConfig::default();
    assert_eq!(config.l1_max_entries, 10000);
    assert_eq!(config.l1_ttl_seconds, 300);
    assert_eq!(config.eviction_strategy, EvictionStrategy::LeastRecentlyUsed);
    let perf = PerformanceConfig::default();
    assert_eq!(perf.metrics_collection_interval_ms, 60000);
    assert!(perf.optimization_enabled);
    assert_eq!(perf.cache_config.l1_max_entries, 10000);
}

#[test]
fn least_recently_used_entry_is_evicted_first() {
    let mut config = CacheConfig::default();
    config.l1_max_entries = 2;
    let mut cache = CacheManager::new(config);
    cache.set_in_l1("a", "1".to_string(), 0);
    cache.set_in_l1("b", "2".to_string(), 0);
    // Reading "a" makes "b" the least recently used.
    assert_eq!(cache.get_from_l1("a", 1), Some("1".to_string()));
    cache.set_in_l1("c", "3".to_string(), 2);
    assert_eq!(cache.len(), 2);
    assert_eq!(cache.get_from_l1("b", 3), None);
    assert_eq!(cache.get_from_l1("a", 3), Some("1".to_string()));
    assert_eq!(cache.get_from_l1("c", 3), Some("3".to_string()));
    assert_eq!(cache.stats().total_size, 2);
}

#[test]
fn zero_capacity_keeps_one_entry() {
    let mut config = CacheConfig::default();
    config.l1_max_entries = 0;
    let mut cache = CacheManager::new(config);
    cache.set_in_l1("a", "1".to_string(), 0);
    cache.set_in_l1("b", "2".to_string(), 0);
    assert_eq!(cache.len(), 1);
    assert_eq!(cache.get_from_l1("b", 0), Some("2".to_string()));
}

#[test]
fn invalidate_removes_matching_keys_only() {
    let mut cache = CacheManager::new(CacheConfig::default());
    cache.set_in_l1("lettering:1", "a".to_string(), 0);
    cache.set_in_l1("lettering:2", "b".to_string(), 0);
    cache.set_in_l1("city:1", "c".to_string(), 0);
    cache.invalidate_pattern("lettering");
    assert_eq!(cache.len(), 1);
    assert_eq!(cache.stats().total_size, 1);
    assert_eq!(cache.get_from_l1("lettering:1", 0), None);
    assert_eq!(cache.get_from_l1("city:1", 0), Some("c".to_string()));
}

#[test]
fn storing_a_key_again_replaces_its_value() {
    let mut cache = CacheManager::new(CacheConfig::default());
    cache.set_in_l1("k", "old".to_string(), 0);
    cache.set_in_l1("k", "new".to_string(), 5);
    assert_eq!(cache.len(), 1);
    assert_eq!(cache.get_from_l1("k", 6), Some("new".to_string()));
}

#[test]
fn lru_store_operations() {
    let mut store = LruCache::new(3);
    store.insert("x".to_string(), entry("1", 0, 60));
    assert!(store.touch("x"));
    assert!(!store.touch("y"));
    let e = store.get("x").unwrap();
    assert_eq!(e.value, "1");
    assert_eq!(e.access_count, 1);
    assert!(store.remove("x").is_some());
    assert!(store.remove("x").is_none());
    assert_eq!(store.len(), 0);
}

#[test]
fn computed_values_are_stored_and_the_miss_counted() {
    let mut cache = CacheManager::new(CacheConfig::default());
    cache.store_computed("k", Some("v".to_string()), 0);
    let s = cache.stats();
    assert_eq!((s.l1_misses, s.l1_hits, s.total_size), (1, 0, 1));
    assert_eq!(cache.get_from_l1("k", 5), Some("v".to_string()));
    cache.store_computed("other", None, 5);
    let s = cache.stats();
    assert_eq!((s.l1_misses, s.total_size), (2, 1));
    assert_eq!(cache.get_from_l1("other", 5), None);
}
