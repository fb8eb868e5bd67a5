use api_server::cache::{
    cache_control_header, clear, dispute_evidence_key, get, get_at, init_cache,
    invalidate, invalidate_on_contract_event, invalidate_pattern, invalidate_prefix, ip_cache_control_header,
    ip_key, ip_list_key, key_exists, key_exists_at, no_cache_header, reputation_cache_control_header,
    reputation_key, set_with_ttl, set_with_ttl_at, stats, swap_key, swap_list_buyer_key,
    swap_list_seller_key, ttl_remaining, ttl_remaining_at, CacheConfig, CacheStore,
};

fn dummy(val: u64) -> Option<String> {
    Some(format!("{{\"val\":{}}}", val))
}

#[test]
fn test_set_and_get_returns_value() {
    let mut store = CacheStore::new();
    let key = "test:cache:1";
    api_server::cache::set(&mut store, key, dummy(42));
    let result = get(&mut store, key);
    assert_eq!(result, dummy(42));
}

#[test]
fn test_get_miss_returns_none() {
    let mut store = CacheStore::new();
    let result = get(&mut store, "test:cache:nonexistent");
    assert!(result.is_none());
}

#[test]
fn test_invalidate_removes_entry() {
    let mut store = CacheStore::new();
    let key = "test:cache:2";
    api_server::cache::set(&mut store, key, dummy(7));
    invalidate(&mut store, key);
    let result = get(&mut store, key);
    assert!(result.is_none());
}

#[test]
fn test_invalidate_prefix_removes_matching_keys() {
    let mut store = CacheStore::new();
    api_server::cache::set(&mut store, "test:prefix:a", dummy(1));
    api_server::cache::set(&mut store, "test:prefix:b", dummy(2));
    api_server::cache::set(&mut store, "test:other:c", dummy(3));
    invalidate_prefix(&mut store, "test:prefix:");
    assert!(get(&mut store, "test:prefix:a").is_none());
    assert!(get(&mut store, "test:prefix:b").is_none());
    assert!(get(&mut store, "test:other:c").is_some());
}

#[test]
fn test_set_with_custom_ttl() {
    let mut store = CacheStore::new();
    let key = "test:ttl:1";
    set_with_ttl(&mut store, key, dummy(99), 60);
    let result = get(&mut store, key);
    assert_eq!(result, dummy(99));
}

#[test]
fn test_exists_returns_true_for_valid_entry() {
    let mut store = CacheStore::new();
    let key = "test:exists:1";
    api_server::cache::set(&mut store, key, dummy(1));
    assert!(key_exists(&store, key));
}

#[test]
fn test_exists_returns_false_for_nonexistent() {
    let store = CacheStore::new();
    assert!(!key_exists(&store, "test:exists:nonexistent"));
}

#[test]
fn test_stats_returns_entry_count() {
    let mut store = CacheStore::new();
    clear(&mut store);
    api_server::cache::set(&mut store, "stats:1", dummy(1));
    api_server::cache::set(&mut store, "stats:2", dummy(2));
    let stats = stats(&store);
    assert_eq!(stats.total_entries, 2);
}

#[test]
fn test_reputation_key_format() {
    let key = reputation_key("GABC123");
    assert_eq!(key, "reputation:GABC123");
}

#[test]
fn test_dispute_evidence_key_format() {
    let key = dispute_evidence_key(42);
    assert_eq!(key, "evidence:42");
}

#[test]
fn test_invalidate_on_contract_event_swap_completed() {
    let mut store = CacheStore::new();
    clear(&mut store);
    api_server::cache::set(&mut store, "swap:1", dummy(1));
    api_server::cache::set(&mut store, "swap:seller:abc:10:0", dummy(2));
    api_server::cache::set(&mut store, "reputation:abc", dummy(3));

    invalidate_on_contract_event(&mut store, "swap_completed", 1);

    assert!(!key_exists(&store, "swap:1"));
    assert!(!key_exists(&store, "swap:seller:abc:10:0"));
    assert!(!key_exists(&store, "reputation:abc"));
}

#[test]
fn test_invalidate_on_contract_event_ip_transferred() {
    let mut store = CacheStore::new();
    clear(&mut store);
    api_server::cache::set(&mut store, "ip:1", dummy(1));
    api_server::cache::set(&mut store, "ip:list:owner:10:0", dummy(2));

    invalidate_on_contract_event(&mut store, "ip_transferred", 1);

    assert!(!key_exists(&store, "ip:1"));
    assert!(!key_exists(&store, "ip:list:owner:10:0"));
}

// ── Further cases ────────────────────────────────────────────────────────────

#[test]
fn key_formats() {
    assert_eq!(ip_key(0), "ip:0");
    assert_eq!(ip_key(u64::MAX), "ip:18446744073709551615");
    assert_eq!(swap_key(7), "swap:7");
    assert_eq!(ip_list_key("GOWNER", 10, "abc"), "ip:list:GOWNER:10:abc");
    assert_eq!(swap_list_seller_key("S", 5, ""), "swap:seller:S:5:");
    assert_eq!(swap_list_buyer_key("B", 20, "c1"), "swap:buyer:B:20:c1");
}

#[test]
fn header_values() {
    assert_eq!(cache_control_header(), "public, max-age=30, stale-while-revalidate=10");
    assert_eq!(no_cache_header(), "no-store");
    assert_eq!(ip_cache_control_header(), "public, max-age=60, stale-while-revalidate=30");
    assert_eq!(reputation_cache_control_header(), "public, max-age=300, stale-while-revalidate=60");
}

#[test]
fn config_defaults_and_init() {
    let config = CacheConfig::default();
    assert_eq!(config.default_ttl, 30);
    assert_eq!(config.ip_ttl, 60);
    assert_eq!(config.swap_ttl, 30);
    assert_eq!(config.reputation_ttl, 300);
    let mut store = CacheStore::new();
    init_cache(&mut store, config);
    api_server::cache::set(&mut store, "k", Some("1".to_string()));
    let left = ttl_remaining(&mut store, "k").unwrap();
    assert!(left <= 30);
}

#[test]
fn init_cache_sets_the_default_ttl() {
    let mut store = CacheStore::new();
    api_server::cache::set(&mut store, "before", Some("1".to_string()));
    init_cache(
        &mut store,
        CacheConfig { default_ttl: 5, ip_ttl: 60, swap_ttl: 30, reputation_ttl: 300 },
    );
    // The configuration applies to later writes; what is stored stays.
    assert_eq!(get(&mut store, "before"), Some("1".to_string()));
    assert!(ttl_remaining(&mut store, "before").unwrap() > 5);
    api_server::cache::set(&mut store, "after", Some("2".to_string()));
    assert!(ttl_remaining(&mut store, "after").unwrap() <= 5);
    let mut configured = CacheStore::with_config(CacheConfig {
        default_ttl: 1,
        ip_ttl: 60,
        swap_ttl: 30,
        reputation_ttl: 300,
    });
    api_server::cache::set(&mut configured, "k", Some("3".to_string()));
    assert!(ttl_remaining(&mut configured, "k").unwrap() <= 1);
}

#[test]
fn expiry_on_the_store_clock() {
    let mut store = CacheStore::new();
    set_with_ttl_at(&mut store, "k", "\"v\"".to_string(), 2, 1000);
    assert!(key_exists_at(&store, "k", 3000));
    assert_eq!(ttl_remaining_at(&mut store, "k", 1000), Some(2));
    assert_eq!(ttl_remaining_at(&mut store, "k", 1999), Some(1));
    assert_eq!(ttl_remaining_at(&mut store, "k", 2001), Some(0));
    assert_eq!(get_at(&mut store, "k", 3000), Some("\"v\"".to_string()));
    assert!(!key_exists_at(&store, "k", 3001));
    assert_eq!(stats(&store).total_entries, 1);
    // An expired read removes the entry.
    assert_eq!(get_at(&mut store, "k", 3001), None);
    assert_eq!(stats(&store).total_entries, 0);
    // A TTL past the end of the clock saturates.
    set_with_ttl_at(&mut store, "forever", "1".to_string(), u64::MAX, 5);
    assert!(key_exists_at(&store, "forever", u64::MAX));
}

#[test]
fn ttl_remaining_now() {
    let mut store = CacheStore::new();
    set_with_ttl(&mut store, "t", dummy(1), 60);
    let left = ttl_remaining(&mut store, "t").unwrap();
    assert!(left == 59 || left == 60);
    assert_eq!(ttl_remaining(&mut store, "missing"), None);
}

#[test]
fn unserializable_value_is_not_written() {
    let mut store = CacheStore::new();
    api_server::cache::set(&mut store, "x", None);
    assert_eq!(stats(&store).total_entries, 0);
}

#[test]
fn pattern_invalidation() {
    let mut store = CacheStore::new();
    api_server::cache::set(&mut store, "swap:seller:a:1:0", dummy(1));
    api_server::cache::set(&mut store, "swap:buyer:b:1:0", dummy(2));
    api_server::cache::set(&mut store, "ip:1", dummy(3));
    // `*` stands for `.*`, matched anywhere in the key.
    invalidate_pattern(&mut store, "seller:*:1");
    assert!(!key_exists(&store, "swap:seller:a:1:0"));
    assert!(key_exists(&store, "swap:buyer:b:1:0"));
    // Without `*` the pattern is a prefix.
    invalidate_pattern(&mut store, "ip:");
    assert!(!key_exists(&store, "ip:1"));
    // A pattern that does not compile removes nothing.
    invalidate_pattern(&mut store, "(*");
    assert!(key_exists(&store, "swap:buyer:b:1:0"));
}

#[test]
fn contract_event_invalidation_scope() {
    let mut store = CacheStore::new();
    for key in ["ip:3", "ip:4", "ip:list:o:1:0", "swap:3", "swap:seller:s:1:0", "swap:ip:3", "evidence:3", "reputation:x"] {
        api_server::cache::set(&mut store, key, dummy(1));
    }
    invalidate_on_contract_event(&mut store, "ip_committed", 3);
    assert!(!key_exists(&store, "ip:3"));
    assert!(key_exists(&store, "ip:4"));
    assert!(key_exists(&store, "ip:list:o:1:0"));
    invalidate_on_contract_event(&mut store, "dispute_raised", 3);
    assert!(!key_exists(&store, "swap:3"));
    assert!(!key_exists(&store, "evidence:3"));
    assert!(key_exists(&store, "reputation:x"));
    invalidate_on_contract_event(&mut store, "swap_initiated", 9);
    assert!(!key_exists(&store, "swap:ip:3"));
    assert!(!key_exists(&store, "swap:seller:s:1:0"));
    invalidate_on_contract_event(&mut store, "something_else", 0);
    assert!(!key_exists(&store, "ip:4"));
    assert!(!key_exists(&store, "ip:list:o:1:0"));
    assert!(key_exists(&store, "reputation:x"));
}
