use cc_proxy::affinity::CacheAffinityManager;
use cc_proxy::hash_string;

const KEY: &str = "user123:anthropic:model-sonnet-4";

#[test]
fn test_cache_affinity_basic() {
    let mut manager = CacheAffinityManager::new(300);
    let key = KEY;

    assert!(manager.get(key).is_none());

    manager.set(key, "provider1");

    assert_eq!(manager.get(key), Some("provider1".to_string()));
    assert_eq!(manager.get(key), Some("provider1".to_string()));

    assert_eq!(manager.hit_count(key), Some(3));
}

#[test]
fn test_cache_affinity_expiry() {
    let mut manager = CacheAffinityManager::new(1);
    let key = KEY;
    let t0: u64 = 1_700_000_000_000;

    manager.set_at(key, "provider1", t0);
    assert!(manager.get_at(key, t0).is_some());

    // two seconds later
    assert!(manager.get_at(key, t0 + 2_000).is_none());
}

#[test]
fn test_cache_affinity_invalidate() {
    let mut manager = CacheAffinityManager::new(300);
    let key = KEY;

    manager.set(key, "provider1");
    assert!(manager.get(key).is_some());

    manager.invalidate(key);
    assert!(manager.get(key).is_none());
}

#[test]
fn test_hash_string() {
    let hash1 = hash_string("sk-ant-api-key-123");
    let hash2 = hash_string("sk-ant-api-key-456");

    assert_ne!(hash1, hash2);
    assert_eq!(hash1.len(), 16);
}

#[test]
fn hash_string_is_sha256_prefix_in_hex() {
    // SHA-256("abc") = ba7816bf8f01cfea414140de5dae2223b00361a396177a9cb410ff61f20015ad
    assert_eq!(hash_string("abc"), "ba7816bf8f01cfea");
    assert_eq!(hash_string(""), "e3b0c44298fc1c14");
}

#[test]
fn hash_string_is_stable() {
    assert_eq!(hash_string("same-key"), hash_string("same-key"));
}

#[test]
fn get_of_never_set_key_is_absent() {
    let mut manager = CacheAffinityManager::new(300);
    manager.set_at("a", "alpha", 0);
    assert_eq!(manager.get_at("b", 10), None);
    assert!(!manager.contains_key("b"));
    assert_eq!(manager.len(), 1);
}

#[test]
fn get_at_expiry_boundary_is_expired() {
    let mut manager = CacheAffinityManager::new(5);
    manager.set_at("k", "p", 1_000);
    assert_eq!(manager.get_at("k", 5_999), Some("p".to_string()));
    assert_eq!(manager.get_at("k", 6_000), None);
    // the expired record was dropped on read
    assert!(!manager.contains_key("k"));
}

#[test]
fn set_refreshes_window_and_counter() {
    let mut manager = CacheAffinityManager::new(10);
    manager.set_at("k", "alpha", 0);
    assert_eq!(manager.get_at("k", 1), Some("alpha".to_string()));
    assert_eq!(manager.hit_count("k"), Some(2));
    manager.set_at("k", "beta", 9_000);
    assert_eq!(manager.hit_count("k"), Some(1));
    assert_eq!(manager.get_at("k", 18_999), Some("beta".to_string()));
    assert_eq!(manager.len(), 1);
}

#[test]
fn invalidate_removes_regardless_of_ttl() {
    let mut manager = CacheAffinityManager::new(3_600);
    manager.set_at("k", "p", 0);
    manager.invalidate("k");
    assert_eq!(manager.get_at("k", 1), None);
    // invalidating a missing key is harmless
    manager.invalidate("k");
    assert_eq!(manager.len(), 0);
}

#[test]
fn sweep_removes_all_and_only_expired() {
    let mut manager = CacheAffinityManager::new(10);
    manager.set_at("old", "alpha", 0); // expires at 10_000
    manager.set_at("edge", "beta", 5_000); // expires at 15_000
    manager.set_at("new", "gamma", 20_000); // expires at 30_000
    manager.sweep_at(15_000);
    assert!(!manager.contains_key("old"));
    assert!(!manager.contains_key("edge"));
    assert!(manager.contains_key("new"));
    assert_eq!(manager.len(), 1);
    assert_eq!(manager.get_at("new", 15_000), Some("gamma".to_string()));
}

#[test]
fn huge_ttl_saturates() {
    let mut manager = CacheAffinityManager::new(u64::MAX);
    manager.set_at("k", "p", 10);
    assert_eq!(manager.get_at("k", u64::MAX - 1), Some("p".to_string()));
    assert_eq!(manager.get_at("k", u64::MAX), None);
}

#[test]
fn generate_key_joins_with_colons() {
    assert_eq!(
        CacheAffinityManager::generate_key("u1", "codex", "gpt"),
        "u1:codex:gpt"
    );
    assert_eq!(CacheAffinityManager::new(7).default_ttl(), 7);
}
