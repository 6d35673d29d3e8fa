use dash_cache::eviction_policy::EvictionPolicy;
use dash_cache::utils::{get_index, hash};

#[test]
fn test_get_index() {
    let hash = 123;
    let size = 10;
    let index = get_index(hash, size);
    // 123 % 10 = 3
    assert_eq!(index, 3);
}

#[test]
fn utils_test_get_index() {
    let hash = 123;
    let size = 10;
    let index = get_index(hash, size);
    // 123 % 10 = 3
    assert_eq!(index, 3);
}

#[test]
fn hash_is_deterministic() {
    let key: i64 = 123456789;
    assert_eq!(hash(&key), hash(&key));
    assert_eq!(hash(&-1), hash(&-1));
}

#[test]
fn get_index_stays_in_range() {
    let mut key: i64 = 0;
    while key < 50 {
        assert!(get_index(hash(&key), 7) < 7);
        key += 1;
    }
}

#[test]
fn policy_codes_decode() {
    assert!(matches!(EvictionPolicy::from_usize(0), Some(EvictionPolicy::ClassicLRU)));
    assert!(matches!(EvictionPolicy::from_usize(1), Some(EvictionPolicy::Lifo)));
    assert!(matches!(EvictionPolicy::from_usize(2), Some(EvictionPolicy::Lfu)));
    assert!(matches!(EvictionPolicy::from_usize(3), Some(EvictionPolicy::Fifo)));
    assert!(matches!(EvictionPolicy::from_usize(4), Some(EvictionPolicy::TimestampLRU)));
    assert!(EvictionPolicy::from_usize(5).is_none());
    assert!(EvictionPolicy::from_usize(100).is_none());
}
