use dash_cache::bucket::Bucket;
use dash_cache::eviction_policy::EvictionPolicy;
use dash_cache::item::Item;

#[test]
fn fifo_evicts_first_inserted() {
    let mut bucket = Bucket::new(2, EvictionPolicy::Fifo);
    bucket.put(Item::new(1, 10));
    bucket.put(Item::new(2, 20));

    let (_, evicted) = bucket.put(Item::new(3, 30));

    assert_eq!(evicted.unwrap().key, 1);
    assert!(bucket.get_position(&1).is_none());
    assert!(bucket.get_position(&2).is_some());
    assert!(bucket.get_position(&3).is_some());
}

#[test]
fn lifo_evicts_last_inserted() {
    let mut bucket = Bucket::new(2, EvictionPolicy::Lifo);
    bucket.put(Item::new(1, 10));
    bucket.put(Item::new(2, 20));

    let (_, evicted) = bucket.put(Item::new(3, 30));

    assert_eq!(evicted.unwrap().key, 2);
    assert!(bucket.get_position(&1).is_some());
    assert!(bucket.get_position(&2).is_none());
    assert!(bucket.get_position(&3).is_some());
}

#[test]
fn lfu_evicts_least_frequently_used() {
    let mut bucket = Bucket::new(2, EvictionPolicy::Lfu);
    bucket.put(Item::new(1, 10));
    bucket.put(Item::new(2, 20));

    // touch key 1 three times, key 2 never
    bucket.get_and_update_item(&1);
    bucket.get_and_update_item(&1);
    let touched = bucket.get_and_update_item(&1).unwrap();
    assert_eq!(touched.lfu_counter, 3);

    let (_, evicted) = bucket.put(Item::new(3, 30));

    assert_eq!(evicted.unwrap().key, 2);
    assert!(bucket.get_position(&1).is_some());
}

#[test]
fn classic_lru_evicts_least_recently_used() {
    let mut bucket = Bucket::new(2, EvictionPolicy::ClassicLRU);
    bucket.put(Item::new(1, 10));
    bucket.put(Item::new(2, 20));

    // make key 1 the least recently used
    bucket.get_and_update_item(&1);
    bucket.get_and_update_item(&2);

    let (_, evicted) = bucket.put(Item::new(3, 30));

    assert_eq!(evicted.unwrap().key, 1);
    assert!(bucket.get_position(&2).is_some());
    assert!(bucket.get_position(&3).is_some());
}

#[test]
fn classic_lru_touch_moves_entry_to_tail() {
    let mut bucket = Bucket::new(3, EvictionPolicy::ClassicLRU);
    bucket.put(Item::new(1, 10));
    bucket.put(Item::new(2, 20));
    bucket.put(Item::new(3, 30));

    bucket.get_and_update_item(&1);

    assert_eq!(bucket.get_position(&1), Some(2));
    assert_eq!(bucket.get_position(&2), Some(0));
    assert_eq!(bucket.get_position(&3), Some(1));
}

#[test]
fn timestamp_lru_evicts_oldest_touch() {
    let mut bucket = Bucket::new(2, EvictionPolicy::TimestampLRU);
    bucket.put(Item::new(1, 10));
    bucket.put(Item::new(2, 20));

    // restamp key 1, leaving key 2 the oldest
    bucket.get_and_update_item(&1);

    let (_, evicted) = bucket.put(Item::new(3, 30));

    assert_eq!(evicted.unwrap().key, 2);
    assert_eq!(bucket.get_position(&1), Some(0));
}

#[test]
fn timestamp_lru_keeps_positions_on_touch() {
    let mut bucket = Bucket::new(3, EvictionPolicy::TimestampLRU);
    bucket.put(Item::new(1, 10));
    bucket.put(Item::new(2, 20));
    bucket.put(Item::new(3, 30));

    bucket.get_and_update_item(&1);

    assert_eq!(bucket.get_position(&1), Some(0));
    assert_eq!(bucket.get_position(&2), Some(1));
    assert_eq!(bucket.get_position(&3), Some(2));
}

#[test]
fn capacity_is_never_exceeded() {
    let mut bucket = Bucket::new(3, EvictionPolicy::Fifo);
    let mut key: i64 = 0;
    while key < 10 {
        bucket.put(Item::new(key, key));
        assert!(bucket.size() <= 3);
        key += 1;
    }
    assert_eq!(bucket.size(), 3);
    assert!(bucket.is_full());
}

#[test]
fn duplicate_put_touches_instead_of_duplicating() {
    let mut bucket = Bucket::new(4, EvictionPolicy::Lfu);
    bucket.put(Item::new(1, 10));
    let (resident, evicted) = bucket.put(Item::new(1, 99));

    assert!(evicted.is_none());
    assert_eq!(bucket.size(), 1);
    assert_eq!(resident.value, 10);
    assert_eq!(resident.lfu_counter, 1);
}

#[test]
fn evict_on_empty_bucket_is_noop() {
    let mut bucket = Bucket::new(2, EvictionPolicy::Lfu);
    assert!(bucket.evict_item().is_none());
    assert_eq!(bucket.size(), 0);
}

#[test]
fn remove_deletes_only_the_given_key() {
    let mut bucket = Bucket::new(3, EvictionPolicy::Fifo);
    bucket.put(Item::new(1, 10));
    bucket.put(Item::new(2, 20));

    bucket.remove(&1);
    assert!(bucket.get_position(&1).is_none());
    assert!(bucket.get_position(&2).is_some());

    // removing an absent key changes nothing
    bucket.remove(&1);
    assert_eq!(bucket.size(), 1);
}

#[test]
fn lfu_tie_breaks_on_first_occurrence() {
    let mut bucket = Bucket::new(3, EvictionPolicy::Lfu);
    bucket.put(Item::new(1, 10));
    bucket.put(Item::new(2, 20));
    bucket.put(Item::new(3, 30));

    // all counters are zero: the first in iteration order leaves
    let evicted = bucket.evict_item().unwrap();
    assert_eq!(evicted.key, 1);
}

#[test]
fn item_new_starts_untouched() {
    let item = Item::new(4, 44);
    assert_eq!(item.key, 4);
    assert_eq!(item.value, 44);
    assert_eq!(item.lfu_counter, 0);
}

#[test]
fn item_identity_ignores_bookkeeping() {
    let mut bucket = Bucket::new(2, EvictionPolicy::Lfu);
    bucket.put(Item::new(1, 10));
    let (resident, _) = bucket.put(Item::new(1, 10));

    // the duplicate put bumped the hit counter, yet identity is key and value
    assert_eq!(resident.lfu_counter, 1);
    assert_eq!(resident, Item::new(1, 10));
    assert!(Item::new(1, 10) != Item::new(1, 11));
    assert!(Item::new(1, 10) != Item::new(2, 10));
}
