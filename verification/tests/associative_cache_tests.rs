use dash_cache::associative_cache::AssociativeCache;
use dash_cache::eviction_policy::EvictionPolicy;
use dash_cache::settings::{AssociativeCacheSettings, ConfigError, DashSettings};

fn one_bucket(bucket_size: usize, policy: EvictionPolicy) -> AssociativeCacheSettings {
    AssociativeCacheSettings { num_of_buckets: 1, bucket_size, eviction_policy: policy }
}

#[test]
fn flat_round_trip() {
    let mut cache = AssociativeCache::new(AssociativeCacheSettings::default());
    cache.put(3, 33);
    assert_eq!(cache.get_and_update_item(&3), Some(33));
}

#[test]
fn flat_miss_on_empty() {
    let mut cache = AssociativeCache::new(AssociativeCacheSettings::default());
    assert_eq!(cache.get_and_update_item(&3), None);
}

#[test]
fn no_overwrite_on_duplicate_put() {
    let mut cache = AssociativeCache::new(AssociativeCacheSettings::default());
    cache.put(1, 1);
    cache.put(1, 2);
    assert_eq!(cache.get_and_update_item(&1), Some(1));
}

#[test]
fn flat_fifo_scenario_single_slot() {
    let mut cache = AssociativeCache::new(one_bucket(1, EvictionPolicy::Fifo));
    cache.put(1, 1);
    cache.put(2, 2);
    assert_eq!(cache.get_and_update_item(&1), None);
    assert_eq!(cache.get_and_update_item(&2), Some(2));
}

#[test]
fn flat_allocates_all_buckets() {
    let cache = AssociativeCache::new(AssociativeCacheSettings {
        num_of_buckets: 5,
        bucket_size: 2,
        eviction_policy: EvictionPolicy::Fifo,
    });
    assert_eq!(cache.buckets.len(), 5);
}

#[test]
fn flat_rejects_zero_buckets() {
    let settings = AssociativeCacheSettings {
        num_of_buckets: 0,
        bucket_size: 2,
        eviction_policy: EvictionPolicy::Fifo,
    };
    assert_eq!(settings.validate(), Err(ConfigError::ZeroRoutingUnits));
    assert!(AssociativeCache::try_new(settings).is_err());
}

#[test]
fn flat_rejects_zero_bucket_size() {
    let settings = AssociativeCacheSettings {
        num_of_buckets: 2,
        bucket_size: 0,
        eviction_policy: EvictionPolicy::Fifo,
    };
    assert_eq!(AssociativeCache::try_new(settings).err(), Some(ConfigError::ZeroBucketSize));
}

#[test]
fn dash_rejects_zero_sized_units() {
    let good = DashSettings::default();

    let mut s = good;
    s.num_of_segments = 0;
    assert_eq!(s.validate(), Err(ConfigError::ZeroRoutingUnits));

    let mut s = good;
    s.num_of_normal_buckets = 0;
    assert_eq!(s.validate(), Err(ConfigError::ZeroNormalBuckets));

    let mut s = good;
    s.num_of_stash_buckets = 0;
    assert_eq!(s.validate(), Err(ConfigError::ZeroStashBuckets));

    let mut s = good;
    s.bucket_size = 0;
    assert_eq!(s.validate(), Err(ConfigError::ZeroBucketSize));

    assert!(good.validate().is_ok());
    assert!(dash_cache::dash::Dash::try_new(good).is_ok());
}
