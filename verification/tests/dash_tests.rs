use dash_cache::dash::Dash;
use dash_cache::eviction_policy::EvictionPolicy;
use dash_cache::settings::DashSettings;

fn tiny_settings(policy: EvictionPolicy) -> DashSettings {
    DashSettings {
        num_of_segments: 1,
        num_of_normal_buckets: 1,
        num_of_stash_buckets: 1,
        bucket_size: 1,
        eviction_policy: policy,
        debug_mode: 0,
    }
}

#[test]
fn get_without_put() {
    let mut dash: Dash = Dash::new(DashSettings::default());
    let key: i64 = 0;

    assert_eq!(dash.get_and_update_item(&key), None);
}

#[test]
fn get_after_different_value_put() {
    let mut dash: Dash = Dash::new(DashSettings::default());
    let key: i64 = 0;

    dash.put(key + 1, key + 1);

    assert_eq!(dash.get_and_update_item(&key), None);
}

#[test]
fn get_after_same_value_put() {
    let mut dash: Dash = Dash::new(DashSettings::default());
    let key: i64 = 0;

    dash.put(key, key);

    assert_eq!(dash.get_and_update_item(&key), Some(key));
}

#[test]
fn fifo_scenario_single_slot() {
    // bucket_size = 1 under Fifo: the second insert displaces the first.
    let mut dash: Dash = Dash::new(tiny_settings(EvictionPolicy::Fifo));

    dash.put(1, 1);
    dash.put(2, 2);

    assert_eq!(dash.get_and_update_item(&1), None);
    assert_eq!(dash.get_and_update_item(&2), Some(2));
}

#[test]
fn stash_promotion_relocates_key() {
    // A fresh key lands in its stash bucket; the first hit moves it to a
    // primary bucket, after which the stash bucket no longer holds it.
    let settings = DashSettings {
        num_of_segments: 1,
        num_of_normal_buckets: 2,
        num_of_stash_buckets: 1,
        bucket_size: 4,
        eviction_policy: EvictionPolicy::ClassicLRU,
        debug_mode: 0,
    };
    let mut dash: Dash = Dash::new(settings);
    let key: i64 = 7;

    dash.put(key, 70);
    assert!(dash.segments[0].stash_buckets[0].get_position(&key).is_some());

    assert_eq!(dash.get_and_update_item(&key), Some(70));

    assert!(dash.segments[0].stash_buckets[0].get_position(&key).is_none());
    let in_primary = dash.segments[0].buckets[0].get_position(&key).is_some()
        || dash.segments[0].buckets[1].get_position(&key).is_some();
    assert!(in_primary);

    // the key stays reachable after the promotion
    assert_eq!(dash.get_and_update_item(&key), Some(70));
}

#[test]
fn segment_isolation_under_eviction() {
    // Two keys routed to different segments: overflowing the first key's
    // stash bucket never touches the second key's segment.
    let settings = DashSettings {
        num_of_segments: 2,
        num_of_normal_buckets: 2,
        num_of_stash_buckets: 1,
        bucket_size: 1,
        eviction_policy: EvictionPolicy::Fifo,
        debug_mode: 0,
    };
    let mut dash: Dash = Dash::new(settings);

    let key_a: i64 = 0;
    let seg_a = dash_cache::utils::get_index(dash_cache::utils::hash(&key_a), 2);
    // find a key routed to the other segment
    let mut key_b: i64 = 1;
    while dash_cache::utils::get_index(dash_cache::utils::hash(&key_b), 2) == seg_a {
        key_b += 1;
    }

    dash.put(key_a, 100);
    dash.put(key_b, 200);

    // flood segment A's stash bucket so that key_a is dropped from it
    let mut extra: i64 = key_b + 1;
    let mut inserted: usize = 0;
    while inserted < 8 {
        if dash_cache::utils::get_index(dash_cache::utils::hash(&extra), 2) == seg_a
            && dash.get_and_update_item(&extra).is_none()
        {
            dash.put(extra, extra);
            inserted += 1;
        }
        extra += 1;
    }

    // key_b's segment was never involved
    assert_eq!(dash.get_and_update_item(&key_b), Some(200));
}

#[test]
fn promotion_swap_is_lossless() {
    // One stash bucket, one primary bucket, one slot each: every lookup of
    // the stash-resident key displaces the primary resident back into the
    // just-drained stash bucket — a swap in which no key is ever lost.
    let mut dash: Dash = Dash::new(tiny_settings(EvictionPolicy::Fifo));

    dash.put(1, 10);
    assert_eq!(dash.get_and_update_item(&1), Some(10)); // promotes 1
    dash.put(2, 20);
    assert_eq!(dash.get_and_update_item(&2), Some(20)); // promotes 2, swaps 1 back

    // both keys survived the swap and keep swapping places
    assert_eq!(dash.get_and_update_item(&1), Some(10));
    assert_eq!(dash.get_and_update_item(&2), Some(20));
}

#[test]
fn promotion_can_park_displaced_entry() {
    // With two stash buckets, the displaced primary entry returns to the
    // looked-up key's stash bucket. When the two keys route to different
    // stash buckets the entry stays stored there — no key is dropped — but
    // no later lookup consults that bucket for it.
    let settings = DashSettings {
        num_of_segments: 1,
        num_of_normal_buckets: 1,
        num_of_stash_buckets: 2,
        bucket_size: 1,
        eviction_policy: EvictionPolicy::Fifo,
        debug_mode: 0,
    };
    let mut dash: Dash = Dash::new(settings);

    let k1: i64 = 0;
    let s1 = dash_cache::utils::get_index(dash_cache::utils::hash(&k1), 2);
    let mut k2: i64 = 1;
    while dash_cache::utils::get_index(dash_cache::utils::hash(&k2), 2) == s1 {
        k2 += 1;
    }
    let s2 = dash_cache::utils::get_index(dash_cache::utils::hash(&k2), 2);

    dash.put(k1, 11);
    assert_eq!(dash.get_and_update_item(&k1), Some(11)); // promotes k1
    dash.put(k2, 22);
    assert_eq!(dash.get_and_update_item(&k2), Some(22)); // promotes k2, parks k1

    // k1 is out of lookup's reach ...
    assert_eq!(dash.get_and_update_item(&k1), None);
    // ... but was not dropped: it sits, stored, in k2's stash bucket
    assert!(dash.segments[0].stash_buckets[s2].get_position(&k1).is_some());
}
