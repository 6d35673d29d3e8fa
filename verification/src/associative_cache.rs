use vstd::prelude::*;

use crate::associative_cache_bucket::AssociativeCacheBucket;
use crate::bucket::{
    evict_index, has_key, item_of, key_index, lemma_evict_index_in_range, lemma_key_index_props,
    lemma_push_keys, lemma_remove_keys, lemma_touch_keys, spec_put, stamped, touched_clock,
    touched_item, touched_items,
};
use crate::item::Item;
use crate::settings::{AssociativeCacheSettings, ConfigError};
use crate::utils::{get_index, hash, key_hash};

verus! {

/// The flat single-level cache: a fixed array of buckets addressed directly
/// by the key's hash. No stash, no promotion, no probing.
#[derive(Debug)]
pub struct AssociativeCache {
    pub buckets: Vec<AssociativeCacheBucket>,
}

impl AssociativeCache {
    /// The bucket `key` routes to.
    pub open spec fn bucket_index_of(&self, key: i64) -> int {
        key_hash(key) as int % self.buckets@.len() as int
    }

    /// The bucket holding `key`, if resident.
    pub open spec fn bucket_of(&self, key: i64) -> AssociativeCacheBucket {
        self.buckets@[self.bucket_index_of(key)]
    }

    /// Whether `key` is resident in the cache.
    pub open spec fn contains_key(&self, key: i64) -> bool {
        has_key(self.bucket_of(key)@, key)
    }

    /// The resident item of `key`, if any.
    pub open spec fn lookup(&self, key: i64) -> Option<Item> {
        if self.contains_key(key) {
            Some(item_of(self.bucket_of(key)@, key))
        } else {
            None
        }
    }

    /// The value stored under `key`, if any.
    pub open spec fn value_of(&self, key: i64) -> Option<i64> {
        match self.lookup(key) {
            Some(it) => Some(it.value),
            None => None,
        }
    }

    /// The key a `put` of `key` drops, if any: the routed bucket's eviction
    /// choice, when the key is fresh and the bucket full.
    pub open spec fn put_dropped(&self, key: i64) -> Option<i64> {
        let b = self.bucket_of(key);
        if !has_key(b@, key) && b@.len() >= b.capacity() {
            Some(b@[evict_index(b@, b.policy())].key)
        } else {
            None
        }
    }

    /// Well-formedness: at least one bucket, every bucket well formed, and
    /// every resident key lives in the bucket it routes to.
    pub open spec fn wf(&self) -> bool {
        &&& self.buckets@.len() >= 1
        &&& forall|i: int| 0 <= i < self.buckets@.len() ==> (#[trigger] self.buckets@[i]).wf()
        &&& forall|i: int, k: i64|
            0 <= i < self.buckets@.len() && #[trigger] has_key(self.buckets@[i]@, k)
                ==> self.bucket_index_of(k) == i
    }

    /// Everything `put(key, value)` guarantees, as a relation between the
    /// cache before and after the call: the key is resident afterwards; a key
    /// that was already resident keeps its *old* value (the documented
    /// no-overwrite contract), a fresh key is stored with the given value; no
    /// other bucket changed; and every other key keeps its value — except the
    /// one `put_dropped` names, which left the cache.
    pub open spec fn put_post(pre: AssociativeCache, post: AssociativeCache, key: i64, value: i64) -> bool {
        &&& post.wf()
        &&& post.buckets@.len() == pre.buckets@.len()
        &&& forall|i: int|
            0 <= i < pre.buckets@.len() && i != pre.bucket_index_of(key) ==> post.buckets@[i]
                == pre.buckets@[i]
        &&& post.contains_key(key)
        &&& (pre.contains_key(key) ==> post.value_of(key) == pre.value_of(key))
        &&& (!pre.contains_key(key) ==> post.value_of(key) == Some(value))
        &&& ({
            // the routed bucket absorbed the item exactly as the bucket
            // model says
            let bi = pre.bucket_index_of(key);
            let b = pre.buckets@[bi];
            let out = spec_put(b@, b.capacity(), b.policy(), b.clock(), Item::spec_new(key, value));
            &&& post.buckets@[bi]@ == out.items
            &&& post.buckets@[bi].clock() == out.clock
        })
        &&& (pre.put_dropped(key) matches Some(dk) ==> !post.contains_key(dk))
        &&& forall|k2: i64|
            k2 != key && Some(k2) != pre.put_dropped(key) ==> post.value_of(k2) == pre.value_of(
                k2,
            )
    }

    /// Everything `get_and_update_item(key)` guarantees: the stored value is
    /// returned, residency and every stored value are preserved, no other
    /// bucket changed, and a miss changes nothing.
    pub open spec fn get_post(pre: AssociativeCache, post: AssociativeCache, key: i64, r: Option<i64>) -> bool {
        &&& post.wf()
        &&& post.buckets@.len() == pre.buckets@.len()
        &&& r == pre.value_of(key)
        &&& forall|i: int|
            0 <= i < pre.buckets@.len() && i != pre.bucket_index_of(key) ==> post.buckets@[i]
                == pre.buckets@[i]
        &&& (!pre.contains_key(key) ==> post.buckets@ == pre.buckets@)
        &&& (pre.contains_key(key) ==> ({
            // the hit applied the policy's on-hit effect in the routed
            // bucket, in place
            let bi = pre.bucket_index_of(key);
            let b = pre.buckets@[bi];
            &&& post.buckets@[bi]@ == touched_items(b@, key_index(b@, key), b.policy(), b.clock())
            &&& post.buckets@[bi].clock() == touched_clock(b.clock(), b.policy())
        }))
        &&& post.contains_key(key) == pre.contains_key(key)
        &&& post.value_of(key) == pre.value_of(key)
        &&& forall|k2: i64| k2 != key ==> post.value_of(k2) == pre.value_of(k2)
    }

    /// A fresh cache with all buckets allocated eagerly and empty.
    pub fn new(settings: AssociativeCacheSettings) -> (r: Self)
        requires
            settings.wf(),
        ensures
            r.wf(),
            r.buckets@.len() == settings.num_of_buckets,
            forall|i: int|
                0 <= i < r.buckets@.len() ==> (#[trigger] r.buckets@[i])@ == Seq::<Item>::empty()
                    && r.buckets@[i].capacity() == settings.bucket_size && r.buckets@[i].policy()
                    == settings.eviction_policy,
            forall|k: i64| !r.contains_key(k),
    {
        let mut buckets: Vec<AssociativeCacheBucket> = Vec::new();
        let mut i: usize = 0;
        while i < settings.num_of_buckets
            invariant
                0 <= i <= settings.num_of_buckets,
                buckets@.len() == i,
                settings.wf(),
                forall|j: int|
                    0 <= j < i ==> (#[trigger] buckets@[j])@ == Seq::<Item>::empty()
                        && buckets@[j].capacity() == settings.bucket_size && buckets@[j].policy()
                        == settings.eviction_policy && buckets@[j].wf(),
            decreases settings.num_of_buckets - i,
        {
            buckets.push(AssociativeCacheBucket::new(settings));
            i = i + 1;
        }
        AssociativeCache { buckets }
    }

    /// Fail-fast construction: rejects any configuration with a zero-sized
    /// routing unit, naming the first one; otherwise builds the cache.
    pub fn try_new(settings: AssociativeCacheSettings) -> (r: Result<Self, ConfigError>)
        ensures
            r is Ok <==> settings.wf(),
            r matches Ok(c) ==> c.wf() && c.buckets@.len() == settings.num_of_buckets && (forall|
                k: i64,
            | !c.contains_key(k)),
            settings.num_of_buckets == 0 ==> r == Err::<Self, ConfigError>(
                ConfigError::ZeroRoutingUnits,
            ),
            settings.num_of_buckets >= 1 && settings.bucket_size == 0 ==> r == Err::<
                Self,
                ConfigError,
            >(ConfigError::ZeroBucketSize),
    {
        match settings.validate() {
            Ok(_) => Ok(Self::new(settings)),
            Err(e) => Err(e),
        }
    }

    /// Inserts a key-value pair into its bucket. A resident key keeps its
    /// stored value (the bucket's no-overwrite contract); a fresh key is
    /// appended, displacing the bucket's eviction choice if the bucket is
    /// full. No other bucket is affected.
    pub fn put(&mut self, key: i64, value: i64)
        requires
            old(self).wf(),
        ensures
            AssociativeCache::put_post(*old(self), *final(self), key, value),
    {
        let bucket_index = get_index(hash(&key), self.buckets.len());
        let ghost o = *self;
        let ghost bi = o.bucket_index_of(key);
        let ghost b0 = o.buckets@[bi];
        let _ = self.buckets[bucket_index].put(Item::new(key, value));
        proof {
            let f = *self;
            let b1 = f.buckets@[bi];
            let item = Item { key, value, lfu_counter: 0, last_touched: 0 };
            if has_key(b0@, key) {
                let i = key_index(b0@, key);
                lemma_key_index_props(b0@, key);
                lemma_touch_keys(b0@, i, b0.policy(), b0.clock());
            } else if b0@.len() < b0.capacity() {
                lemma_push_keys(b0@, stamped(item, b0.clock()));
            } else {
                lemma_evict_index_in_range(b0@, b0.policy());
                lemma_remove_keys(b0@, evict_index(b0@, b0.policy()));
                lemma_push_keys(
                    b0@.remove(evict_index(b0@, b0.policy())),
                    stamped(item, b0.clock()),
                );
            }
            // cache-level placement from the bucket's key changes
            assert forall|i: int, k: i64|
                0 <= i < f.buckets@.len() && #[trigger] has_key(f.buckets@[i]@, k)
                    implies f.bucket_index_of(k) == i by {
                if i == bi {
                    if k != key {
                        if !has_key(b0@, key) && b0@.len() >= b0.capacity() {
                            assert(has_key(b0@.remove(evict_index(b0@, b0.policy())), k));
                        }
                        assert(has_key(b0@, k));
                        assert(has_key(o.buckets@[i]@, k));
                    }
                } else {
                    assert(has_key(o.buckets@[i]@, k));
                }
            }
            assert(f.wf());
            assert(f.contains_key(key));
            match o.put_dropped(key) {
                Some(dk) => {
                    assert(dk != key);
                    assert(has_key(b0@, dk));
                    assert(has_key(o.buckets@[bi]@, dk));
                    assert(o.bucket_index_of(dk) == bi);
                    assert(!has_key(b1@, dk));
                    assert(!f.contains_key(dk));
                },
                None => {},
            }
            assert forall|k2: i64|
                k2 != key && Some(k2) != o.put_dropped(key) implies f.value_of(k2) == o.value_of(
                k2,
            ) by {
                if o.bucket_index_of(k2) == bi {
                    assert(has_key(b1@, k2) == has_key(b0@, k2));
                    if has_key(b0@, k2) {
                        assert(item_of(b1@, k2) == item_of(b0@, k2));
                    }
                } else {
                    assert(f.bucket_of(k2) == o.bucket_of(k2));
                }
            }
        }
    }

    /// Looks `key` up and, on a hit, applies the eviction policy's "on hit"
    /// effect (a relocation, a restamp or a counter bump, depending on the
    /// policy). Returns the stored value. On a miss nothing changes.
    pub fn get_and_update_item(&mut self, key: &i64) -> (r: Option<i64>)
        requires
            old(self).wf(),
        ensures
            AssociativeCache::get_post(*old(self), *final(self), *key, r),
    {
        let bucket_index = get_index(hash(key), self.buckets.len());
        let ghost o = *self;
        let ghost bi = o.bucket_index_of(*key);
        let ghost b0 = o.buckets@[bi];
        let data = self.buckets[bucket_index].get(key);
        proof {
            let f = *self;
            let b1 = f.buckets@[bi];
            if !has_key(b0@, *key) {
                assert(b1 == b0);
                assert(f.buckets@ =~= o.buckets@);
            } else {
                let i = key_index(b0@, *key);
                lemma_key_index_props(b0@, *key);
                lemma_touch_keys(b0@, i, b0.policy(), b0.clock());
            }
            assert forall|i: int, k: i64|
                0 <= i < f.buckets@.len() && #[trigger] has_key(f.buckets@[i]@, k)
                    implies f.bucket_index_of(k) == i by {
                if i == bi && has_key(b0@, *key) {
                    assert(has_key(b0@, k));
                    assert(has_key(o.buckets@[i]@, k));
                } else {
                    assert(has_key(o.buckets@[i]@, k));
                }
            }
            assert(f.wf());
            assert forall|k2: i64| k2 != *key implies f.value_of(k2) == o.value_of(k2) by {
                if o.bucket_index_of(k2) == bi {
                    if has_key(b0@, *key) {
                        assert(has_key(b1@, k2) == has_key(b0@, k2));
                        if has_key(b0@, k2) {
                            assert(item_of(b1@, k2) == item_of(b0@, k2));
                        }
                    }
                } else {
                    assert(f.bucket_of(k2) == o.bucket_of(k2));
                }
            }
            if has_key(b0@, *key) {
                assert(item_of(b1@, *key) == touched_item(
                    item_of(b0@, *key),
                    b0.policy(),
                    b0.clock(),
                ));
            }
        }
        match data {
            Some(item) => Some(item.value),
            None => None,
        }
    }
}

/// Round trip: a `put` of `(key, value)` on a cache not holding `key`,
/// followed immediately by a `get` of `key`, yields `value`.
pub proof fn lemma_round_trip(
    pre: AssociativeCache,
    mid: AssociativeCache,
    post: AssociativeCache,
    key: i64,
    value: i64,
    r: Option<i64>,
)
    requires
        pre.wf(),
        !pre.contains_key(key),
        AssociativeCache::put_post(pre, mid, key, value),
        AssociativeCache::get_post(mid, post, key, r),
    ensures
        r == Some(value),
{
}

/// No overwrite on duplicate put: `put(key, v1)` then `put(key, v2)` then
/// `get(key)` yields `v1` — the second `put` finds the key resident and
/// deliberately keeps the stored value.
pub proof fn lemma_no_overwrite_on_duplicate_put(
    c0: AssociativeCache,
    c1: AssociativeCache,
    c2: AssociativeCache,
    c3: AssociativeCache,
    key: i64,
    v1: i64,
    v2: i64,
    r: Option<i64>,
)
    requires
        c0.wf(),
        !c0.contains_key(key),
        AssociativeCache::put_post(c0, c1, key, v1),
        AssociativeCache::put_post(c1, c2, key, v2),
        AssociativeCache::get_post(c2, c3, key, r),
    ensures
        r == Some(v1),
{
}

} // verus!
