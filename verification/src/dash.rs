use vstd::prelude::*;

use crate::bucket::spec_put;
use crate::dash_segment::DashSegment;
use crate::item::Item;
use crate::settings::{ConfigError, DashSettings};
use crate::utils::{get_index, hash, key_hash};

verus! {

/// The two-level segmented cache: a fixed array of segments addressed by the
/// key's hash. Each segment resolves the key among its stash, primary and
/// probing buckets.
#[derive(Debug)]
pub struct Dash {
    pub segments: Vec<DashSegment>,
}

impl Dash {
    /// The segment `key` routes to.
    pub open spec fn segment_index_of(&self, key: i64) -> int {
        key_hash(key) as int % self.segments@.len() as int
    }

    /// The segment holding `key`'s buckets.
    pub open spec fn seg_of(&self, key: i64) -> DashSegment {
        self.segments@[self.segment_index_of(key)]
    }

    /// Whether `key` is resident in the cache.
    pub open spec fn contains_key(&self, key: i64) -> bool {
        self.seg_of(key).contains_key(key)
    }

    /// The value stored under `key`, if any.
    pub open spec fn value_of(&self, key: i64) -> Option<i64> {
        self.seg_of(key).value_of(key)
    }

    /// The key a `put` of `key` drops, if any (see `DashSegment::put_dropped`).
    pub open spec fn put_dropped(&self, key: i64) -> Option<i64> {
        self.seg_of(key).put_dropped(key)
    }

    /// The key a lookup of `key` makes unreachable, if any (see
    /// `DashSegment::get_parked`): a lookup never drops a key, but a
    /// promotion can park the displaced primary entry in a stash bucket its
    /// key does not route to.
    pub open spec fn get_parked(&self, key: i64) -> Option<i64> {
        self.seg_of(key).get_parked(key)
    }

    /// Whether some bucket of `key`'s segment holds an item with `key`,
    /// reachable or not.
    pub open spec fn stored(&self, key: i64) -> bool {
        self.seg_of(key).stored(key)
    }

    /// Well-formedness: at least one segment, every segment well formed, and
    /// every resident key lives in the segment it routes to.
    pub open spec fn wf(&self) -> bool {
        &&& self.segments@.len() >= 1
        &&& forall|i: int| 0 <= i < self.segments@.len() ==> (#[trigger] self.segments@[i]).wf()
        &&& forall|i: int, k: i64|
            0 <= i < self.segments@.len() && (#[trigger] self.segments@[i].contains_key(k))
                ==> self.segment_index_of(k) == i
    }

    /// Everything `put(key, value)` guarantees, as a relation between the
    /// cache before and after the call: the key is now resident in its
    /// segment's stash bucket with the given value, that bucket changed
    /// exactly as the bucket model says, no other routing unit changed, and
    /// every other key keeps its value — except the one `put_dropped` names,
    /// which left its stash bucket.
    pub open spec fn put_post(pre: Dash, post: Dash, key: i64, value: i64) -> bool {
        &&& post.wf()
        &&& post.segments@.len() == pre.segments@.len()
        &&& forall|i: int|
            0 <= i < pre.segments@.len() && i != pre.segment_index_of(key)
                ==> post.segments@[i] == pre.segments@[i]
        &&& post.contains_key(key)
        &&& post.seg_of(key).in_stash(key)
        &&& post.value_of(key) == Some(value)
        &&& ({
            // the routed segment's stash bucket absorbed the fresh item
            // exactly as the bucket model says; its primary buckets and the
            // other stash buckets are untouched
            let s = pre.seg_of(key);
            let si = s.stash_index_of(key);
            let b = s.stash_buckets@[si];
            let out = spec_put(b@, b.capacity(), b.policy(), b.clock(), Item::spec_new(key, value));
            &&& post.seg_of(key).stash_buckets@[si]@ == out.items
            &&& post.seg_of(key).buckets@ == s.buckets@
            &&& forall|i: int|
                0 <= i < s.stash_buckets@.len() && i != si ==> post.seg_of(key).stash_buckets@[i]
                    == s.stash_buckets@[i]
        })
        &&& (pre.put_dropped(key) matches Some(dk) ==> {
            let s = pre.seg_of(key);
            &&& (s.stash_index_of(dk) == s.stash_index_of(key) ==> !post.contains_key(dk))
            &&& (s.stash_index_of(dk) != s.stash_index_of(key) ==> post.value_of(dk)
                == pre.value_of(dk))
        })
        &&& forall|k2: i64|
            k2 != key && Some(k2) != pre.put_dropped(key) ==> post.value_of(k2) == pre.value_of(
                k2,
            )
    }

    /// Everything `get_and_update_item(key)` guarantees: the stored value is
    /// returned, a resident key stays resident with its value, a miss changes
    /// nothing, no other segment changed, a lookup never drops a stored key,
    /// and every other key keeps its value — except the one `get_parked`
    /// names, which a promotion swap left stored but unreachable.
    pub open spec fn get_post(pre: Dash, post: Dash, key: i64, r: Option<i64>) -> bool {
        &&& post.wf()
        &&& post.segments@.len() == pre.segments@.len()
        &&& r == pre.value_of(key)
        &&& forall|i: int|
            0 <= i < pre.segments@.len() && i != pre.segment_index_of(key)
                ==> post.segments@[i] == pre.segments@[i]
        &&& (!pre.contains_key(key) ==> post.segments@ == pre.segments@)
        &&& (pre.contains_key(key) ==> post.contains_key(key) && post.value_of(key)
            == pre.value_of(key))
        &&& (pre.seg_of(key).in_stash(key) ==> !post.seg_of(key).in_stash(key)
            && post.seg_of(key).in_target(key))
        &&& forall|k: i64| post.stored(k) == pre.stored(k)
        &&& (pre.get_parked(key) matches Some(pk) ==> post.value_of(pk) == None::<i64>
            && post.stored(pk))
        &&& forall|k2: i64|
            k2 != key && Some(k2) != pre.get_parked(key) ==> post.value_of(k2) == pre.value_of(
                k2,
            )
    }

    /// A fresh cache with all segments allocated eagerly and empty.
    pub fn new(settings: DashSettings) -> (r: Self)
        requires
            settings.wf(),
        ensures
            r.wf(),
            r.segments@.len() == settings.num_of_segments,
            forall|i: int|
                0 <= i < r.segments@.len() ==> (#[trigger] r.segments@[i]).segment_size
                    == settings.num_of_normal_buckets && r.segments@[i].stash_size
                    == settings.num_of_stash_buckets,
            forall|k: i64| !r.contains_key(k),
    {
        let mut segments: Vec<DashSegment> = Vec::new();
        let mut i: usize = 0;
        while i < settings.num_of_segments
            invariant
                0 <= i <= settings.num_of_segments,
                segments@.len() == i,
                settings.wf(),
                forall|j: int|
                    0 <= j < i ==> (#[trigger] segments@[j]).wf() && segments@[j].segment_size
                        == settings.num_of_normal_buckets && segments@[j].stash_size
                        == settings.num_of_stash_buckets && (forall|k: i64|
                        !segments@[j].contains_key(k)),
            decreases settings.num_of_segments - i,
        {
            segments.push(DashSegment::new(settings));
            i = i + 1;
        }
        let r = Dash { segments };
        proof {
            assert forall|k: i64| !r.contains_key(k) by {
                if 0 <= r.segment_index_of(k) < r.segments@.len() {
                    assert(!r.segments@[r.segment_index_of(k)].contains_key(k));
                }
            }
        }
        r
    }

    /// Fail-fast construction: rejects any configuration with a zero-sized
    /// routing unit, naming the first one; otherwise builds the cache.
    pub fn try_new(settings: DashSettings) -> (r: Result<Self, ConfigError>)
        ensures
            r is Ok <==> settings.wf(),
            r matches Ok(d) ==> d.wf() && d.segments@.len() == settings.num_of_segments && (
            forall|k: i64| !d.contains_key(k)),
            settings.num_of_segments == 0 ==> r == Err::<Self, ConfigError>(
                ConfigError::ZeroRoutingUnits,
            ),
            settings.num_of_segments >= 1 && settings.num_of_normal_buckets == 0 ==> r == Err::<
                Self,
                ConfigError,
            >(ConfigError::ZeroNormalBuckets),
            settings.num_of_segments >= 1 && settings.num_of_normal_buckets >= 1
                && settings.num_of_stash_buckets == 0 ==> r == Err::<Self, ConfigError>(
                ConfigError::ZeroStashBuckets,
            ),
            settings.num_of_segments >= 1 && settings.num_of_normal_buckets >= 1
                && settings.num_of_stash_buckets >= 1 && settings.bucket_size == 0 ==> r == Err::<
                Self,
                ConfigError,
            >(ConfigError::ZeroBucketSize),
    {
        match settings.validate() {
            Ok(_) => Ok(Self::new(settings)),
            Err(e) => Err(e),
        }
    }

    /// Inserts a key-value pair, routing it to its segment's stash bucket.
    /// The key must not be resident: callers look the key up first and insert
    /// only on a miss. If the stash bucket is full, its oldest entry is
    /// dropped. No other segment is affected.
    pub fn put(&mut self, key: i64, value: i64)
        requires
            old(self).wf(),
            !old(self).contains_key(key),
        ensures
            Dash::put_post(*old(self), *final(self), key, value),
    {
        let segment_index = get_index(hash(&key), self.segments.len());
        let ghost o = *self;
        let ghost s = o.segment_index_of(key);
        self.segments[segment_index].put(Item::new(key, value));
        proof {
            let f = *self;
            let fs = f.segments@[s];
            let os = o.segments@[s];
            // routing indices are untouched: the segment count is fixed
            assert(f.segments@.len() == o.segments@.len());
            // the segment's own placement gives the cache-level placement
            assert forall|i: int, k: i64|
                0 <= i < f.segments@.len() && (#[trigger] f.segments@[i].contains_key(k))
                    implies f.segment_index_of(k) == i by {
                if i == s {
                    if k != key && Some(k) != os.put_dropped(key) {
                        assert(fs.value_of(k) == os.value_of(k));
                        assert(os.contains_key(k));
                    }
                    if Some(k) == os.put_dropped(key) && fs.contains_key(k) {
                        if os.stash_index_of(k) == os.stash_index_of(key) {
                            assert(!fs.contains_key(k));
                        } else {
                            assert(fs.value_of(k) == os.value_of(k));
                            assert(os.contains_key(k));
                        }
                    }
                } else {
                    assert(o.segments@[i].contains_key(k));
                }
            }
            assert(f.wf());
            assert(f.value_of(key) == Some(value));
            match o.put_dropped(key) {
                Some(dk) => {
                    if os.stash_index_of(dk) == os.stash_index_of(key) {
                        assert(os.in_stash(dk));
                        assert(os.contains_key(dk));
                        assert(o.segment_index_of(dk) == s);
                        assert(!fs.contains_key(dk));
                        assert(!f.contains_key(dk));
                    } else {
                        assert(fs.value_of(dk) == os.value_of(dk));
                        if o.segment_index_of(dk) == s {
                            assert(f.value_of(dk) == o.value_of(dk));
                        } else {
                            assert(f.seg_of(dk) == o.seg_of(dk));
                        }
                    }
                },
                None => {},
            }
            assert forall|k2: i64|
                k2 != key && Some(k2) != o.put_dropped(key) implies f.value_of(k2) == o.value_of(
                k2,
            ) by {
                if o.segment_index_of(k2) == s {
                    assert(fs.value_of(k2) == os.value_of(k2));
                } else {
                    assert(f.seg_of(k2) == o.seg_of(k2));
                }
            }
        }
    }

    /// Looks `key` up and, on a hit, applies the eviction policy's "on hit"
    /// effect inside the key's segment (promotion out of the stash, a
    /// relocation, a restamp or a counter bump, depending on the policy).
    /// Returns the stored value. No other segment is affected; on a miss
    /// nothing is.
    pub fn get_and_update_item(&mut self, key: &i64) -> (r: Option<i64>)
        requires
            old(self).wf(),
        ensures
            Dash::get_post(*old(self), *final(self), *key, r),
    {
        let segment_index = get_index(hash(key), self.segments.len());
        let ghost o = *self;
        let ghost s = o.segment_index_of(*key);
        let data = self.segments[segment_index].get(key);
        proof {
            let f = *self;
            let fs = f.segments@[s];
            let os = o.segments@[s];
            if !os.contains_key(*key) {
                assert(fs == os);
                assert(f.segments@ =~= o.segments@);
            }
            assert forall|i: int, k: i64|
                0 <= i < f.segments@.len() && (#[trigger] f.segments@[i].contains_key(k))
                    implies f.segment_index_of(k) == i by {
                if i == s {
                    if k != *key && Some(k) != os.get_parked(*key) {
                        assert(fs.value_of(k) == os.value_of(k));
                        assert(os.contains_key(k));
                    }
                    if Some(k) == os.get_parked(*key) {
                        assert(fs.value_of(k) == None::<i64>);
                        assert(!fs.contains_key(k));
                    }
                    if k == *key && fs.contains_key(*key) {
                        assert(os.contains_key(*key));
                    }
                } else {
                    assert(o.segments@[i].contains_key(k));
                }
            }
            assert(f.wf());
            match o.get_parked(*key) {
                Some(pk) => {
                    assert(os.contains_key(pk));
                    assert(o.segment_index_of(pk) == s);
                    assert(f.value_of(pk) == None::<i64>);
                    assert(f.stored(pk));
                },
                None => {},
            }
            assert forall|k: i64| f.stored(k) == o.stored(k) by {
                if o.segment_index_of(k) == s {
                    assert(fs.stored(k) == os.stored(k));
                } else {
                    assert(f.seg_of(k) == o.seg_of(k));
                }
            }
            assert forall|k2: i64|
                k2 != *key && Some(k2) != o.get_parked(*key) implies f.value_of(k2) == o.value_of(
                k2,
            ) by {
                if o.segment_index_of(k2) == s {
                    assert(fs.value_of(k2) == os.value_of(k2));
                } else {
                    assert(f.seg_of(k2) == o.seg_of(k2));
                }
            }
        }
        match data {
            Some(item) => Some(item.value),
            None => None,
        }
    }
}

/// Round trip: a `put` of `(key, value)` on a cache not holding `key`,
/// followed immediately by a `get` of `key`, yields `value` — the `put`
/// leaves `value` stored under `key`, and the `get` returns what is stored.
pub proof fn lemma_round_trip(
    pre: Dash,
    mid: Dash,
    post: Dash,
    key: i64,
    value: i64,
    r: Option<i64>,
)
    requires
        pre.wf(),
        !pre.contains_key(key),
        Dash::put_post(pre, mid, key, value),
        Dash::get_post(mid, post, key, r),
    ensures
        r == Some(value),
{
}

/// Segment isolation: an operation on `key` leaves every segment but `key`'s
/// untouched, so a key routing to a different segment keeps its segment — and
/// with it its value — through any `put` of `key`.
pub proof fn lemma_put_segment_isolation(pre: Dash, post: Dash, key: i64, value: i64, k2: i64)
    requires
        pre.wf(),
        Dash::put_post(pre, post, key, value),
        pre.segment_index_of(k2) != pre.segment_index_of(key),
    ensures
        post.seg_of(k2) == pre.seg_of(k2),
        post.value_of(k2) == pre.value_of(k2),
{
}

/// Segment isolation for lookups: a `get` of `key` leaves every segment but
/// `key`'s untouched, so a key routing to a different segment keeps its
/// segment — and with it its value — through the lookup.
pub proof fn lemma_get_segment_isolation(pre: Dash, post: Dash, key: i64, r: Option<i64>, k2: i64)
    requires
        pre.wf(),
        Dash::get_post(pre, post, key, r),
        pre.segment_index_of(k2) != pre.segment_index_of(key),
    ensures
        post.seg_of(k2) == pre.seg_of(k2),
        post.value_of(k2) == pre.value_of(k2),
{
}

} // verus!
