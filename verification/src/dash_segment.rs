use vstd::prelude::*;

use crate::bucket::{
    evict_index, has_key, item_of, key_index, lemma_evict_index_in_range, lemma_item_of_unique,
    lemma_key_index_props, lemma_push_keys, lemma_remove_keys, lemma_touch_keys, spec_put, stamped,
    touched_clock, touched_item, touched_items, Bucket,
};
use crate::eviction_policy::EvictionPolicy;
use crate::item::Item;
use crate::settings::DashSettings;
use crate::utils::{get_index, hash, key_hash};

verus! {

/// One routing unit of the two-level topology: an array of primary buckets
/// plus a smaller array of overflow "stash" buckets. New keys land in their
/// stash bucket; the first hit promotes them to their primary bucket. A
/// lookup consults, in order, the key's stash bucket, its primary bucket and
/// the primary bucket's immediate neighbor (the "probing" bucket).
#[derive(Debug)]
pub struct DashSegment {
    pub buckets: Vec<Bucket>,
    pub segment_size: usize,
    pub stash_buckets: Vec<Bucket>,
    pub stash_size: usize,
}

impl DashSegment {
    /// The stash bucket `key` routes to.
    pub open spec fn stash_index_of(&self, key: i64) -> int {
        (key_hash(key) % self.stash_size) as int
    }

    /// The primary bucket `key` routes to.
    pub open spec fn target_index_of(&self, key: i64) -> int {
        (key_hash(key) % self.segment_size) as int
    }

    /// Whether `key`'s primary bucket has a probing neighbor: every primary
    /// bucket but the last one has one.
    pub open spec fn has_probe(&self, key: i64) -> bool {
        self.target_index_of(key) != self.segment_size - 1
    }

    /// The contents of `key`'s stash bucket.
    pub open spec fn stash_of(&self, key: i64) -> Seq<Item> {
        self.stash_buckets@[self.stash_index_of(key)]@
    }

    /// The contents of `key`'s primary bucket.
    pub open spec fn target_of(&self, key: i64) -> Seq<Item> {
        self.buckets@[self.target_index_of(key)]@
    }

    /// The contents of `key`'s probing bucket.
    pub open spec fn probe_of(&self, key: i64) -> Seq<Item> {
        self.buckets@[self.target_index_of(key) + 1]@
    }

    pub open spec fn in_stash(&self, key: i64) -> bool {
        has_key(self.stash_of(key), key)
    }

    pub open spec fn in_target(&self, key: i64) -> bool {
        has_key(self.target_of(key), key)
    }

    pub open spec fn in_probe(&self, key: i64) -> bool {
        self.has_probe(key) && has_key(self.probe_of(key), key)
    }

    /// Whether `key` is resident anywhere it can be found.
    pub open spec fn contains_key(&self, key: i64) -> bool {
        self.in_stash(key) || self.in_target(key) || self.in_probe(key)
    }

    /// The resident item of `key`, read in lookup order.
    pub open spec fn lookup(&self, key: i64) -> Option<Item> {
        if self.in_stash(key) {
            Some(item_of(self.stash_of(key), key))
        } else if self.in_target(key) {
            Some(item_of(self.target_of(key), key))
        } else if self.in_probe(key) {
            Some(item_of(self.probe_of(key), key))
        } else {
            None
        }
    }

    /// The value stored under `key`, if any.
    pub open spec fn value_of(&self, key: i64) -> Option<i64> {
        match self.lookup(key) {
            Some(it) => Some(it.value),
            None => None,
        }
    }

    /// Every key of a primary bucket routes to it: it is the key's own
    /// primary bucket or that bucket's probing neighbor. Stash buckets carry
    /// no such guarantee: the promotion swap returns a displaced entry to the
    /// *looked-up* key's stash bucket, so an entry can sit in a stash bucket
    /// its own key does not route to — stored, but found by no later lookup.
    pub open spec fn placed(&self) -> bool {
        forall|i: int, k: i64|
            0 <= i < self.buckets@.len() && #[trigger] has_key(self.buckets@[i]@, k)
                ==> self.target_index_of(k) == i || self.target_index_of(k) == i - 1
    }

    /// A key is resident in at most one of its three possible locations.
    pub open spec fn key_placement_unique(&self, key: i64) -> bool {
        &&& self.in_stash(key) ==> !self.in_target(key) && !self.in_probe(key)
        &&& self.in_target(key) ==> !self.in_probe(key)
    }

    /// Well-formedness of the segment.
    pub open spec fn wf(&self) -> bool {
        &&& self.buckets@.len() == self.segment_size
        &&& self.stash_buckets@.len() == self.stash_size
        &&& self.segment_size >= 1
        &&& self.stash_size >= 1
        &&& forall|i: int| 0 <= i < self.buckets@.len() ==> (#[trigger] self.buckets@[i]).wf()
        &&& forall|i: int|
            0 <= i < self.stash_buckets@.len() ==> (#[trigger] self.stash_buckets@[i]).wf()
        &&& forall|i: int|
            0 <= i < self.stash_buckets@.len() ==> (#[trigger] self.stash_buckets@[i]).policy()
                == EvictionPolicy::Fifo
        &&& self.placed()
        &&& forall|k: i64| #[trigger] self.key_placement_unique(k)
    }

    /// The segment's shape — array sizes and every bucket's configuration —
    /// is fixed for its lifetime.
    pub open spec fn same_shape(&self, o: &Self) -> bool {
        &&& self.segment_size == o.segment_size
        &&& self.stash_size == o.stash_size
        &&& self.buckets@.len() == o.buckets@.len()
        &&& self.stash_buckets@.len() == o.stash_buckets@.len()
        &&& forall|i: int|
            0 <= i < self.buckets@.len() ==> (#[trigger] self.buckets@[i]).same_config(
                &o.buckets@[i],
            )
        &&& forall|i: int|
            0 <= i < self.stash_buckets@.len() ==> (#[trigger] self.stash_buckets@[i]).same_config(
                &o.stash_buckets@[i],
            )
    }

    /// The key a `put` of `key` displaces from the segment, if any: when the
    /// key's stash bucket is full, the bucket's eviction choice is dropped.
    pub open spec fn put_dropped(&self, key: i64) -> Option<i64> {
        let b = self.stash_buckets@[self.stash_index_of(key)];
        if b@.len() >= b.capacity() {
            Some(b@[evict_index(b@, b.policy())].key)
        } else {
            None
        }
    }

    /// The item a lookup of `key` displaces from `key`'s primary bucket by
    /// promoting `key` out of the stash: the bucket's eviction choice, if the
    /// key is in the stash and its primary bucket is full.
    pub open spec fn promote_evictee(&self, key: i64) -> Option<Item> {
        let tb = self.buckets@[self.target_index_of(key)];
        if self.in_stash(key) && tb@.len() >= tb.capacity() {
            Some(tb@[evict_index(tb@, tb.policy())])
        } else {
            None
        }
    }

    /// The key a lookup of `key` makes unreachable, if any: the entry
    /// displaced from `key`'s full primary bucket returns to `key`'s stash
    /// bucket (which has room, having just lost `key`), so no key is lost —
    /// but when that bucket is not the one the displaced key itself routes
    /// to, the entry stays stored there while no later lookup consults that
    /// bucket for it.
    pub open spec fn get_parked(&self, key: i64) -> Option<i64> {
        match self.promote_evictee(key) {
            Some(e) => {
                if self.stash_index_of(e.key) != self.stash_index_of(key) {
                    Some(e.key)
                } else {
                    None
                }
            },
            None => None,
        }
    }

    /// Whether some bucket of the segment — primary or stash, routed-to or
    /// not — holds an item with `key`.
    pub open spec fn stored(&self, key: i64) -> bool {
        ||| exists|i: int|
            0 <= i < self.buckets@.len() && has_key(#[trigger] self.buckets@[i]@, key)
        ||| exists|i: int|
            0 <= i < self.stash_buckets@.len() && has_key(#[trigger] self.stash_buckets@[i]@, key)
    }

    /// A fresh segment: all primary buckets carry the configured policy, all
    /// stash buckets the Fifo policy, and everything is empty.
    pub fn new(settings: DashSettings) -> (r: Self)
        requires
            settings.num_of_normal_buckets >= 1,
            settings.num_of_stash_buckets >= 1,
            settings.bucket_size >= 1,
        ensures
            r.wf(),
            r.segment_size == settings.num_of_normal_buckets,
            r.stash_size == settings.num_of_stash_buckets,
            forall|i: int|
                0 <= i < r.buckets@.len() ==> (#[trigger] r.buckets@[i])@ == Seq::<Item>::empty()
                    && r.buckets@[i].capacity() == settings.bucket_size && r.buckets@[i].policy()
                    == settings.eviction_policy,
            forall|i: int|
                0 <= i < r.stash_buckets@.len() ==> (#[trigger] r.stash_buckets@[i])@ == Seq::<
                    Item,
                >::empty() && r.stash_buckets@[i].capacity() == settings.bucket_size
                    && r.stash_buckets@[i].policy() == EvictionPolicy::Fifo,
            forall|k: i64| !r.contains_key(k),
    {
        let mut buckets: Vec<Bucket> = Vec::new();
        let mut i: usize = 0;
        while i < settings.num_of_normal_buckets
            invariant
                0 <= i <= settings.num_of_normal_buckets,
                buckets@.len() == i,
                settings.bucket_size >= 1,
                forall|j: int|
                    0 <= j < i ==> (#[trigger] buckets@[j])@ == Seq::<Item>::empty()
                        && buckets@[j].capacity() == settings.bucket_size && buckets@[j].policy()
                        == settings.eviction_policy && buckets@[j].wf(),
            decreases settings.num_of_normal_buckets - i,
        {
            buckets.push(Bucket::new(settings.bucket_size, settings.eviction_policy));
            i = i + 1;
        }

        let mut stash_buckets: Vec<Bucket> = Vec::new();
        let mut i: usize = 0;
        while i < settings.num_of_stash_buckets
            invariant
                0 <= i <= settings.num_of_stash_buckets,
                stash_buckets@.len() == i,
                settings.bucket_size >= 1,
                forall|j: int|
                    0 <= j < i ==> (#[trigger] stash_buckets@[j])@ == Seq::<Item>::empty()
                        && stash_buckets@[j].capacity() == settings.bucket_size
                        && stash_buckets@[j].policy() == EvictionPolicy::Fifo
                        && stash_buckets@[j].wf(),
            decreases settings.num_of_stash_buckets - i,
        {
            stash_buckets.push(Bucket::new(settings.bucket_size, EvictionPolicy::Fifo));
            i = i + 1;
        }

        let r = DashSegment {
            buckets,
            stash_buckets,
            segment_size: settings.num_of_normal_buckets,
            stash_size: settings.num_of_stash_buckets,
        };
        proof {
            assert forall|k: i64| #[trigger] r.key_placement_unique(k) by {
                assert(!r.in_stash(k));
            }
            assert forall|k: i64| !r.contains_key(k) by {
                assert(!r.in_stash(k) && !r.in_target(k) && !r.in_probe(k));
            }
        }
        r
    }

    /// Promotes the key at `position` of its stash bucket into its primary
    /// bucket: the entry leaves the stash and enters the primary bucket via
    /// `Bucket::put`; an entry displaced from the full primary bucket is
    /// reinserted into the same — just-drained, hence never overflowing —
    /// stash bucket, so the swap loses no key.
    fn promote(
        &mut self,
        key: &i64,
        stash_bucket_index: usize,
        target_bucket_index: usize,
        position: usize,
    ) -> (r: Item)
        requires
            old(self).wf(),
            old(self).in_stash(*key),
            stash_bucket_index as int == old(self).stash_index_of(*key),
            target_bucket_index as int == old(self).target_index_of(*key),
            position as int == key_index(old(self).stash_of(*key), *key),
        ensures
            final(self).wf(),
            final(self).same_shape(old(self)),
            r.key == *key,
            r.value == item_of(old(self).stash_of(*key), *key).value,
            !final(self).in_stash(*key),
            final(self).in_target(*key),
            final(self).value_of(*key) == old(self).value_of(*key),
            // the whole effect, bucket by bucket: the key leaves its stash
            // bucket and enters its primary bucket, whose displaced entry —
            // if any — returns to that same stash bucket; nothing else moves
            ({
                let o = *old(self);
                let f = *final(self);
                let si = o.stash_index_of(*key);
                let ti = o.target_index_of(*key);
                let sb = o.stash_buckets@[si];
                let tb = o.buckets@[ti];
                let mid = sb@.remove(key_index(sb@, *key));
                let out = spec_put(tb@, tb.capacity(), tb.policy(), tb.clock(), item_of(sb@, *key));
                &&& f.buckets@[ti]@ == out.items
                &&& f.buckets@[ti].clock() == out.clock
                &&& forall|i: int|
                    0 <= i < o.buckets@.len() && i != ti ==> f.buckets@[i] == o.buckets@[i]
                &&& forall|i: int|
                    0 <= i < o.stash_buckets@.len() && i != si ==> f.stash_buckets@[i]
                        == o.stash_buckets@[i]
                &&& match o.promote_evictee(*key) {
                    None => f.stash_buckets@[si]@ == mid,
                    Some(e) => {
                        &&& has_key(f.stash_buckets@[si]@, e.key)
                        &&& f.stash_buckets@[si]@ == if has_key(mid, e.key) {
                            mid
                        } else {
                            mid.push(stamped(e, sb.clock()))
                        }
                    },
                }
            }),
            // a lookup loses no key: whatever was stored somewhere still is
            forall|k: i64| final(self).stored(k) == old(self).stored(k),
            // ... but the displaced entry can become unreachable, parked in a
            // stash bucket its key does not route to
            (old(self).get_parked(*key) matches Some(pk) ==> old(self).contains_key(pk)
                && final(self).value_of(pk) == None::<i64> && final(self).stored(pk)),
            forall|k2: i64|
                k2 != *key && Some(k2) != old(self).get_parked(*key) ==> final(self).value_of(k2)
                    == old(self).value_of(k2),
    {
        let k = *key;
        let ghost o = *self;
        let ghost si = o.stash_index_of(k);
        let ghost ti = o.target_index_of(k);
        let ghost sb0 = o.stash_buckets@[si];
        let ghost tb0 = o.buckets@[ti];
        proof {
            lemma_key_index_props(sb0@, k);
            assert(o.key_placement_unique(k));
            assert(!has_key(tb0@, k));
        }
        let item = self.stash_buckets[stash_bucket_index].get_from_position(position).unwrap();
        proof {
            assert(item == item_of(sb0@, k));
        }
        self.stash_buckets[stash_bucket_index].remove(key);
        let ghost sb1 = self.stash_buckets@[si];
        let (pushed, evicted) = self.buckets[target_bucket_index].put(item);
        proof {
            if tb0@.len() >= tb0.capacity() {
                lemma_evict_index_in_range(tb0@, tb0.policy());
                lemma_remove_keys(tb0@, evict_index(tb0@, tb0.policy()));
                lemma_push_keys(
                    tb0@.remove(evict_index(tb0@, tb0.policy())),
                    stamped(item, tb0.clock()),
                );
            } else {
                lemma_push_keys(tb0@, stamped(item, tb0.clock()));
            }
        }
        match evicted {
            Some(e) => {
                proof {
                    // the displaced entry was resident in the primary area,
                    // so by uniqueness it is absent from its own stash bucket
                    let v = evict_index(tb0@, tb0.policy());
                    assert(e == tb0@[v]);
                    assert(has_key(tb0@, e.key));
                    assert(e.key != k);
                    assert(o.target_index_of(e.key) == ti || o.target_index_of(e.key) == ti - 1);
                    if o.target_index_of(e.key) == ti {
                        assert(o.in_target(e.key));
                    } else {
                        assert(o.has_probe(e.key));
                        assert(o.in_probe(e.key));
                    }
                    assert(o.key_placement_unique(e.key));
                    assert(!o.in_stash(e.key));
                    if o.stash_index_of(e.key) == si {
                        // the key's stash bucket is the displaced entry's own:
                        // absent there, and there is room after the removal
                        assert(!has_key(sb0@, e.key));
                        assert(!has_key(sb1@, e.key));
                    }
                    if has_key(sb1@, e.key) {
                        lemma_key_index_props(sb1@, e.key);
                    } else {
                        lemma_push_keys(sb1@, stamped(e, sb1.clock()));
                    }
                }
                // the swap: the displaced entry returns to the key's stash
                // bucket, which has room, so no key leaves the segment
                let _ = self.stash_buckets[stash_bucket_index].put(e);
            },
            None => {},
        }
        proof {
            let f = *self;
            let pos = key_index(sb0@, k);
            assert(sb1@ == sb0@.remove(pos));
            assert(!has_key(sb1@, k));
            let stamped_k = stamped(item, tb0.clock());
            let tb1 = f.buckets@[ti];
            let fsb = f.stash_buckets@[si];
            // key-content facts about the two changed buckets
            match evicted {
                None => {
                    assert(tb0@.len() < tb0.capacity());
                    assert(tb1@ == tb0@.push(stamped_k));
                    assert(fsb == sb1);
                    assert(o.promote_evictee(k) is None);
                },
                Some(e) => {
                    let v = evict_index(tb0@, tb0.policy());
                    assert(e == tb0@[v]);
                    assert(tb1@ == tb0@.remove(v).push(stamped_k));
                    assert(o.promote_evictee(k) == Some(e));
                    if has_key(sb1@, e.key) {
                        // a parked copy of the displaced key already sits
                        // here: the put is a Fifo touch and changes nothing
                        assert(fsb@ == sb1@);
                        assert(o.stash_index_of(e.key) != si);
                    } else {
                        assert(fsb@ == sb1@.push(stamped(e, sb1.clock())));
                        assert(sb1.clock() == sb0.clock());
                        assert(sb1@.len() < sb1.capacity());
                    }
                    assert(has_key(fsb@, e.key));
                },
            }
            // placement of the primary buckets
            assert forall|i: int, k2: i64|
                0 <= i < f.buckets@.len() && #[trigger] has_key(f.buckets@[i]@, k2)
                    implies f.target_index_of(k2) == i || f.target_index_of(k2) == i - 1 by {
                if i == ti {
                    if k2 != k {
                        if o.promote_evictee(k) is Some {
                            assert(has_key(tb0@.remove(evict_index(tb0@, tb0.policy())), k2));
                        }
                        assert(has_key(tb0@, k2));
                        assert(has_key(o.buckets@[i]@, k2));
                    }
                } else {
                    assert(has_key(o.buckets@[i]@, k2));
                }
            }
            // how each key's residence flags moved
            assert(!f.in_stash(k));
            assert(f.in_target(k));
            assert(!o.in_probe(k));
            assert(f.in_probe(k) == o.in_probe(k));
            match evicted {
                Some(e) => {
                    assert(!has_key(tb1@, e.key));
                    assert(!f.in_target(e.key) && !f.in_probe(e.key)) by {
                        if o.target_index_of(e.key) == ti {
                            assert(o.key_placement_unique(e.key));
                            assert(!o.in_probe(e.key));
                            if o.has_probe(e.key) {
                                assert(f.probe_of(e.key) == o.probe_of(e.key));
                            }
                        } else {
                            assert(o.key_placement_unique(e.key));
                            assert(!o.in_target(e.key));
                            assert(f.target_of(e.key) == o.target_of(e.key));
                        }
                    }
                    if o.stash_index_of(e.key) == si {
                        assert(f.in_stash(e.key));
                    } else {
                        assert(f.stash_of(e.key) == o.stash_of(e.key));
                        assert(!f.in_stash(e.key));
                        assert(o.get_parked(k) == Some(e.key));
                        assert(f.value_of(e.key) == None::<i64>);
                    }
                },
                None => {},
            }
            // residence flags and items of unaffected keys
            assert forall|k2: i64|
                k2 != k && (match evicted {
                    Some(e) => k2 != e.key,
                    None => true,
                }) implies f.in_stash(k2) == o.in_stash(k2) && f.in_target(k2) == o.in_target(k2)
                && f.in_probe(k2) == o.in_probe(k2) && (o.in_stash(k2) ==> item_of(
                f.stash_of(k2),
                k2,
            ) == item_of(o.stash_of(k2), k2)) && (o.in_target(k2) ==> item_of(f.target_of(k2), k2)
                == item_of(o.target_of(k2), k2)) && (o.in_probe(k2) ==> item_of(
                f.probe_of(k2),
                k2,
            ) == item_of(o.probe_of(k2), k2)) by {
                if o.stash_index_of(k2) == si {
                    assert(f.stash_of(k2) == fsb@);
                    assert(has_key(sb1@, k2) == has_key(sb0@, k2));
                    assert(has_key(fsb@, k2) == has_key(sb1@, k2));
                    if has_key(sb0@, k2) {
                        assert(item_of(sb1@, k2) == item_of(sb0@, k2));
                        assert(item_of(fsb@, k2) == item_of(sb1@, k2));
                    }
                } else {
                    assert(f.stash_of(k2) == o.stash_of(k2));
                }
                if o.target_index_of(k2) == ti {
                    assert(has_key(tb1@, k2) == has_key(tb0@, k2));
                    if has_key(tb0@, k2) {
                        assert(item_of(tb1@, k2) == item_of(tb0@, k2));
                    }
                } else {
                    assert(f.target_of(k2) == o.target_of(k2));
                }
                if o.target_index_of(k2) + 1 == ti {
                    assert(has_key(tb1@, k2) == has_key(tb0@, k2));
                    if has_key(tb0@, k2) {
                        assert(item_of(tb1@, k2) == item_of(tb0@, k2));
                    }
                } else if o.has_probe(k2) {
                    assert(f.probe_of(k2) == o.probe_of(k2));
                }
                assert(f.in_probe(k2) == o.in_probe(k2));
            }
            // per-key uniqueness
            assert forall|k2: i64| #[trigger] f.key_placement_unique(k2) by {
                assert(o.key_placement_unique(k2));
            }
            assert(f.wf());
            assert(f.value_of(k) == Some(item.value));
            assert(o.value_of(k) == Some(item.value));
            // every key but the promoted one and the parked one keeps its
            // value
            assert forall|k2: i64|
                k2 != k && Some(k2) != o.get_parked(k) implies f.value_of(k2) == o.value_of(
                k2,
            ) by {
                match evicted {
                    Some(e) => {
                        if k2 == e.key {
                            assert(o.stash_index_of(e.key) == si);
                            assert(o.lookup(e.key) == Some(e)) by {
                                lemma_item_of_unique(tb0@, e.key);
                                assert(!o.in_stash(e.key));
                                if o.target_index_of(e.key) == ti {
                                    assert(o.in_target(e.key));
                                    assert(item_of(o.target_of(e.key), e.key) == e);
                                } else {
                                    assert(!o.in_target(e.key));
                                    assert(o.in_probe(e.key));
                                    assert(item_of(o.probe_of(e.key), e.key) == e);
                                }
                            }
                            assert(f.in_stash(e.key));
                            assert(item_of(fsb@, e.key) == stamped(e, sb0.clock()));
                            assert(f.value_of(e.key) == Some(e.value));
                            assert(o.value_of(e.key) == Some(e.value));
                        }
                    },
                    None => {},
                }
            }
            // no key is lost: everything stored before is stored after
            assert forall|k2: i64| f.stored(k2) == o.stored(k2) by {
                self.lemma_promote_preserves_stored(o, k, si, ti, k2);
            }
        }
        pushed
    }

    /// After a promotion of `key` that moved items only between the key's
    /// stash bucket and its primary bucket — removing the key from the stash,
    /// inserting it into the primary bucket, and returning any displaced
    /// entry to that stash bucket — every key stored somewhere before is
    /// stored somewhere after, and conversely.
    proof fn lemma_promote_preserves_stored(&self, o: DashSegment, k: i64, si: int, ti: int, k2: i64)
        requires
            0 <= si < o.stash_buckets@.len(),
            0 <= ti < o.buckets@.len(),
            self.buckets@.len() == o.buckets@.len(),
            self.stash_buckets@.len() == o.stash_buckets@.len(),
            forall|i: int| 0 <= i < o.buckets@.len() && i != ti ==> self.buckets@[i] == o.buckets@[i],
            forall|i: int|
                0 <= i < o.stash_buckets@.len() && i != si ==> self.stash_buckets@[i]
                    == o.stash_buckets@[i],
            // the key moved from the stash bucket to the primary bucket
            has_key(o.stash_buckets@[si]@, k),
            has_key(self.buckets@[ti]@, k),
            // every other key of either changed bucket is still in one of the
            // two, and was already in one of the two
            forall|k3: i64|
                k3 != k && (has_key(o.stash_buckets@[si]@, k3) || has_key(o.buckets@[ti]@, k3))
                    ==> has_key(self.stash_buckets@[si]@, k3) || has_key(self.buckets@[ti]@, k3),
            forall|k3: i64|
                k3 != k && (has_key(self.stash_buckets@[si]@, k3) || has_key(
                    self.buckets@[ti]@,
                    k3,
                )) ==> has_key(o.stash_buckets@[si]@, k3) || has_key(o.buckets@[ti]@, k3),
        ensures
            self.stored(k2) == o.stored(k2),
    {
        if o.stored(k2) {
            if k2 == k {
                assert(has_key(self.buckets@[ti]@, k2));
                assert(self.stored(k2));
            } else if exists|i: int|
                0 <= i < o.buckets@.len() && has_key(#[trigger] o.buckets@[i]@, k2) {
                let i = choose|i: int|
                    0 <= i < o.buckets@.len() && has_key(#[trigger] o.buckets@[i]@, k2);
                if i == ti {
                    assert(has_key(self.stash_buckets@[si]@, k2) || has_key(
                        self.buckets@[ti]@,
                        k2,
                    ));
                } else {
                    assert(has_key(self.buckets@[i]@, k2));
                }
                assert(self.stored(k2));
            } else {
                let i = choose|i: int|
                    0 <= i < o.stash_buckets@.len() && has_key(#[trigger] o.stash_buckets@[i]@, k2);
                if i == si {
                    assert(has_key(self.stash_buckets@[si]@, k2) || has_key(
                        self.buckets@[ti]@,
                        k2,
                    ));
                } else {
                    assert(has_key(self.stash_buckets@[i]@, k2));
                }
                assert(self.stored(k2));
            }
        }
        if self.stored(k2) {
            if k2 == k {
                assert(has_key(o.stash_buckets@[si]@, k2));
                assert(o.stored(k2));
            } else if exists|i: int|
                0 <= i < self.buckets@.len() && has_key(#[trigger] self.buckets@[i]@, k2) {
                let i = choose|i: int|
                    0 <= i < self.buckets@.len() && has_key(#[trigger] self.buckets@[i]@, k2);
                if i == ti {
                    assert(has_key(o.stash_buckets@[si]@, k2) || has_key(o.buckets@[ti]@, k2));
                } else {
                    assert(has_key(o.buckets@[i]@, k2));
                }
                assert(o.stored(k2));
            } else {
                let i = choose|i: int|
                    0 <= i < self.stash_buckets@.len() && has_key(
                        #[trigger] self.stash_buckets@[i]@,
                        k2,
                    );
                if i == si {
                    assert(has_key(o.stash_buckets@[si]@, k2) || has_key(o.buckets@[ti]@, k2));
                } else {
                    assert(has_key(o.stash_buckets@[i]@, k2));
                }
                assert(o.stored(k2));
            }
        }
    }


    /// Looks `key` up, searching its stash bucket, then its primary bucket,
    /// then the probing bucket. A stash hit promotes the entry into the
    /// primary bucket (see `promote`); a primary or probing hit applies the
    /// policy's "on hit" effect in that bucket, in place. On a miss the
    /// segment is unchanged. A lookup never loses a key: everything stored
    /// somewhere before is stored somewhere after.
    pub fn get(&mut self, key: &i64) -> (r: Option<Item>)
        requires
            old(self).wf(),
        ensures
            final(self).wf(),
            final(self).same_shape(old(self)),
            (r is Some) == old(self).contains_key(*key),
            !old(self).contains_key(*key) ==> *final(self) == *old(self),
            old(self).contains_key(*key) ==> (r matches Some(it) && it.key == *key && (
            old(self).lookup(*key) matches Some(res) && it.value == res.value)),
            old(self).contains_key(*key) ==> final(self).contains_key(*key)
                && final(self).value_of(*key) == old(self).value_of(*key),
            old(self).in_stash(*key) ==> !final(self).in_stash(*key)
                && final(self).in_target(*key),
            // on a stash hit, a displaced primary entry returns to the key's
            // own stash bucket: the swap loses no key
            (old(self).promote_evictee(*key) matches Some(e) ==> has_key(
                final(self).stash_buckets@[old(self).stash_index_of(*key)]@,
                e.key,
            )),
            // the stash hit, bucket by bucket: the key leaves its stash
            // bucket and enters its primary bucket per the bucket model,
            // whose displaced entry — if any — returns to that same stash
            // bucket; nothing else moves
            old(self).in_stash(*key) ==> ({
                let si = old(self).stash_index_of(*key);
                let ti = old(self).target_index_of(*key);
                let sb = old(self).stash_buckets@[si];
                let tb = old(self).buckets@[ti];
                let mid = sb@.remove(key_index(sb@, *key));
                let out = spec_put(tb@, tb.capacity(), tb.policy(), tb.clock(), item_of(sb@, *key));
                &&& final(self).buckets@[ti]@ == out.items
                &&& final(self).buckets@[ti].clock() == out.clock
                &&& forall|i: int|
                    0 <= i < old(self).buckets@.len() && i != ti ==> final(self).buckets@[i]
                        == old(self).buckets@[i]
                &&& forall|i: int|
                    0 <= i < old(self).stash_buckets@.len() && i != si
                        ==> final(self).stash_buckets@[i] == old(self).stash_buckets@[i]
                &&& match old(self).promote_evictee(*key) {
                    None => final(self).stash_buckets@[si]@ == mid,
                    Some(e) => final(self).stash_buckets@[si]@ == if has_key(mid, e.key) {
                        mid
                    } else {
                        mid.push(stamped(e, sb.clock()))
                    },
                }
            }),
            // a hit in the primary bucket touches that bucket in place and
            // moves nothing else
            !old(self).in_stash(*key) && old(self).in_target(*key) ==> ({
                let ti = old(self).target_index_of(*key);
                let b = old(self).buckets@[ti];
                &&& final(self).buckets@[ti]@ == touched_items(
                    b@,
                    key_index(b@, *key),
                    b.policy(),
                    b.clock(),
                )
                &&& final(self).buckets@[ti].clock() == touched_clock(b.clock(), b.policy())
                &&& forall|i: int|
                    0 <= i < old(self).buckets@.len() && i != ti ==> final(self).buckets@[i]
                        == old(self).buckets@[i]
                &&& final(self).stash_buckets@ == old(self).stash_buckets@
                &&& final(self).in_target(*key)
            }),
            // likewise for a hit in the probing bucket
            !old(self).in_stash(*key) && !old(self).in_target(*key) && old(self).in_probe(*key)
                ==> ({
                let pi = old(self).target_index_of(*key) + 1;
                let b = old(self).buckets@[pi];
                &&& final(self).buckets@[pi]@ == touched_items(
                    b@,
                    key_index(b@, *key),
                    b.policy(),
                    b.clock(),
                )
                &&& final(self).buckets@[pi].clock() == touched_clock(b.clock(), b.policy())
                &&& forall|i: int|
                    0 <= i < old(self).buckets@.len() && i != pi ==> final(self).buckets@[i]
                        == old(self).buckets@[i]
                &&& final(self).stash_buckets@ == old(self).stash_buckets@
                &&& final(self).in_probe(*key)
            }),
            // a lookup never drops a key
            forall|k: i64| final(self).stored(k) == old(self).stored(k),
            // ... though a displaced entry can become unreachable, parked in
            // a stash bucket its key does not route to
            (old(self).get_parked(*key) matches Some(pk) ==> old(self).contains_key(pk)
                && final(self).value_of(pk) == None::<i64> && final(self).stored(pk)),
            forall|k2: i64|
                k2 != *key && Some(k2) != old(self).get_parked(*key) ==> final(self).value_of(k2)
                    == old(self).value_of(k2),
    {
        let k_hash = hash(key);
        let stash_bucket_index = get_index(k_hash, self.stash_size);
        let target_bucket_index = get_index(k_hash, self.segment_size);
        let ghost o = *self;
        let ghost ti = o.target_index_of(*key);
        let ghost tb0 = o.buckets@[ti];
        let stash_pos = self.stash_buckets[stash_bucket_index].get_position(key);
        match stash_pos {
            Some(position) => {
                proof {
                    assert(o.in_stash(*key));
                    lemma_key_index_props(o.stash_of(*key), *key);
                }
                let pushed = self.promote(key, stash_bucket_index, target_bucket_index, position);
                Some(pushed)
            },
            None => {
                proof {
                    assert(!o.in_stash(*key));
                }
                let target_pos = self.buckets[target_bucket_index].get_position(key);
                match target_pos {
                    Some(position) => {
                        proof {
                            assert(o.in_target(*key));
                            lemma_key_index_props(tb0@, *key);
                            lemma_touch_keys(
                                tb0@,
                                key_index(tb0@, *key),
                                tb0.policy(),
                                tb0.clock(),
                            );
                        }
                        let it = self.buckets[target_bucket_index].get_and_update_item_in_position(
                            position,
                        );
                        proof {
                            self.lemma_touched_primary(o, *key, ti);
                        }
                        Some(it)
                    },
                    None => {
                        proof {
                            assert(!o.in_target(*key));
                        }
                        if target_bucket_index == self.buckets.len() - 1 {
                            proof {
                                assert(!o.has_probe(*key));
                                assert(!o.contains_key(*key));
                            }
                            None
                        } else {
                            let probing_bucket_index = target_bucket_index + 1;
                            let ghost pb0 = o.buckets@[ti + 1];
                            let probe_pos = self.buckets[probing_bucket_index].get_position(key);
                            match probe_pos {
                                Some(position) => {
                                    proof {
                                        assert(o.in_probe(*key));
                                        lemma_key_index_props(pb0@, *key);
                                        lemma_touch_keys(
                                            pb0@,
                                            key_index(pb0@, *key),
                                            pb0.policy(),
                                            pb0.clock(),
                                        );
                                    }
                                    let it = self.buckets[probing_bucket_index].get_and_update_item_in_position(
                                        position,
                                    );
                                    proof {
                                        self.lemma_touched_primary(o, *key, ti + 1);
                                    }
                                    Some(it)
                                },
                                None => {
                                    proof {
                                        assert(!o.in_probe(*key));
                                        assert(!o.contains_key(*key));
                                    }
                                    None
                                },
                            }
                        }
                    },
                }
            },
        }
    }

    /// After a policy touch of `key` inside primary bucket `i` (the key's own
    /// primary bucket or its probing neighbor), the segment is still well
    /// formed and every key keeps its value.
    proof fn lemma_touched_primary(&self, o: DashSegment, key: i64, i: int)
        requires
            o.wf(),
            !o.in_stash(key),
            i == o.target_index_of(key) || (o.has_probe(key) && i == o.target_index_of(key) + 1),
            i == o.target_index_of(key) ==> has_key(o.buckets@[i]@, key),
            i == o.target_index_of(key) + 1 ==> !o.in_target(key) && has_key(o.buckets@[i]@, key),
            self.segment_size == o.segment_size,
            self.stash_size == o.stash_size,
            self.stash_buckets == o.stash_buckets,
            self.buckets@.len() == o.buckets@.len(),
            forall|j: int| 0 <= j < o.buckets@.len() && j != i ==> self.buckets@[j] == o.buckets@[j],
            self.buckets@[i].same_config(&o.buckets@[i]),
            self.buckets@[i].wf(),
            self.buckets@[i]@ == touched_items(
                o.buckets@[i]@,
                key_index(o.buckets@[i]@, key),
                o.buckets@[i].policy(),
                o.buckets@[i].clock(),
            ),
        ensures
            self.wf(),
            self.same_shape(&o),
            self.contains_key(key),
            self.value_of(key) == o.value_of(key),
            o.contains_key(key),
            (o.lookup(key) matches Some(res) && res.value == o.value_of(key).unwrap()),
            forall|k2: i64| k2 != key ==> self.value_of(k2) == o.value_of(k2),
            self.in_stash(key) == o.in_stash(key),
            o.get_parked(key) is None,
            forall|k2: i64| self.stored(k2) == o.stored(k2),
    {
        let b0 = o.buckets@[i];
        let pos = key_index(b0@, key);
        lemma_key_index_props(b0@, key);
        lemma_touch_keys(b0@, pos, b0.policy(), b0.clock());
        let b1 = self.buckets@[i];
        assert(b0@[pos] == item_of(b0@, key));
        // placement: the touched bucket holds the same keys
        assert forall|j: int, k2: i64|
            0 <= j < self.buckets@.len() && #[trigger] has_key(self.buckets@[j]@, k2)
                implies self.target_index_of(k2) == j || self.target_index_of(k2) == j - 1 by {
            if j == i {
                assert(has_key(b0@, k2));
                assert(has_key(o.buckets@[j]@, k2));
            } else {
                assert(has_key(o.buckets@[j]@, k2));
            }
        }
        // residence flags are unchanged for every key
        assert forall|k2: i64|
            self.in_stash(k2) == o.in_stash(k2) && self.in_target(k2) == o.in_target(k2)
                && self.in_probe(k2) == o.in_probe(k2) by {
            assert(self.stash_of(k2) == o.stash_of(k2));
            if o.target_index_of(k2) == i {
                assert(has_key(self.target_of(k2), k2) == has_key(o.target_of(k2), k2));
            } else {
                assert(self.target_of(k2) == o.target_of(k2));
            }
            if o.has_probe(k2) {
                if o.target_index_of(k2) + 1 == i {
                    assert(has_key(self.probe_of(k2), k2) == has_key(o.probe_of(k2), k2));
                } else {
                    assert(self.probe_of(k2) == o.probe_of(k2));
                }
            }
        }
        assert forall|k2: i64| #[trigger] self.key_placement_unique(k2) by {
            assert(o.key_placement_unique(k2));
        }
        assert(self.wf());
        // values: the touched key keeps its value, every other key its item
        assert forall|k2: i64| k2 != key implies self.value_of(k2) == o.value_of(k2) by {
            if o.in_stash(k2) {
            } else if o.in_target(k2) {
                if o.target_index_of(k2) == i {
                    assert(item_of(self.target_of(k2), k2) == item_of(o.target_of(k2), k2));
                } else {
                    assert(self.target_of(k2) == o.target_of(k2));
                }
            } else if o.in_probe(k2) {
                if o.target_index_of(k2) + 1 == i {
                    assert(item_of(self.probe_of(k2), k2) == item_of(o.probe_of(k2), k2));
                } else {
                    assert(self.probe_of(k2) == o.probe_of(k2));
                }
            }
        }
        assert(item_of(b1@, key) == touched_item(item_of(b0@, key), b0.policy(), b0.clock()));
        if i == o.target_index_of(key) {
            assert(o.in_target(key));
            assert(self.in_target(key));
            assert(self.value_of(key) == Some(item_of(b1@, key).value));
            assert(o.value_of(key) == Some(item_of(b0@, key).value));
        } else {
            assert(o.in_probe(key));
            assert(self.in_probe(key));
            assert(!self.in_target(key)) by {
                assert(self.target_of(key) == o.target_of(key));
            }
            assert(self.value_of(key) == Some(item_of(b1@, key).value));
            assert(o.value_of(key) == Some(item_of(b0@, key).value));
        }
        // the touch permutes or restamps one bucket: the stored keys are
        // untouched everywhere
        assert forall|k2: i64| self.stored(k2) == o.stored(k2) by {
            if o.stored(k2) {
                if exists|j: int|
                    0 <= j < o.buckets@.len() && has_key(#[trigger] o.buckets@[j]@, k2) {
                    let j = choose|j: int|
                        0 <= j < o.buckets@.len() && has_key(#[trigger] o.buckets@[j]@, k2);
                    assert(has_key(self.buckets@[j]@, k2));
                } else {
                    let j = choose|j: int|
                        0 <= j < o.stash_buckets@.len() && has_key(
                            #[trigger] o.stash_buckets@[j]@,
                            k2,
                        );
                    assert(has_key(self.stash_buckets@[j]@, k2));
                }
                assert(self.stored(k2));
            }
            if self.stored(k2) {
                if exists|j: int|
                    0 <= j < self.buckets@.len() && has_key(#[trigger] self.buckets@[j]@, k2) {
                    let j = choose|j: int|
                        0 <= j < self.buckets@.len() && has_key(#[trigger] self.buckets@[j]@, k2);
                    assert(has_key(o.buckets@[j]@, k2));
                } else {
                    let j = choose|j: int|
                        0 <= j < self.stash_buckets@.len() && has_key(
                            #[trigger] self.stash_buckets@[j]@,
                            k2,
                        );
                    assert(has_key(o.stash_buckets@[j]@, k2));
                }
                assert(o.stored(k2));
            }
        }
    }

    /// Inserts an item into the key's stash bucket. The caller is responsible
    /// for the key not being resident anywhere in the segment — a lookup must
    /// precede every insertion. If the stash bucket is full, its eviction
    /// choice (the oldest stash entry, stash buckets being Fifo) is dropped
    /// from the segment; when that entry was a parked one — stored in a stash
    /// bucket its key does not route to — no reachable key is affected.
    pub fn put(&mut self, item: Item)
        requires
            old(self).wf(),
            !old(self).contains_key(item.key),
        ensures
            final(self).wf(),
            final(self).same_shape(old(self)),
            final(self).buckets@ == old(self).buckets@,
            ({
                let si = old(self).stash_index_of(item.key);
                let b = old(self).stash_buckets@[si];
                let out = spec_put(b@, b.capacity(), b.policy(), b.clock(), item);
                &&& final(self).stash_buckets@[si]@ == out.items
                &&& forall|i: int|
                    0 <= i < old(self).stash_buckets@.len() && i != si
                        ==> final(self).stash_buckets@[i] == old(self).stash_buckets@[i]
            }),
            final(self).in_stash(item.key),
            final(self).value_of(item.key) == Some(item.value),
            (old(self).put_dropped(item.key) matches Some(dk) ==> (old(self).stash_index_of(dk)
                == old(self).stash_index_of(item.key) ==> old(self).in_stash(dk)
                && !final(self).contains_key(dk)) && (old(self).stash_index_of(dk) != old(
                self,
            ).stash_index_of(item.key) ==> final(self).value_of(dk) == old(self).value_of(dk))),
            forall|k2: i64|
                k2 != item.key && Some(k2) != old(self).put_dropped(item.key)
                    ==> final(self).value_of(k2) == old(self).value_of(k2),
    {
        let h = hash(&item.key);
        let idx = get_index(h, self.stash_size);
        let ghost o = *self;
        let ghost si = o.stash_index_of(item.key);
        let ghost b0 = o.stash_buckets@[si];
        assert(idx as int == si);
        assert(!has_key(b0@, item.key));
        let _ = self.stash_buckets[idx].put(item);
        proof {
            let f = *self;
            let out = spec_put(b0@, b0.capacity(), b0.policy(), b0.clock(), item);
            let fb = f.stash_buckets@[si];
            assert(fb@ == out.items);
            // the new bucket's keys: the old ones, minus the dropped victim,
            // plus the fresh key
            if b0@.len() >= b0.capacity() {
                lemma_remove_keys(b0@, evict_index(b0@, b0.policy()));
                lemma_push_keys(
                    b0@.remove(evict_index(b0@, b0.policy())),
                    stamped(item, b0.clock()),
                );
            } else {
                lemma_push_keys(b0@, stamped(item, b0.clock()));
            }
            // residence is still unique per key
            assert forall|k: i64| #[trigger] f.key_placement_unique(k) by {
                assert(o.key_placement_unique(k));
                assert(f.in_target(k) == o.in_target(k));
                assert(f.in_probe(k) == o.in_probe(k));
                if f.in_stash(k) && k != item.key {
                    if f.stash_index_of(k) == si {
                        assert(f.stash_of(k) == fb@);
                        if b0@.len() >= b0.capacity() {
                            let v = evict_index(b0@, b0.policy());
                            assert(has_key(
                                b0@.remove(v).push(stamped(item, b0.clock())),
                                k,
                            ));
                            assert(has_key(b0@, k));
                        } else {
                            assert(has_key(b0@.push(stamped(item, b0.clock())), k));
                            assert(has_key(b0@, k));
                        }
                        assert(o.in_stash(k));
                    } else {
                        assert(f.stash_of(k) == o.stash_of(k));
                        assert(o.in_stash(k));
                    }
                }
            }
            assert(f.wf());
            // the inserted key is resident in its stash bucket with its value
            assert(f.in_stash(item.key));
            assert(item_of(fb@, item.key) == stamped(item, b0.clock()));
            assert(f.value_of(item.key) == Some(item.value));
            // a dropped victim that was reachable here is gone; a parked one
            // affects no reachable key
            match o.put_dropped(item.key) {
                Some(dk) => {
                    let v = evict_index(b0@, b0.policy());
                    lemma_evict_index_in_range(b0@, b0.policy());
                    assert(dk == b0@[v].key);
                    assert(dk != item.key);
                    assert(has_key(b0@, dk));
                    if o.stash_index_of(dk) == si {
                        assert(o.in_stash(dk));
                        assert(!has_key(fb@, dk));
                        assert(!f.in_stash(dk));
                        assert(o.key_placement_unique(dk));
                        assert(!f.contains_key(dk));
                    } else {
                        assert(f.stash_of(dk) == o.stash_of(dk));
                        assert(f.target_of(dk) == o.target_of(dk));
                        assert(f.probe_of(dk) == o.probe_of(dk));
                        assert(f.value_of(dk) == o.value_of(dk));
                    }
                },
                None => {},
            }
            // every other key keeps its value
            assert forall|k2: i64|
                k2 != item.key && Some(k2) != o.put_dropped(item.key) implies f.value_of(k2)
                == o.value_of(k2) by {
                if o.stash_index_of(k2) == si {
                    assert(f.stash_of(k2) == fb@);
                    assert(o.stash_of(k2) == b0@);
                    if b0@.len() >= b0.capacity() {
                        let v = evict_index(b0@, b0.policy());
                        assert(k2 != b0@[v].key);
                        assert(has_key(fb@, k2) == has_key(b0@, k2));
                        if has_key(b0@, k2) {
                            assert(item_of(fb@, k2) == item_of(b0@, k2));
                        }
                    } else {
                        assert(has_key(fb@, k2) == has_key(b0@, k2));
                        if has_key(b0@, k2) {
                            assert(item_of(fb@, k2) == item_of(b0@, k2));
                        }
                    }
                } else {
                    assert(f.stash_of(k2) == o.stash_of(k2));
                }
                assert(f.target_of(k2) == o.target_of(k2));
                assert(f.probe_of(k2) == o.probe_of(k2));
            }
        }
    }
}

} // verus!
