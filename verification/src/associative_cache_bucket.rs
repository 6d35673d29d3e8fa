use vstd::prelude::*;

use crate::bucket::{has_key, key_index, spec_put, touched_clock, touched_item, touched_items, unique_keys, Bucket};
use crate::eviction_policy::EvictionPolicy;
use crate::item::Item;
use crate::settings::AssociativeCacheSettings;

verus! {

/// A bucket of the flat topology: the same bounded, policy-governed
/// container, configured directly from the cache's settings.
#[derive(Debug)]
pub struct AssociativeCacheBucket {
    bucket: Bucket,
}

impl View for AssociativeCacheBucket {
    type V = Seq<Item>;

    closed spec fn view(&self) -> Seq<Item> {
        self.bucket@
    }
}

impl AssociativeCacheBucket {
    /// The fixed entry capacity.
    pub closed spec fn capacity(&self) -> usize {
        self.bucket.capacity()
    }

    /// The fixed eviction policy.
    pub closed spec fn policy(&self) -> EvictionPolicy {
        self.bucket.policy()
    }

    /// The current logical clock.
    pub closed spec fn clock(&self) -> u64 {
        self.bucket.clock()
    }

    /// Well-formedness: within positive capacity, keys unique.
    pub open spec fn wf(&self) -> bool {
        &&& self@.len() <= self.capacity()
        &&& self.capacity() >= 1
        &&& unique_keys(self@)
    }

    /// The configuration (capacity, policy) is unchanged by an operation.
    pub open spec fn same_config(&self, other: &Self) -> bool {
        &&& self.capacity() == other.capacity()
        &&& self.policy() == other.policy()
    }

    /// An empty bucket configured from the cache's settings.
    pub fn new(settings: AssociativeCacheSettings) -> (r: Self)
        requires
            settings.bucket_size >= 1,
        ensures
            r@ == Seq::<Item>::empty(),
            r.capacity() == settings.bucket_size,
            r.policy() == settings.eviction_policy,
            r.clock() == 0,
            r.wf(),
    {
        AssociativeCacheBucket { bucket: Bucket::new(settings.bucket_size, settings.eviction_policy) }
    }

    /// Puts an item, per `spec_put` (see `Bucket::put`): a duplicate key is a
    /// policy touch of the existing slot and the stored value is kept.
    pub fn put(&mut self, item: Item) -> (r: (Item, Option<Item>))
        requires
            old(self).wf(),
        ensures
            ({
                let o = spec_put(
                    old(self)@,
                    old(self).capacity(),
                    old(self).policy(),
                    old(self).clock(),
                    item,
                );
                &&& final(self)@ == o.items
                &&& r.0 == o.resident
                &&& r.1 == o.evicted
                &&& final(self).clock() == o.clock
            }),
            old(self).same_config(final(self)),
            final(self).wf(),
    {
        self.bucket.put(item)
    }

    /// Looks `key` up and, on a hit, applies the policy's "on hit" effect.
    pub fn get(&mut self, key: &i64) -> (r: Option<Item>)
        requires
            old(self).wf(),
        ensures
            !has_key(old(self)@, *key) ==> r is None && *final(self) == *old(self),
            has_key(old(self)@, *key) ==> {
                let i = key_index(old(self)@, *key);
                &&& r == Some(touched_item(old(self)@[i], old(self).policy(), old(self).clock()))
                &&& final(self)@ == touched_items(old(self)@, i, old(self).policy(), old(self).clock())
                &&& final(self).clock() == touched_clock(old(self).clock(), old(self).policy())
            },
            old(self).same_config(final(self)),
            final(self).wf(),
    {
        self.bucket.get_and_update_item(key)
    }

    /// The position of the first item with `key`, if any.
    pub fn get_position(&self, key: &i64) -> (r: Option<usize>)
        ensures
            r == if has_key(self@, *key) {
                Some(key_index(self@, *key) as usize)
            } else {
                None::<usize>
            },
    {
        self.bucket.get_position(key)
    }

    /// The current number of items.
    pub fn size(&self) -> (r: usize)
        ensures
            r == self@.len(),
    {
        self.bucket.size()
    }
}

} // verus!
