use vstd::prelude::*;

verus! {

/// One key-value entry of a bucket, together with the per-policy bookkeeping:
/// a hit counter for frequency-based eviction and a last-touch tick for
/// timestamp-based recency. The identity of an item is its key and value —
/// equality ignores the bookkeeping, which mutates in place while the item
/// lives in a bucket.
#[derive(Debug, Clone, Copy)]
pub struct Item {
    pub key: i64,
    pub value: i64,
    /// Number of policy-driven touches recorded under the `Lfu` policy.
    pub lfu_counter: usize,
    /// Logical time of the latest insertion or `TimestampLRU` touch; buckets
    /// keep a tick counter that stands in for a wall clock, so that recency
    /// comparisons are a pure function of the cache's history.
    pub last_touched: u64,
}

impl Item {
    /// The item a fresh insertion of `(key, value)` carries: no recorded
    /// hits; the bucket stamps `last_touched` on insertion.
    pub open spec fn spec_new(key: i64, value: i64) -> Item {
        Item { key, value, lfu_counter: 0, last_touched: 0 }
    }

    /// A fresh item, per `spec_new`.
    pub fn new(key: i64, value: i64) -> (r: Self)
        ensures
            r == Item::spec_new(key, value),
    {
        Self { key, value, lfu_counter: 0, last_touched: 0 }
    }
}

impl PartialEq for Item {
    /// Identity is the key and the value: two items compare equal whatever
    /// their eviction bookkeeping reads.
    fn eq(&self, other: &Item) -> (r: bool) {
        self.key == other.key && self.value == other.value
    }
}

impl vstd::std_specs::cmp::PartialEqSpecImpl for Item {
    open spec fn obeys_eq_spec() -> bool {
        true
    }

    open spec fn eq_spec(&self, other: &Item) -> bool {
        self.key == other.key && self.value == other.value
    }
}

} // verus!
