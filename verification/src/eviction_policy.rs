use vstd::prelude::*;

verus! {

/// The rule that decides which entry leaves a full bucket, and what a cache
/// hit does to the entry's bookkeeping. One policy is fixed per bucket at
/// construction time.
#[derive(Debug, Clone, Copy, PartialEq, Eq, Structural)]
pub enum EvictionPolicy {
    /// On every cache hit the entry physically moves to the most-recently-used
    /// end of the bucket; the head is the least recently used and is evicted.
    ClassicLRU,
    /// Recency is tracked by a last-touch timestamp on each entry; entries
    /// never move, and the entry with the oldest timestamp is evicted.
    TimestampLRU,
    /// The most recently inserted entry is evicted.
    Lifo,
    /// The entry with the fewest recorded hits is evicted.
    Lfu,
    /// The first inserted entry is evicted.
    Fifo,
}

impl EvictionPolicy {
    /// Decodes the numeric policy code used by embedding harnesses.
    /// Unrecognized codes are rejected with `None`.
    pub fn from_usize(index: usize) -> (r: Option<Self>)
        ensures
            index == 0 ==> r == Some(EvictionPolicy::ClassicLRU),
            index == 1 ==> r == Some(EvictionPolicy::Lifo),
            index == 2 ==> r == Some(EvictionPolicy::Lfu),
            index == 3 ==> r == Some(EvictionPolicy::Fifo),
            index == 4 ==> r == Some(EvictionPolicy::TimestampLRU),
            index > 4 ==> r is None,
    {
        match index {
            0 => Some(EvictionPolicy::ClassicLRU),
            1 => Some(EvictionPolicy::Lifo),
            2 => Some(EvictionPolicy::Lfu),
            3 => Some(EvictionPolicy::Fifo),
            4 => Some(EvictionPolicy::TimestampLRU),
            _ => None,
        }
    }
}

} // verus!
