use vstd::prelude::*;

use crate::eviction_policy::EvictionPolicy;
use crate::item::Item;

verus! {

// ---------------------------------------------------------------------------
// Specification model of a bucket's contents.
//
// A bucket is modeled as the sequence of its items in storage order, which is
// policy-significant: for Fifo / Lifo / ClassicLRU the position encodes
// arrival or recency order. The executable operations below are specified
// exactly against pure functions of this model.
// ---------------------------------------------------------------------------

/// Whether some item of `s` carries `key`.
pub open spec fn has_key(s: Seq<Item>, key: i64) -> bool {
    exists|i: int| 0 <= i < s.len() && s[i].key == key
}

/// Keys are pairwise distinct: at most one item per key.
pub open spec fn unique_keys(s: Seq<Item>) -> bool {
    forall|i: int, j: int| 0 <= i < j < s.len() ==> s[i].key != s[j].key
}

/// Index of the first item of `s` carrying `key`.
pub open spec fn key_index(s: Seq<Item>, key: i64) -> int
    decreases s.len(),
{
    if s.len() == 0 {
        0
    } else if s[0].key == key {
        0
    } else {
        1 + key_index(s.drop_first(), key)
    }
}

/// The item of `s` carrying `key` (the first one, if keys repeat).
pub open spec fn item_of(s: Seq<Item>, key: i64) -> Item {
    s[key_index(s, key)]
}

/// Saturating tick of the logical clock.
pub open spec fn sat_inc_u64(c: u64) -> u64 {
    if c < u64::MAX {
        (c + 1) as u64
    } else {
        c
    }
}

/// Saturating bump of a hit counter.
pub open spec fn sat_inc_usize(c: usize) -> usize {
    if c < usize::MAX {
        (c + 1) as usize
    } else {
        c
    }
}

/// An item as it is stamped when appended to a bucket whose clock reads `now`.
pub open spec fn stamped(it: Item, now: u64) -> Item {
    Item { last_touched: now, ..it }
}

/// The bookkeeping effect of a policy-driven touch on the item itself.
pub open spec fn touched_item(it: Item, policy: EvictionPolicy, now: u64) -> Item {
    match policy {
        EvictionPolicy::Fifo => it,
        EvictionPolicy::Lifo => it,
        EvictionPolicy::ClassicLRU => it,
        EvictionPolicy::TimestampLRU => Item { last_touched: now, ..it },
        EvictionPolicy::Lfu => Item { lfu_counter: sat_inc_usize(it.lfu_counter), ..it },
    }
}

/// The effect of touching the item at position `i` on the whole sequence:
/// `ClassicLRU` physically relocates the item to the most-recently-used end,
/// the other policies keep every position.
pub open spec fn touched_items(s: Seq<Item>, i: int, policy: EvictionPolicy, now: u64) -> Seq<
    Item,
> {
    match policy {
        EvictionPolicy::Fifo => s,
        EvictionPolicy::Lifo => s,
        EvictionPolicy::ClassicLRU => s.remove(i).push(s[i]),
        EvictionPolicy::TimestampLRU => s.update(i, touched_item(s[i], policy, now)),
        EvictionPolicy::Lfu => s.update(i, touched_item(s[i], policy, now)),
    }
}

/// How a touch advances the bucket's clock: only timestamp recency consumes
/// ticks on a hit.
pub open spec fn touched_clock(clock: u64, policy: EvictionPolicy) -> u64 {
    if policy is TimestampLRU {
        sat_inc_u64(clock)
    } else {
        clock
    }
}

/// Position of the first item with the minimal hit counter.
pub open spec fn min_lfu_index(s: Seq<Item>) -> int
    decreases s.len(),
{
    if s.len() <= 1 {
        0
    } else {
        let r = min_lfu_index(s.drop_last());
        if s.last().lfu_counter < s[r].lfu_counter {
            s.len() - 1
        } else {
            r
        }
    }
}

/// Position of the first item with the oldest last-touch tick.
pub open spec fn min_ts_index(s: Seq<Item>) -> int
    decreases s.len(),
{
    if s.len() <= 1 {
        0
    } else {
        let r = min_ts_index(s.drop_last());
        if s.last().last_touched < s[r].last_touched {
            s.len() - 1
        } else {
            r
        }
    }
}

/// The position a policy chooses to evict from a non-empty bucket.
pub open spec fn evict_index(s: Seq<Item>, policy: EvictionPolicy) -> int {
    match policy {
        EvictionPolicy::Fifo => 0,
        EvictionPolicy::ClassicLRU => 0,
        EvictionPolicy::Lifo => s.len() - 1,
        EvictionPolicy::Lfu => min_lfu_index(s),
        EvictionPolicy::TimestampLRU => min_ts_index(s),
    }
}

/// The complete outcome of a `Bucket::put`, as a pure function of the
/// bucket's model.
pub struct PutOutcome {
    /// The bucket's items after the call.
    pub items: Seq<Item>,
    /// The bucket-resident item the call returns: the touched existing item
    /// on a duplicate key, else the freshly stamped incoming item.
    pub resident: Item,
    /// The item the call displaced, if the incoming key was fresh and the
    /// bucket full.
    pub evicted: Option<Item>,
    /// The bucket's clock after the call.
    pub clock: u64,
}

/// What `Bucket::put` does. A duplicate key is a touch of the existing slot
/// — the incoming value is deliberately *not* written (no-overwrite
/// contract). A fresh key is appended at the tail, after evicting the
/// policy's choice if the bucket is full.
pub open spec fn spec_put(
    s: Seq<Item>,
    cap: usize,
    policy: EvictionPolicy,
    clock: u64,
    item: Item,
) -> PutOutcome {
    if has_key(s, item.key) {
        let i = key_index(s, item.key);
        PutOutcome {
            items: touched_items(s, i, policy, clock),
            resident: touched_item(s[i], policy, clock),
            evicted: None,
            clock: touched_clock(clock, policy),
        }
    } else if s.len() < cap {
        PutOutcome {
            items: s.push(stamped(item, clock)),
            resident: stamped(item, clock),
            evicted: None,
            clock: sat_inc_u64(clock),
        }
    } else {
        let v = evict_index(s, policy);
        PutOutcome {
            items: s.remove(v).push(stamped(item, clock)),
            resident: stamped(item, clock),
            evicted: Some(s[v]),
            clock: sat_inc_u64(clock),
        }
    }
}

// ---------------------------------------------------------------------------
// Lemmas about the model.
// ---------------------------------------------------------------------------

/// `key_index` points at the first occurrence of a present key.
pub proof fn lemma_key_index_props(s: Seq<Item>, key: i64)
    requires
        has_key(s, key),
    ensures
        0 <= key_index(s, key) < s.len(),
        s[key_index(s, key)].key == key,
        forall|j: int| 0 <= j < key_index(s, key) ==> s[j].key != key,
    decreases s.len(),
{
    if s.len() == 0 {
    } else if s[0].key == key {
    } else {
        assert(has_key(s.drop_first(), key)) by {
            let i = choose|i: int| 0 <= i < s.len() && s[i].key == key;
            assert(s.drop_first()[i - 1] == s[i]);
        }
        lemma_key_index_props(s.drop_first(), key);
        assert forall|j: int| 0 <= j < key_index(s, key) implies s[j].key != key by {
            if j > 0 {
                assert(s.drop_first()[j - 1] == s[j]);
            }
        }
    }
}

/// Conversely, the first occurrence determines `key_index`.
pub proof fn lemma_key_index_of_first(s: Seq<Item>, key: i64, i: int)
    requires
        0 <= i < s.len(),
        s[i].key == key,
        forall|j: int| 0 <= j < i ==> s[j].key != key,
    ensures
        has_key(s, key),
        key_index(s, key) == i,
    decreases i,
{
    if i == 0 {
    } else {
        assert(s.drop_first()[i - 1] == s[i]);
        assert forall|j: int| 0 <= j < i - 1 implies s.drop_first()[j].key != key by {
            assert(s.drop_first()[j] == s[j + 1]);
        }
        lemma_key_index_of_first(s.drop_first(), key, i - 1);
    }
}

/// With unique keys, any item carrying `key` is the item of `key`.
pub proof fn lemma_item_of_unique(s: Seq<Item>, key: i64)
    requires
        unique_keys(s),
        has_key(s, key),
    ensures
        forall|j: int| 0 <= j < s.len() && s[j].key == key ==> s[j] == item_of(s, key),
{
    lemma_key_index_props(s, key);
}

/// Removing position `i` keeps keys unique, removes exactly `s[i].key`, and
/// keeps every other key with its item.
pub proof fn lemma_remove_keys(s: Seq<Item>, i: int)
    requires
        unique_keys(s),
        0 <= i < s.len(),
    ensures
        unique_keys(s.remove(i)),
        !has_key(s.remove(i), s[i].key),
        forall|k: i64| k != s[i].key ==> has_key(s.remove(i), k) == has_key(s, k),
        forall|k: i64|
            k != s[i].key && has_key(s, k) ==> item_of(s.remove(i), k) == item_of(s, k),
{
    let t = s.remove(i);
    assert forall|a: int, b: int| 0 <= a < b < t.len() implies t[a].key != t[b].key by {
        assert(t[a] == if a < i { s[a] } else { s[a + 1] });
        assert(t[b] == if b < i { s[b] } else { s[b + 1] });
    }
    assert forall|j: int| 0 <= j < t.len() implies t[j].key != s[i].key by {
        assert(t[j] == if j < i { s[j] } else { s[j + 1] });
    }
    assert forall|k: i64| k != s[i].key implies has_key(t, k) == has_key(s, k) by {
        if has_key(s, k) {
            let a = choose|a: int| 0 <= a < s.len() && s[a].key == k;
            if a < i {
                assert(t[a] == s[a]);
            } else {
                assert(a > i);
                assert(t[a - 1] == s[a]);
            }
            assert(has_key(t, k));
        }
        if has_key(t, k) {
            let a = choose|a: int| 0 <= a < t.len() && t[a].key == k;
            assert(t[a] == if a < i { s[a] } else { s[a + 1] });
            assert(has_key(s, k));
        }
    }
    assert forall|k: i64| k != s[i].key && has_key(s, k) implies item_of(t, k) == item_of(
        s,
        k,
    ) by {
        lemma_item_of_unique(s, k);
        lemma_key_index_props(t, k);
        let a = key_index(t, k);
        assert(t[a] == if a < i { s[a] } else { s[a + 1] });
    }
}

/// Appending an item with a fresh key keeps keys unique and keeps every
/// present key with its item.
pub proof fn lemma_push_keys(s: Seq<Item>, it: Item)
    requires
        unique_keys(s),
        !has_key(s, it.key),
    ensures
        unique_keys(s.push(it)),
        has_key(s.push(it), it.key),
        item_of(s.push(it), it.key) == it,
        forall|k: i64| k != it.key ==> has_key(s.push(it), k) == has_key(s, k),
        forall|k: i64| k != it.key && has_key(s, k) ==> item_of(s.push(it), k) == item_of(s, k),
{
    let t = s.push(it);
    assert forall|a: int, b: int| 0 <= a < b < t.len() implies t[a].key != t[b].key by {
        if b < s.len() {
        } else {
            assert(t[b] == it);
            assert(t[a] == s[a]);
        }
    }
    assert(t[s.len() as int] == it);
    lemma_key_index_of_first(t, it.key, s.len() as int);
    assert forall|k: i64| k != it.key implies has_key(t, k) == has_key(s, k) by {
        if has_key(s, k) {
            let a = choose|a: int| 0 <= a < s.len() && s[a].key == k;
            assert(t[a] == s[a]);
        }
        if has_key(t, k) {
            let a = choose|a: int| 0 <= a < t.len() && t[a].key == k;
            assert(a < s.len());
            assert(s[a].key == k);
        }
    }
    assert forall|k: i64| k != it.key && has_key(s, k) implies item_of(t, k) == item_of(s, k) by {
        lemma_key_index_props(s, k);
        let a = key_index(s, k);
        assert(t[a] == s[a]);
        assert forall|j: int| 0 <= j < a implies t[j].key != k by {
            assert(t[j] == s[j]);
        }
        lemma_key_index_of_first(t, k, a);
    }
}

/// Touching position `i` keeps keys unique, keeps every key present, keeps
/// every other item untouched, and maps the touched item through
/// `touched_item`.
pub proof fn lemma_touch_keys(s: Seq<Item>, i: int, policy: EvictionPolicy, now: u64)
    requires
        unique_keys(s),
        0 <= i < s.len(),
    ensures
        unique_keys(touched_items(s, i, policy, now)),
        touched_items(s, i, policy, now).len() == s.len(),
        forall|k: i64| has_key(touched_items(s, i, policy, now), k) == has_key(s, k),
        has_key(touched_items(s, i, policy, now), s[i].key),
        item_of(touched_items(s, i, policy, now), s[i].key) == touched_item(s[i], policy, now),
        forall|k: i64|
            k != s[i].key && has_key(s, k) ==> item_of(touched_items(s, i, policy, now), k)
                == item_of(s, k),
{
    let t = touched_items(s, i, policy, now);
    match policy {
        EvictionPolicy::Fifo | EvictionPolicy::Lifo => {
            lemma_item_of_unique(s, s[i].key);
            lemma_key_index_props(s, s[i].key);
        },
        EvictionPolicy::ClassicLRU => {
            lemma_remove_keys(s, i);
            lemma_push_keys(s.remove(i), s[i]);
            assert forall|k: i64| has_key(t, k) implies has_key(s, k) by {
                if k == s[i].key {
                } else {
                    assert(has_key(s.remove(i), k));
                }
            }
        },
        EvictionPolicy::TimestampLRU | EvictionPolicy::Lfu => {
            let it = touched_item(s[i], policy, now);
            assert(it.key == s[i].key);
            assert forall|a: int, b: int| 0 <= a < b < t.len() implies t[a].key != t[b].key by {
                assert(t[a] == if a == i { it } else { s[a] });
                assert(t[b] == if b == i { it } else { s[b] });
            }
            assert forall|k: i64| has_key(t, k) == has_key(s, k) by {
                assert forall|j: int| 0 <= j < s.len() implies t[j].key == s[j].key by {
                    assert(t[j] == if j == i { it } else { s[j] });
                }
                if has_key(s, k) {
                    let a = choose|a: int| 0 <= a < s.len() && s[a].key == k;
                    assert(t[a].key == k);
                    assert(has_key(t, k));
                }
                if has_key(t, k) {
                    let a = choose|a: int| 0 <= a < t.len() && t[a].key == k;
                    assert(s[a].key == k);
                    assert(has_key(s, k));
                }
            }
            assert(t[i] == it);
            lemma_item_of_unique(t, s[i].key);
            assert(item_of(t, s[i].key) == it);
            assert forall|k: i64| k != s[i].key && has_key(s, k) implies item_of(t, k) == item_of(
                s,
                k,
            ) by {
                lemma_item_of_unique(s, k);
                lemma_key_index_props(s, k);
                let a = key_index(s, k);
                assert(t[a] == s[a]);
                lemma_item_of_unique(t, k);
                assert(has_key(t, k));
                lemma_key_index_props(t, k);
            }
        },
    }
}

/// The first-minimum position of the hit counters: in range, minimal, and
/// strictly undercut by nothing before it.
pub proof fn lemma_min_lfu_index_props(s: Seq<Item>)
    requires
        s.len() > 0,
    ensures
        0 <= min_lfu_index(s) < s.len(),
        forall|j: int|
            0 <= j < s.len() ==> (#[trigger] s[j]).lfu_counter >= s[min_lfu_index(s)].lfu_counter,
        forall|j: int|
            0 <= j < min_lfu_index(s) ==> (#[trigger] s[j]).lfu_counter > s[min_lfu_index(s)].lfu_counter,
    decreases s.len(),
{
    if s.len() == 1 {
    } else {
        let t = s.drop_last();
        lemma_min_lfu_index_props(t);
        assert forall|j: int| 0 <= j < t.len() implies #[trigger] s[j] == t[j] by {}
        let m = min_lfu_index(s);
        assert(s[s.len() - 1] == s.last());
        if s.last().lfu_counter < s[min_lfu_index(t)].lfu_counter {
            assert(m == s.len() - 1);
        } else {
            assert(m == min_lfu_index(t));
        }
    }
}

/// The first-minimum position of the last-touch ticks.
pub proof fn lemma_min_ts_index_props(s: Seq<Item>)
    requires
        s.len() > 0,
    ensures
        0 <= min_ts_index(s) < s.len(),
        forall|j: int|
            0 <= j < s.len() ==> (#[trigger] s[j]).last_touched >= s[min_ts_index(s)].last_touched,
        forall|j: int|
            0 <= j < min_ts_index(s) ==> (#[trigger] s[j]).last_touched > s[min_ts_index(s)].last_touched,
    decreases s.len(),
{
    if s.len() == 1 {
    } else {
        let t = s.drop_last();
        lemma_min_ts_index_props(t);
        assert forall|j: int| 0 <= j < t.len() implies #[trigger] s[j] == t[j] by {}
        let m = min_ts_index(s);
        assert(s[s.len() - 1] == s.last());
        if s.last().last_touched < s[min_ts_index(t)].last_touched {
            assert(m == s.len() - 1);
        } else {
            assert(m == min_ts_index(t));
        }
    }
}

/// The eviction choice always lies inside a non-empty bucket.
pub proof fn lemma_evict_index_in_range(s: Seq<Item>, policy: EvictionPolicy)
    requires
        s.len() > 0,
    ensures
        0 <= evict_index(s, policy) < s.len(),
{
    match policy {
        EvictionPolicy::Lfu => lemma_min_lfu_index_props(s),
        EvictionPolicy::TimestampLRU => lemma_min_ts_index_props(s),
        _ => {},
    }
}

// ---------------------------------------------------------------------------
// Laws of the eviction policies, stated over the model. `states[i]` and
// `clocks[i]` are a bucket's items and clock before the put of `items[i]`,
// so the hypotheses describe a run of `Bucket::put` calls exactly.
// ---------------------------------------------------------------------------

/// Capacity invariant: a put on a bucket within its capacity leaves it within
/// its capacity, whatever the policy — eviction precedes the append — so no
/// sequence of puts can overfill a bucket.
pub proof fn lemma_put_preserves_capacity(
    s: Seq<Item>,
    cap: usize,
    policy: EvictionPolicy,
    clock: u64,
    item: Item,
)
    requires
        unique_keys(s),
        s.len() <= cap,
        cap >= 1,
    ensures
        spec_put(s, cap, policy, clock, item).items.len() <= cap,
{
    if has_key(s, item.key) {
        lemma_key_index_props(s, item.key);
        lemma_touch_keys(s, key_index(s, item.key), policy, clock);
    } else if s.len() < cap {
    } else {
        lemma_evict_index_in_range(s, policy);
    }
}

/// Filling a bucket with fresh, pairwise distinct keys — no more of them than
/// fit — keeps them in arrival order: after `n` puts on an initially empty
/// bucket, position `j` holds the `j`-th inserted key.
pub proof fn lemma_fill_in_arrival_order(
    states: Seq<Seq<Item>>,
    clocks: Seq<u64>,
    cap: usize,
    policy: EvictionPolicy,
    items: Seq<Item>,
    n: int,
)
    requires
        0 <= n <= items.len(),
        n <= cap,
        states.len() >= n + 1,
        clocks.len() >= n + 1,
        states[0] == Seq::<Item>::empty(),
        forall|i: int, j: int| 0 <= i < j < items.len() ==> items[i].key != items[j].key,
        forall|i: int|
            0 <= i < items.len() && i + 1 < states.len() ==> {
                let o = spec_put(states[i], cap, policy, clocks[i], #[trigger] items[i]);
                &&& states[i + 1] == o.items
                &&& clocks[i + 1] == o.clock
            },
    ensures
        states[n].len() == n,
        forall|j: int| 0 <= j < n ==> states[n][j].key == items[j].key,
    decreases n,
{
    if n > 0 {
        lemma_fill_in_arrival_order(states, clocks, cap, policy, items, n - 1);
        let s = states[n - 1];
        let it = items[n - 1];
        assert forall|j: int| 0 <= j < s.len() implies s[j].key != it.key by {
            assert(s[j].key == items[j].key);
            assert(items[j].key != items[n - 1].key);
        }
        assert(!has_key(s, it.key));
        let o = spec_put(s, cap, policy, clocks[n - 1], it);
        assert(o.items == s.push(stamped(it, clocks[n - 1])));
    }
}

/// First in, first out: inserting `cap + 1` items with pairwise distinct keys
/// into an empty Fifo bucket of capacity `cap` makes the first-inserted key
/// unreachable — the overflow evicted it — while the other `cap` keys remain
/// reachable.
pub proof fn lemma_fifo_evicts_first_inserted(
    states: Seq<Seq<Item>>,
    clocks: Seq<u64>,
    cap: usize,
    items: Seq<Item>,
)
    requires
        cap >= 1,
        items.len() == cap + 1,
        states.len() == items.len() + 1,
        clocks.len() == items.len() + 1,
        states[0] == Seq::<Item>::empty(),
        forall|i: int, j: int| 0 <= i < j < items.len() ==> items[i].key != items[j].key,
        forall|i: int|
            0 <= i < items.len() ==> {
                let o = spec_put(states[i], cap, EvictionPolicy::Fifo, clocks[i], #[trigger] items[i]);
                &&& states[i + 1] == o.items
                &&& clocks[i + 1] == o.clock
            },
    ensures
        !has_key(states[cap + 1], items[0].key),
        forall|j: int| 1 <= j <= cap ==> has_key(states[cap + 1], #[trigger] items[j].key),
{
    lemma_fill_in_arrival_order(states, clocks, cap, EvictionPolicy::Fifo, items, cap as int);
    let s = states[cap as int];
    let it = items[cap as int];
    assert forall|j: int| 0 <= j < s.len() implies s[j].key != it.key by {
        assert(s[j].key == items[j].key);
        assert(items[j].key != items[cap as int].key);
    }
    assert(!has_key(s, it.key));
    let t = states[cap + 1];
    assert(t == s.remove(0).push(stamped(it, clocks[cap as int])));
    assert forall|j: int| 0 <= j < t.len() implies t[j].key != items[0].key by {
        if j < cap - 1 {
            assert(t[j] == s[j + 1]);
            assert(s[j + 1].key == items[j + 1].key);
            assert(items[0].key != items[j + 1].key);
        } else {
            assert(t[j] == stamped(it, clocks[cap as int]));
            assert(items[0].key != items[cap as int].key);
        }
    }
    assert forall|j: int| 1 <= j <= cap implies has_key(t, #[trigger] items[j].key) by {
        if j < cap {
            assert(t[j - 1] == s[j]);
            assert(t[j - 1].key == items[j].key);
        } else {
            assert(t[cap - 1].key == items[cap as int].key);
        }
    }
}

/// Last in, first out: the same overflow under Lifo evicts the most recently
/// inserted pre-overflow key — the `cap`-th — while the earlier keys and the
/// overflowing key remain reachable.
pub proof fn lemma_lifo_evicts_last_inserted(
    states: Seq<Seq<Item>>,
    clocks: Seq<u64>,
    cap: usize,
    items: Seq<Item>,
)
    requires
        cap >= 1,
        items.len() == cap + 1,
        states.len() == items.len() + 1,
        clocks.len() == items.len() + 1,
        states[0] == Seq::<Item>::empty(),
        forall|i: int, j: int| 0 <= i < j < items.len() ==> items[i].key != items[j].key,
        forall|i: int|
            0 <= i < items.len() ==> {
                let o = spec_put(states[i], cap, EvictionPolicy::Lifo, clocks[i], #[trigger] items[i]);
                &&& states[i + 1] == o.items
                &&& clocks[i + 1] == o.clock
            },
    ensures
        !has_key(states[cap + 1], items[cap - 1].key),
        forall|j: int|
            0 <= j <= cap && j != cap - 1 ==> has_key(states[cap + 1], #[trigger] items[j].key),
{
    lemma_fill_in_arrival_order(states, clocks, cap, EvictionPolicy::Lifo, items, cap as int);
    let s = states[cap as int];
    let it = items[cap as int];
    assert forall|j: int| 0 <= j < s.len() implies s[j].key != it.key by {
        assert(s[j].key == items[j].key);
        assert(items[j].key != items[cap as int].key);
    }
    assert(!has_key(s, it.key));
    let t = states[cap + 1];
    assert(t == s.remove(cap - 1).push(stamped(it, clocks[cap as int])));
    assert forall|j: int| 0 <= j < t.len() implies t[j].key != items[cap - 1].key by {
        if j < cap - 1 {
            assert(t[j] == s[j]);
            assert(s[j].key == items[j].key);
            assert(items[j].key != items[cap - 1].key);
        } else {
            assert(t[j] == stamped(it, clocks[cap as int]));
            assert(items[cap - 1].key != items[cap as int].key);
        }
    }
    assert forall|j: int|
        0 <= j <= cap && j != cap - 1 implies has_key(t, #[trigger] items[j].key) by {
        if j < cap - 1 {
            assert(t[j] == s[j]);
            assert(t[j].key == items[j].key);
        } else {
            assert(t[cap - 1].key == items[cap as int].key);
        }
    }
}

/// Frequency preference: under Lfu, an entry is never evicted while another
/// entry with a strictly lower hit counter is present. A key touched more
/// often therefore outlives a less-touched one, eviction after eviction.
pub proof fn lemma_lfu_prefers_lower_counter(s: Seq<Item>, a: int, b: int)
    requires
        0 <= a < s.len(),
        0 <= b < s.len(),
        s[b].lfu_counter < s[a].lfu_counter,
    ensures
        evict_index(s, EvictionPolicy::Lfu) != a,
{
    lemma_min_lfu_index_props(s);
}

/// Timestamp preference: under TimestampLRU, an entry is never evicted while
/// another entry with a strictly older last-touch tick is present.
pub proof fn lemma_timestamp_lru_prefers_older(s: Seq<Item>, a: int, b: int)
    requires
        0 <= a < s.len(),
        0 <= b < s.len(),
        s[b].last_touched < s[a].last_touched,
    ensures
        evict_index(s, EvictionPolicy::TimestampLRU) != a,
{
    lemma_min_ts_index_props(s);
}

/// Classic LRU in a two-entry bucket: after a touch of `a` and then a touch
/// of `b`, the bucket reads `[a, b]` — so the next eviction removes `a`, the
/// least recently used, and not `b`.
pub proof fn lemma_classic_lru_evicts_least_recent(
    s0: Seq<Item>,
    a: i64,
    b: i64,
    now0: u64,
    now1: u64,
)
    requires
        s0.len() == 2,
        unique_keys(s0),
        has_key(s0, a),
        has_key(s0, b),
        a != b,
    ensures
        ({
            let s1 = touched_items(s0, key_index(s0, a), EvictionPolicy::ClassicLRU, now0);
            let s2 = touched_items(s1, key_index(s1, b), EvictionPolicy::ClassicLRU, now1);
            &&& s2.len() == 2
            &&& s2[0].key == a
            &&& s2[1].key == b
            &&& s2[evict_index(s2, EvictionPolicy::ClassicLRU)].key == a
        }),
{
    lemma_key_index_props(s0, a);
    lemma_key_index_props(s0, b);
    let ia = key_index(s0, a);
    let s1 = touched_items(s0, ia, EvictionPolicy::ClassicLRU, now0);
    assert(s1 == s0.remove(ia).push(s0[ia]));
    assert(s1.len() == 2);
    assert(s1[1].key == a);
    assert(s1[0].key == b) by {
        if ia == 0 {
            assert(s1[0] == s0[1]);
            assert(s0[1].key != a);
            assert(s0[1].key == b || s0[0].key == b);
        } else {
            assert(s1[0] == s0[0]);
        }
    }
    lemma_key_index_of_first(s1, b, 0);
    let s2 = touched_items(s1, 0, EvictionPolicy::ClassicLRU, now1);
    assert(s2 == s1.remove(0).push(s1[0]));
    assert(s2[0] == s1[1]);
    assert(s2[1] == s1[0]);
}

// ---------------------------------------------------------------------------
// The executable bucket.
// ---------------------------------------------------------------------------

/// A bounded, policy-governed container of items. The capacity and the
/// eviction policy are fixed at construction; the item count never exceeds
/// the capacity.
#[derive(Debug)]
pub struct Bucket {
    items: Vec<Item>,
    max_size: usize,
    eviction_policy: EvictionPolicy,
    /// Logical clock standing in for a wall clock: it advances on every
    /// insertion and on every timestamp-recency touch, so `last_touched`
    /// ticks order the bucket's history.
    clock: u64,
}

impl View for Bucket {
    type V = Seq<Item>;

    closed spec fn view(&self) -> Seq<Item> {
        self.items@
    }
}

impl Bucket {
    /// The fixed entry capacity.
    pub closed spec fn capacity(&self) -> usize {
        self.max_size
    }

    /// The fixed eviction policy.
    pub closed spec fn policy(&self) -> EvictionPolicy {
        self.eviction_policy
    }

    /// The current logical clock.
    pub closed spec fn clock(&self) -> u64 {
        self.clock
    }

    /// Well-formedness: the bucket is within capacity, the capacity is
    /// positive, and keys are unique.
    pub open spec fn wf(&self) -> bool {
        &&& self@.len() <= self.capacity()
        &&& self.capacity() >= 1
        &&& unique_keys(self@)
    }

    /// The configuration (capacity, policy) is unchanged by an operation.
    pub open spec fn same_config(&self, other: &Bucket) -> bool {
        &&& self.capacity() == other.capacity()
        &&& self.policy() == other.policy()
    }

    /// An empty bucket with the given capacity and policy.
    pub fn new(max_size: usize, eviction_policy: EvictionPolicy) -> (r: Self)
        requires
            max_size >= 1,
        ensures
            r@ == Seq::<Item>::empty(),
            r.capacity() == max_size,
            r.policy() == eviction_policy,
            r.clock() == 0,
            r.wf(),
    {
        Bucket { items: Vec::new(), max_size, eviction_policy, clock: 0 }
    }

    /// The position of the first item with `key`, if any.
    pub fn get_position(&self, key: &i64) -> (r: Option<usize>)
        ensures
            r == if has_key(self@, *key) {
                Some(key_index(self@, *key) as usize)
            } else {
                None::<usize>
            },
    {
        let n = self.items.len();
        let mut i: usize = 0;
        while i < n
            invariant
                0 <= i <= n,
                n == self@.len(),
                forall|j: int| 0 <= j < i ==> self@[j].key != *key,
            decreases n - i,
        {
            if self.items[i].key == *key {
                proof {
                    lemma_key_index_of_first(self@, *key, i as int);
                }
                return Some(i);
            }
            i = i + 1;
        }
        proof {
            if has_key(self@, *key) {
                lemma_key_index_props(self@, *key);
            }
        }
        None
    }

    /// The item located at `position`, without any policy side effect.
    pub fn get_from_position(&self, position: usize) -> (r: Option<Item>)
        requires
            position < self@.len(),
        ensures
            r == Some(self@[position as int]),
    {
        Some(self.items[position])
    }

    /// Applies the policy's "on hit" effect to the item at `position` and
    /// returns the (possibly relocated or restamped) item.
    pub fn get_and_update_item_in_position(&mut self, position: usize) -> (r: Item)
        requires
            old(self).wf(),
            position < old(self)@.len(),
        ensures
            final(self)@ == touched_items(old(self)@, position as int, old(self).policy(), old(self).clock()),
            r == touched_item(old(self)@[position as int], old(self).policy(), old(self).clock()),
            final(self).clock() == touched_clock(old(self).clock(), old(self).policy()),
            old(self).same_config(final(self)),
            final(self).wf(),
    {
        proof {
            lemma_touch_keys(self@, position as int, self.policy(), self.clock());
        }
        match self.eviction_policy {
            EvictionPolicy::Fifo | EvictionPolicy::Lifo => self.items[position],
            EvictionPolicy::ClassicLRU => {
                let item = self.items.remove(position);
                self.items.push(item);
                item
            },
            EvictionPolicy::TimestampLRU => {
                let it = self.items[position];
                let updated = Item { last_touched: self.clock, ..it };
                self.items[position] = updated;
                if self.clock < u64::MAX {
                    self.clock = self.clock + 1;
                }
                updated
            },
            EvictionPolicy::Lfu => {
                let it = self.items[position];
                let updated = Item {
                    lfu_counter: if it.lfu_counter < usize::MAX {
                        it.lfu_counter + 1
                    } else {
                        it.lfu_counter
                    },
                    ..it
                };
                self.items[position] = updated;
                updated
            },
        }
    }

    /// Looks `key` up and, on a hit, applies the policy's "on hit" effect.
    pub fn get_and_update_item(&mut self, key: &i64) -> (r: Option<Item>)
        requires
            old(self).wf(),
        ensures
            !has_key(old(self)@, *key) ==> r is None && *final(self) == *old(self),
            has_key(old(self)@, *key) ==> {
                let i = key_index(old(self)@, *key);
                &&& r == Some(touched_item(old(self)@[i], old(self).policy(), old(self).clock()))
                &&& final(self)@ == touched_items(old(self)@, i, old(self).policy(), old(self).clock())
                &&& final(self).clock() == touched_clock(old(self).clock(), old(self).policy())
            },
            old(self).same_config(final(self)),
            final(self).wf(),
    {
        match self.get_position(key) {
            Some(position) => {
                proof {
                    lemma_key_index_props(self@, *key);
                }
                Some(self.get_and_update_item_in_position(position))
            },
            None => None,
        }
    }

    /// Removes the item carrying `key`, if present; a no-op otherwise.
    pub fn remove(&mut self, key: &i64)
        requires
            old(self).wf(),
        ensures
            !has_key(old(self)@, *key) ==> *final(self) == *old(self),
            has_key(old(self)@, *key) ==> final(self)@ == old(self)@.remove(
                key_index(old(self)@, *key),
            ),
            final(self).clock() == old(self).clock(),
            old(self).same_config(final(self)),
            final(self).wf(),
            !has_key(final(self)@, *key),
            forall|k: i64| k != *key ==> has_key(final(self)@, k) == has_key(old(self)@, k),
            forall|k: i64|
                k != *key && has_key(old(self)@, k) ==> item_of(final(self)@, k) == item_of(
                    old(self)@,
                    k,
                ),
    {
        match self.get_position(key) {
            Some(position) => {
                proof {
                    lemma_key_index_props(self@, *key);
                    lemma_remove_keys(self@, position as int);
                }
                self.items.remove(position);
            },
            None => {},
        }
    }

    /// Removes and returns the policy's eviction choice; a no-op on an empty
    /// bucket.
    pub fn evict_item(&mut self) -> (r: Option<Item>)
        requires
            old(self).wf(),
        ensures
            old(self)@.len() == 0 ==> r is None && *final(self) == *old(self),
            old(self)@.len() > 0 ==> {
                let v = evict_index(old(self)@, old(self).policy());
                &&& r == Some(old(self)@[v])
                &&& final(self)@ == old(self)@.remove(v)
            },
            final(self).clock() == old(self).clock(),
            old(self).same_config(final(self)),
            final(self).wf(),
    {
        let n = self.items.len();
        if n == 0 {
            return None;
        }
        proof {
            lemma_evict_index_in_range(self@, self.policy());
            lemma_remove_keys(self@, evict_index(self@, self.policy()));
        }
        match self.eviction_policy {
            EvictionPolicy::Fifo | EvictionPolicy::ClassicLRU => Some(self.items.remove(0)),
            EvictionPolicy::Lifo => self.items.pop(),
            EvictionPolicy::Lfu => {
                let mut min_index: usize = 0;
                let mut i: usize = 1;
                while i < n
                    invariant
                        1 <= i <= n,
                        min_index < i,
                        n == self@.len(),
                        min_index as int == min_lfu_index(self@.take(i as int)),
                        forall|j: int| 0 <= j < i ==> self@.take(i as int)[j] == self@[j],
                    decreases n - i,
                {
                    proof {
                        assert(self@.take(i as int + 1).drop_last() =~= self@.take(i as int));
                        assert(self@.take(i as int + 1).last() == self@[i as int]);
                    }
                    if self.items[i].lfu_counter < self.items[min_index].lfu_counter {
                        min_index = i;
                    }
                    i = i + 1;
                }
                proof {
                    assert(self@.take(n as int) =~= self@);
                }
                Some(self.items.remove(min_index))
            },
            EvictionPolicy::TimestampLRU => {
                let mut min_index: usize = 0;
                let mut i: usize = 1;
                while i < n
                    invariant
                        1 <= i <= n,
                        min_index < i,
                        n == self@.len(),
                        min_index as int == min_ts_index(self@.take(i as int)),
                        forall|j: int| 0 <= j < i ==> self@.take(i as int)[j] == self@[j],
                    decreases n - i,
                {
                    proof {
                        assert(self@.take(i as int + 1).drop_last() =~= self@.take(i as int));
                        assert(self@.take(i as int + 1).last() == self@[i as int]);
                    }
                    if self.items[i].last_touched < self.items[min_index].last_touched {
                        min_index = i;
                    }
                    i = i + 1;
                }
                proof {
                    assert(self@.take(n as int) =~= self@);
                }
                Some(self.items.remove(min_index))
            },
        }
    }

    /// Puts an item into the bucket, per `spec_put`: a duplicate key is a
    /// policy touch of the existing slot (the stored value is kept — the
    /// documented no-overwrite contract); a fresh key is appended at the
    /// tail, displacing the policy's eviction choice if the bucket is full.
    /// Returns the bucket-resident item and the displaced item, if any.
    pub fn put(&mut self, item: Item) -> (r: (Item, Option<Item>))
        requires
            old(self).wf(),
        ensures
            ({
                let o = spec_put(
                    old(self)@,
                    old(self).capacity(),
                    old(self).policy(),
                    old(self).clock(),
                    item,
                );
                &&& final(self)@ == o.items
                &&& r.0 == o.resident
                &&& r.1 == o.evicted
                &&& final(self).clock() == o.clock
            }),
            old(self).same_config(final(self)),
            final(self).wf(),
    {
        match self.get_position(&item.key) {
            Some(position) => {
                proof {
                    lemma_key_index_props(self@, item.key);
                }
                let pushed = self.get_and_update_item_in_position(position);
                (pushed, None)
            },
            None => {
                let evicted = if self.is_full() {
                    self.evict_item()
                } else {
                    None
                };
                proof {
                    if old(self)@.len() >= old(self).capacity() {
                        lemma_evict_index_in_range(old(self)@, old(self).policy());
                        lemma_remove_keys(old(self)@, evict_index(old(self)@, old(self).policy()));
                    }
                    lemma_push_keys(self@, stamped(item, self.clock()));
                }
                let pushed = Item { last_touched: self.clock, ..item };
                self.items.push(pushed);
                if self.clock < u64::MAX {
                    self.clock = self.clock + 1;
                }
                (pushed, evicted)
            },
        }
    }

    /// Whether the bucket is at capacity.
    pub fn is_full(&self) -> (r: bool)
        ensures
            r == (self@.len() == self.capacity()),
    {
        self.size() == self.max_size
    }

    /// The current number of items.
    pub fn size(&self) -> (r: usize)
        ensures
            r == self@.len(),
    {
        self.items.len()
    }
}

} // verus!
