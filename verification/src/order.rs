//! Stable ordering by an integer key.
//!
//! Guards run in ascending order of priority, and detections are masked in
//! descending order of position. Both orders are stable, and both are built
//! by inserting each item, in the order given, behind the items whose key is
//! not greater. This module defines that order and proves what it is.
use vstd::prelude::*;

verus! {

/// The first position of `sorted` whose key is greater than `key`, or the
/// length of `sorted` when there is none.
pub open spec fn first_greater(sorted: Seq<u64>, key: u64) -> int
    decreases sorted.len(),
{
    if sorted.len() == 0 {
        0
    } else if sorted[0] > key {
        0
    } else {
        1 + first_greater(sorted.drop_first(), key)
    }
}

/// The keys of `keys` in the order `perm`.
pub open spec fn keys_in_order(keys: Seq<u64>, perm: Seq<int>) -> Seq<u64> {
    Seq::new(perm.len(), |k: int| keys[perm[k]])
}

/// The positions of `keys` in stable ascending order of key: the result
/// lists each position `0..keys.len()` once; keys do not decrease along it;
/// positions with equal keys stay in ascending order.
pub open spec fn stable_order(keys: Seq<u64>) -> Seq<int>
    decreases keys.len(),
{
    if keys.len() == 0 {
        Seq::empty()
    } else {
        let before = stable_order(keys.drop_last());
        let at = first_greater(keys_in_order(keys, before), keys.last());
        before.insert(at, keys.len() - 1)
    }
}

/// The items of `items` in the order `perm`.
pub open spec fn arrange<T>(items: Seq<T>, perm: Seq<int>) -> Seq<T> {
    Seq::new(perm.len(), |k: int| items[perm[k]])
}

/// Whether position `i` comes before position `j` in stable ascending order.
pub open spec fn comes_before(keys: Seq<u64>, i: int, j: int) -> bool {
    keys[i] < keys[j] || (keys[i] == keys[j] && i < j)
}

/// The first position of a greater key lies in range, holds a greater key if it
/// is a position, and no position before it does.
pub proof fn lemma_first_greater(sorted: Seq<u64>, key: u64)
    ensures
        0 <= first_greater(sorted, key) <= sorted.len(),
        forall|k: int| 0 <= k < first_greater(sorted, key) ==> sorted[k] <= key,
        first_greater(sorted, key) < sorted.len() ==> sorted[first_greater(sorted, key)] > key,
    decreases sorted.len(),
{
    if sorted.len() != 0 && sorted[0] <= key {
        let rest = sorted.drop_first();
        lemma_first_greater(rest, key);
        let p = first_greater(rest, key);
        assert forall|k: int| 0 <= k < 1 + p implies sorted[k] <= key by {
            if k > 0 {
                assert(sorted[k] == rest[k - 1]);
            }
        }
        if p < rest.len() {
            assert(sorted[1 + p] == rest[p]);
        }
    }
}

/// A position before which no key is greater, and which holds a greater key
/// or is the end, is the first position of a greater key.
pub proof fn lemma_first_greater_is(sorted: Seq<u64>, key: u64, p: int)
    requires
        0 <= p <= sorted.len(),
        forall|k: int| 0 <= k < p ==> sorted[k] <= key,
        p < sorted.len() ==> sorted[p] > key,
    ensures
        first_greater(sorted, key) == p,
{
    lemma_first_greater(sorted, key);
    let q = first_greater(sorted, key);
    if q < p {
        assert(sorted[q] <= key);
    } else if p < q {
        assert(sorted[p] <= key);
    }
}

/// Stable order lists every position once, in ascending order of key, and
/// keeps positions with equal keys in the order in which they were given.
pub proof fn lemma_stable_order(keys: Seq<u64>)
    ensures
        stable_order(keys).len() == keys.len(),
        forall|k: int|
            0 <= k < keys.len() ==> 0 <= #[trigger] stable_order(keys)[k] < keys.len(),
        forall|a: int, b: int|
            0 <= a < b < keys.len() ==> comes_before(
                keys,
                #[trigger] stable_order(keys)[a],
                #[trigger] stable_order(keys)[b],
            ),
    decreases keys.len(),
{
    if keys.len() != 0 {
        let shorter = keys.drop_last();
        let n = keys.len() - 1;
        lemma_stable_order(shorter);
        let before = stable_order(shorter);
        let sorted = keys_in_order(keys, before);
        let key = keys.last();
        let at = first_greater(sorted, key);
        lemma_first_greater(sorted, key);
        let perm = stable_order(keys);
        assert(perm == before.insert(at, n));
        assert forall|k: int| 0 <= k < keys.len() implies 0 <= #[trigger] perm[k] < keys.len() by {
            if k < at {
                assert(perm[k] == before[k]);
            } else if k > at {
                assert(perm[k] == before[k - 1]);
            }
        }
        assert forall|a: int, b: int| 0 <= a < b < keys.len() implies comes_before(
            keys,
            #[trigger] perm[a],
            #[trigger] perm[b],
        ) by {
            // Keys of the shorter list, read through `keys`.
            assert(forall|k: int| 0 <= k < n ==> shorter[k] == keys[k]);
            if b < at {
                assert(perm[a] == before[a] && perm[b] == before[b]);
                assert(comes_before(shorter, before[a], before[b]));
            } else if a > at {
                assert(perm[a] == before[a - 1] && perm[b] == before[b - 1]);
                assert(comes_before(shorter, before[a - 1], before[b - 1]));
            } else if a == at {
                // The new position before an older one with a greater key.
                assert(perm[a] == n && perm[b] == before[b - 1]);
                assert(sorted[at] > key);
                if at < b - 1 {
                    assert(comes_before(shorter, before[at], before[b - 1]));
                }
                assert(sorted[at] == keys[before[at]]);
                assert(keys[before[b - 1]] > key);
            } else if b == at {
                // An older position with a key not greater before the new one.
                assert(perm[a] == before[a] && perm[b] == n);
                assert(sorted[a] <= key);
                assert(sorted[a] == keys[before[a]]);
            } else {
                assert(perm[a] == before[a] && perm[b] == before[b - 1]);
                assert(comes_before(shorter, before[a], before[b - 1]));
            }
        }
    }
}

/// Inserting the last item behind the sorted items whose key is not greater
/// keeps the list in stable order.
pub proof fn lemma_insert_in_order<T>(
    items: Seq<T>,
    keys: Seq<u64>,
    sorted: Seq<T>,
    sorted_keys: Seq<u64>,
    pos: int,
)
    requires
        items.len() == keys.len(),
        items.len() > 0,
        sorted == arrange(items.drop_last(), stable_order(keys.drop_last())),
        sorted_keys.len() == sorted.len(),
        forall|k: int|
            0 <= k < sorted.len() ==> #[trigger] sorted_keys[k] == keys[stable_order(
                keys.drop_last(),
            )[k]],
        0 <= pos <= sorted.len(),
        forall|k: int| 0 <= k < pos ==> sorted_keys[k] <= keys.last(),
        pos < sorted.len() ==> sorted_keys[pos] > keys.last(),
    ensures
        sorted.insert(pos, items.last()) == arrange(items, stable_order(keys)),
{
    let before = stable_order(keys.drop_last());
    lemma_stable_order(keys.drop_last());
    let in_order = keys_in_order(keys, before);
    assert(in_order =~= sorted_keys);
    lemma_first_greater_is(in_order, keys.last(), pos);
    let perm = stable_order(keys);
    assert(perm == before.insert(pos, keys.len() - 1));
    let inserted = sorted.insert(pos, items.last());
    let arranged = arrange(items, perm);
    assert(inserted.len() == arranged.len());
    assert forall|k: int| 0 <= k < inserted.len() implies inserted[k] == arranged[k] by {
        if k < pos {
            assert(perm[k] == before[k]);
            assert(items[before[k]] == items.drop_last()[before[k]]);
        } else if k > pos {
            assert(perm[k] == before[k - 1]);
            assert(items[before[k - 1]] == items.drop_last()[before[k - 1]]);
        }
    }
    assert(inserted =~= arranged);
}

/// The first position of `s` whose item satisfies `p`, or the length of `s`
/// when there is none.
pub open spec fn first_where<T>(s: Seq<T>, p: spec_fn(T) -> bool) -> int
    decreases s.len(),
{
    if s.len() == 0 {
        0
    } else if p(s[0]) {
        0
    } else {
        1 + first_where(s.drop_first(), p)
    }
}

/// The first position of an item that satisfies `p` lies in range, holds such
/// an item if it is a position, and no position before it does.
pub proof fn lemma_first_where<T>(s: Seq<T>, p: spec_fn(T) -> bool)
    ensures
        0 <= first_where(s, p) <= s.len(),
        first_where(s, p) < s.len() ==> p(s[first_where(s, p)]),
        forall|i: int| 0 <= i < first_where(s, p) ==> !p(#[trigger] s[i]),
    decreases s.len(),
{
    if s.len() != 0 && !p(s[0]) {
        let rest = s.drop_first();
        lemma_first_where(rest, p);
        let q = first_where(rest, p);
        assert forall|i: int| 0 <= i < 1 + q implies !p(#[trigger] s[i]) by {
            if i > 0 {
                assert(s[i] == rest[i - 1]);
            }
        }
        if q < rest.len() {
            assert(s[1 + q] == rest[q]);
        }
    }
}

/// A position before which no item satisfies `p`, and which holds an item
/// that does or is the end, is the first position of such an item.
pub proof fn lemma_first_where_is<T>(s: Seq<T>, p: spec_fn(T) -> bool, at: int)
    requires
        0 <= at <= s.len(),
        forall|i: int| 0 <= i < at ==> !p(#[trigger] s[i]),
        at < s.len() ==> p(s[at]),
    ensures
        first_where(s, p) == at,
{
    lemma_first_where(s, p);
    let q = first_where(s, p);
    if q < at {
        assert(!p(s[q]));
    } else if at < q {
        assert(!p(s[at]));
    }
}

} // verus!
