//! Positions in sequences: where a key first stands, where a flag is set,
//! and what it takes for keys to be distinct.

use vstd::prelude::*;

verus! {

/// The positions at which `flags` holds `true`, in rising order.
pub open spec fn positions(flags: Seq<bool>) -> Seq<usize>
    decreases flags.len(),
{
    if flags.len() == 0 {
        Seq::empty()
    } else {
        let before = positions(flags.drop_last());
        if flags.last() {
            before.push((flags.len() - 1) as usize)
        } else {
            before
        }
    }
}

/// `i` is the first position at which `keys` holds `k`.
pub open spec fn is_first<K>(keys: Seq<K>, k: K, i: int) -> bool {
    0 <= i < keys.len() && keys[i] == k && forall|j: int| 0 <= j < i ==> keys[j] != k
}

/// The first position at which `keys` holds `k`, if it holds it.
pub open spec fn first_index<K>(keys: Seq<K>, k: K) -> Option<int> {
    if exists|i: int| is_first(keys, k, i) {
        Some(choose|i: int| is_first(keys, k, i))
    } else {
        None
    }
}

/// No key occurs twice.
pub open spec fn distinct<K>(keys: Seq<K>) -> bool {
    forall|i: int, j: int| 0 <= i < j < keys.len() ==> keys[i] != keys[j]
}

/// Every position named is below `bound`.
pub open spec fn all_below(keys: Seq<usize>, bound: int) -> bool {
    forall|k: int| 0 <= k < keys.len() ==> keys[k] < bound
}

/// For each position, whether `keys` holds `k` there.
pub open spec fn hits<K>(keys: Seq<K>, k: K) -> Seq<bool> {
    Seq::new(keys.len(), |i: int| keys[i] == k)
}

/// The positions at which `keys` holds `k`, in rising order.
pub open spec fn occurrences<K>(keys: Seq<K>, k: K) -> Seq<usize> {
    positions(hits(keys, k))
}

/// The positions are in range, rise, and are exactly those flagged.
pub proof fn lemma_positions(flags: Seq<bool>)
    requires
        flags.len() <= usize::MAX,
    ensures
        positions(flags).len() <= flags.len(),
        forall|k: int|
            0 <= k < positions(flags).len() ==> (#[trigger] positions(flags)[k]) < flags.len()
                && flags[positions(flags)[k] as int],
        forall|i: int|
            0 <= i < flags.len() && #[trigger] flags[i] ==> exists|k: int|
                0 <= k < positions(flags).len() && positions(flags)[k] == i,
        forall|k: int, l: int|
            0 <= k < l < positions(flags).len() ==> positions(flags)[k] < positions(flags)[l],
    decreases flags.len(),
{
    if flags.len() > 0 {
        let before_flags = flags.drop_last();
        lemma_positions(before_flags);
        let before = positions(before_flags);
        let all = positions(flags);
        assert forall|i: int| 0 <= i < flags.len() && #[trigger] flags[i] implies exists|k: int|
            0 <= k < all.len() && all[k] == i by {
            if i < flags.len() - 1 {
                assert(before_flags[i]);
                let k = choose|k: int| 0 <= k < before.len() && before[k] == i;
                assert(all[k] == i);
            } else {
                assert(all[all.len() - 1] == i);
            }
        }
        assert forall|k: int, l: int| 0 <= k < l < all.len() implies all[k] < all[l] by {
            if l < before.len() {
                assert(before[k] < before[l]);
            } else {
                assert(before[k] < before_flags.len());
            }
        }
    }
}

/// The first position holds the key and nothing before it does; where
/// there is none, nothing holds the key.
pub proof fn lemma_first_index<K>(keys: Seq<K>, k: K)
    ensures
        match first_index(keys, k) {
            Some(i) => is_first(keys, k, i),
            None => forall|j: int| 0 <= j < keys.len() ==> keys[j] != k,
        },
    decreases keys.len(),
{
    if first_index(keys, k).is_none() {
        assert forall|j: int| 0 <= j < keys.len() implies keys[j] != k by {
            if keys[j] == k {
                lemma_first_exists(keys, k, j);
            }
        }
    }
}

/// A key that occurs has a first position.
pub proof fn lemma_first_exists<K>(keys: Seq<K>, k: K, j: int)
    requires
        0 <= j < keys.len(),
        keys[j] == k,
    ensures
        exists|i: int| is_first(keys, k, i),
    decreases j,
{
    if exists|m: int| 0 <= m < j && keys[m] == k {
        let m = choose|m: int| 0 <= m < j && keys[m] == k;
        lemma_first_exists(keys, k, m);
    } else {
        assert(is_first(keys, k, j));
    }
}

/// The first position is the only one that is first.
pub proof fn lemma_first_unique<K>(keys: Seq<K>, k: K, i: int)
    requires
        is_first(keys, k, i),
    ensures
        first_index(keys, k) == Some(i),
{
    let w = choose|w: int| is_first(keys, k, w);
    assert(w == i);
}

/// The matching positions lie in range.
pub proof fn lemma_occurrences_below<K>(keys: Seq<K>, k: K)
    requires
        keys.len() <= usize::MAX,
    ensures
        all_below(occurrences(keys, k), keys.len() as int),
{
    lemma_positions(hits(keys, k));
}

/// The items at the positions `at`, in that order.
pub open spec fn pick<T>(items: Seq<T>, at: Seq<usize>) -> Seq<T> {
    Seq::new(at.len(), |k: int| items[at[k] as int])
}

/// Taking a key out of distinct keys leaves distinct keys.
pub proof fn lemma_distinct_remove<K>(keys: Seq<K>, i: int)
    requires
        distinct(keys),
        0 <= i < keys.len(),
    ensures
        distinct(keys.remove(i)),
{
    let after = keys.remove(i);
    assert forall|a: int, b: int| 0 <= a < b < after.len() implies after[a] != after[b] by {
        let a0 = if a < i {
            a
        } else {
            a + 1
        };
        let b0 = if b < i {
            b
        } else {
            b + 1
        };
        assert(after[a] == keys[a0]);
        assert(after[b] == keys[b0]);
    }
}

/// Distinct keys stay distinct with a key that is not among them.
pub proof fn lemma_distinct_push<K>(keys: Seq<K>, k: K)
    requires
        distinct(keys),
        forall|j: int| 0 <= j < keys.len() ==> keys[j] != k,
    ensures
        distinct(keys.push(k)),
{
}

/// Where one flag only is set, its position is the only one.
pub proof fn lemma_single_position(flags: Seq<bool>, q: int)
    requires
        flags.len() <= usize::MAX,
        0 <= q < flags.len(),
        flags[q],
        forall|i: int| 0 <= i < flags.len() && i != q ==> !#[trigger] flags[i],
    ensures
        positions(flags) == seq![q as usize],
{
    lemma_positions(flags);
    let all = positions(flags);
    assert(all.len() >= 1);
    if all.len() > 1 {
        assert(all[0] < all[1]);
        assert(flags[all[0] as int]);
        assert(flags[all[1] as int]);
    }
    assert(flags[all[0] as int]);
    assert(all =~= seq![q as usize]);
}

} // verus!
