//! The sum of the values of a finite map, and how it moves when one entry does.

use vstd::prelude::*;

verus! {

/// Sum of all values of `m`. Meaningful for maps with a finite domain; the
/// empty map sums to zero.
pub open spec fn sum_values<K>(m: Map<K, int>) -> int
    decreases m.dom().len(),
    when m.dom().finite()
{
    if m.dom().len() == 0 {
        0
    } else {
        let k = m.dom().choose();
        m[k] + sum_values(m.remove(k))
    }
}

/// The empty map sums to zero.
pub proof fn lemma_sum_empty<K>()
    ensures
        sum_values(Map::<K, int>::empty()) == 0,
{
    assert(Map::<K, int>::empty().dom() =~= Set::<K>::empty());
}

/// Any one entry can be split off the sum: the order in which entries are
/// added up does not matter.
pub proof fn lemma_sum_split<K>(m: Map<K, int>, key: K)
    requires
        m.dom().finite(),
        m.dom().contains(key),
    ensures
        sum_values(m) == m[key] + sum_values(m.remove(key)),
    decreases m.dom().len(),
{
    let first = m.dom().choose();
    if first != key {
        let rest = m.remove(first);
        lemma_sum_split(rest, key);
        let other = m.remove(key);
        lemma_sum_split(other, first);
        assert(rest.remove(key) =~= other.remove(first));
    }
}

/// Writing `value` under `key` replaces whatever `key` contributed before.
pub proof fn lemma_sum_insert<K>(m: Map<K, int>, key: K, value: int)
    requires
        m.dom().finite(),
    ensures
        sum_values(m.insert(key, value)) == sum_values(m) + value - (if m.dom().contains(key) {
            m[key]
        } else {
            0
        }),
{
    let after = m.insert(key, value);
    lemma_sum_split(after, key);
    assert(after.remove(key) =~= m.remove(key));
    if m.dom().contains(key) {
        lemma_sum_split(m, key);
    } else {
        assert(m.remove(key) =~= m);
    }
}

/// A map without negative values has a sum that is at least each value.
pub proof fn lemma_sum_bounds_each<K>(m: Map<K, int>, key: K)
    requires
        m.dom().finite(),
        m.dom().contains(key),
        forall|k: K| m.dom().contains(k) ==> #[trigger] m[k] >= 0,
    ensures
        0 <= m[key] <= sum_values(m),
{
    lemma_sum_split(m, key);
    lemma_sum_nonnegative(m.remove(key));
}

/// A map without negative values has a sum that is not negative.
pub proof fn lemma_sum_nonnegative<K>(m: Map<K, int>)
    requires
        m.dom().finite(),
        forall|k: K| m.dom().contains(k) ==> #[trigger] m[k] >= 0,
    ensures
        sum_values(m) >= 0,
    decreases m.dom().len(),
{
    if m.dom().len() != 0 {
        let k = m.dom().choose();
        lemma_sum_nonnegative(m.remove(k));
    }
}

} // verus!
