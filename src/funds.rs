//! The sum of the amounts that a map of transactions records.
use vstd::prelude::*;

verus! {

/// The sum of the values of a finite map.
pub open spec fn sum_values(m: Map<u64, u64>) -> nat
    decreases m.dom().len(),
{
    if m.dom().finite() && m.dom().len() > 0 {
        let k = m.dom().choose();
        (m[k] + sum_values(m.remove(k))) as nat
    } else {
        0
    }
}

/// Taking one entry out of a finite map takes its value out of the sum.
pub proof fn lemma_sum_remove(m: Map<u64, u64>, k: u64)
    requires
        m.dom().finite(),
        m.dom().contains(k),
    ensures
        sum_values(m) == m[k] + sum_values(m.remove(k)),
    decreases m.dom().len(),
{
    assert(m.dom().len() > 0);
    let j = m.dom().choose();
    if j != k {
        let mj = m.remove(j);
        let mk = m.remove(k);
        lemma_sum_remove(mj, k);
        lemma_sum_remove(mk, j);
        assert(mj.remove(k) =~= mk.remove(j));
    }
}

/// Adding an entry under a new key to a finite map adds its value to the sum.
pub proof fn lemma_sum_insert(m: Map<u64, u64>, k: u64, v: u64)
    requires
        m.dom().finite(),
        !m.dom().contains(k),
    ensures
        sum_values(m.insert(k, v)) == v + sum_values(m),
{
    lemma_sum_remove(m.insert(k, v), k);
    assert(m.insert(k, v).remove(k) =~= m);
}

/// Every value of a finite map is at most the sum.
pub proof fn lemma_sum_bounds_value(m: Map<u64, u64>, k: u64)
    requires
        m.dom().finite(),
        m.dom().contains(k),
    ensures
        m[k] <= sum_values(m),
{
    lemma_sum_remove(m, k);
}

/// The empty map sums to zero.
pub proof fn lemma_sum_empty()
    ensures
        sum_values(Map::<u64, u64>::empty()) == 0,
{
    assert(Map::<u64, u64>::empty().dom().len() == 0);
}

} // verus!
