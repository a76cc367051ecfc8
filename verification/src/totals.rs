//! Sums over tables.

use vstd::prelude::*;

verus! {

/// The sum of the numbers of a table.
pub open spec fn total(m: Map<Seq<char>, nat>) -> nat
    decreases m.dom().len(),
{
    if m.dom().finite() && m.dom().len() > 0 {
        let k = m.dom().choose();
        m[k] + total(m.remove(k))
    } else {
        0
    }
}

/// The sum of a sequence of numbers.
pub open spec fn sum(s: Seq<nat>) -> nat
    decreases s.len(),
{
    if s.len() == 0 {
        0
    } else {
        sum(s.drop_last()) + s.last()
    }
}

/// Any entry may be counted first.
pub proof fn lemma_total_remove(m: Map<Seq<char>, nat>, k: Seq<char>)
    requires
        m.dom().finite(),
        m.contains_key(k),
    ensures
        total(m) == m[k] + total(m.remove(k)),
    decreases m.dom().len(),
{
    let c = m.dom().choose();
    assert(m.dom().len() > 0) by {
        if m.dom().len() == 0 {
            assert(m.dom() =~= Set::<Seq<char>>::empty());
        }
    }
    if c != k {
        lemma_total_remove(m.remove(c), k);
        lemma_total_remove(m.remove(k), c);
        assert(m.remove(c).remove(k) =~= m.remove(k).remove(c));
    }
}

/// A list that names every entry once gives the sum.
pub proof fn lemma_total_is_sum(m: Map<Seq<char>, nat>, order: Seq<Seq<char>>)
    requires
        order.no_duplicates(),
        order.to_set() == m.dom(),
    ensures
        total(m) == sum(Seq::new(order.len(), |i: int| m[order[i]])),
    decreases order.len(),
{
    vstd::seq_lib::seq_to_set_is_finite(order);
    let numbers = Seq::new(order.len(), |i: int| m[order[i]]);
    if order.len() == 0 {
        assert(m.dom() =~= Set::<Seq<char>>::empty());
    } else {
        let last = order.last();
        let rest = order.drop_last();
        let smaller = m.remove(last);
        assert(order.contains(last));
        assert(m.contains_key(last)) by {
            assert(order.to_set().contains(last));
        }
        assert(rest.to_set() =~= smaller.dom()) by {
            assert forall|k: Seq<char>| #[trigger] rest.to_set().contains(k) <==> smaller.dom().contains(
                k,
            ) by {
                if rest.contains(k) {
                    let i = choose|i: int| 0 <= i < rest.len() && rest[i] == k;
                    assert(order[i] == k);
                    assert(order.to_set().contains(k));
                }
                if smaller.dom().contains(k) {
                    assert(order.to_set().contains(k));
                    let i = choose|i: int| 0 <= i < order.len() && order[i] == k;
                    assert(rest[i] == k);
                }
            }
        }
        lemma_total_remove(m, last);
        lemma_total_is_sum(smaller, rest);
        assert(numbers.drop_last() =~= Seq::new(rest.len(), |i: int| smaller[rest[i]]));
    }
}

/// The number, cut at the largest that fits.
pub open spec fn fitted(n: nat) -> usize {
    if n <= usize::MAX {
        n as usize
    } else {
        usize::MAX
    }
}

/// Adds a number, cutting the sum at the largest that fits.
pub(crate) fn add_fitted(a: usize, n: usize, Ghost(exact): Ghost<nat>) -> (r: usize)
    requires
        a == fitted(exact),
    ensures
        r == fitted(exact + n as nat),
{
    if a > usize::MAX - n {
        usize::MAX
    } else {
        a + n
    }
}

/// A table without entries adds up to nothing, and one more entry adds its number.
pub proof fn law_total_grows_by_each_entry(m: Map<Seq<char>, nat>, k: Seq<char>, n: nat)
    requires
        m.dom().finite(),
        !m.contains_key(k),
    ensures
        total(Map::empty()) == 0,
        total(m.insert(k, n)) == total(m) + n,
{
    lemma_total_remove(m.insert(k, n), k);
    assert(m.insert(k, n).remove(k) =~= m);
}

/// A sum that is too large is cut at the largest number there is.
pub proof fn law_sums_are_cut_at_the_largest_number(n: nat)
    ensures
        fitted(n) <= n,
        n <= usize::MAX ==> fitted(n) == n,
        n > usize::MAX ==> fitted(n) == usize::MAX,
{
}

} // verus!
