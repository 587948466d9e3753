//! The consensus value of a voting round: the median element of the results.
use vstd::prelude::*;
use vstd::relations::{sorted_by, total_ordering};
use vstd::seq_lib::lemma_sorted_unique;

verus! {

broadcast use vstd::seq_lib::group_to_multiset_ensures;

/// The ascending order on decimal atomics.
pub open spec fn ascending() -> spec_fn(u128, u128) -> bool {
    |a: u128, b: u128| a <= b
}

/// The results sorted in ascending order.
pub open spec fn sorted_results(results: Seq<u128>) -> Seq<u128> {
    results.sort_by(ascending())
}

/// The consensus value of `n` results: the element at index `⌊n/2⌋` of the
/// results sorted ascending, with no interpolation between middle elements.
pub open spec fn spec_consensus(results: Seq<u128>) -> u128 {
    sorted_results(results)[(results.len() / 2) as int]
}

/// Each element is at most every later one.
pub open spec fn is_ascending(s: Seq<u128>) -> bool {
    forall|i: int, j: int| 0 <= i < j < s.len() ==> s[i] <= s[j]
}

proof fn lemma_ascending_total()
    ensures
        total_ordering(ascending()),
{
}

/// A sorted permutation of the results is the sorted sequence of them.
proof fn lemma_sorted_is_sort(results: Seq<u128>, s: Seq<u128>)
    requires
        is_ascending(s),
        s.to_multiset() == results.to_multiset(),
    ensures
        s == sorted_results(results),
{
    lemma_ascending_total();
    results.lemma_sort_by_ensures(ascending());
    assert(sorted_by(s, ascending())) by {
        assert forall|i: int, j: int| 0 <= i < j < s.len() implies #[trigger] ascending()(
            s[i],
            s[j],
        ) by {}
    }
    lemma_sorted_unique(s, sorted_results(results), ascending());
}

/// The results in ascending order, by insertion.
pub fn sort_ascending(results: &Vec<u128>) -> (r: Vec<u128>)
    ensures
        r@ == sorted_results(results@),
{
    let n = results.len();
    let mut out: Vec<u128> = Vec::new();
    let mut i: usize = 0;
    while i < n
        invariant
            n == results@.len(),
            i <= n,
            out@.len() == i,
            is_ascending(out@),
            out@.to_multiset() == results@.subrange(0, i as int).to_multiset(),
        decreases n - i,
    {
        let x = results[i];
        let mut p: usize = 0;
        while p < out.len() && out[p] <= x
            invariant
                p <= out@.len(),
                forall|j: int| 0 <= j < p ==> out@[j] <= x,
            decreases out@.len() - p,
        {
            p = p + 1;
        }
        let ghost prev = out@;
        proof {
            assert forall|j: int| p <= j < prev.len() implies x < prev[j] by {
                assert(prev[p as int] > x);
            }
        }
        out.insert(p, x);
        assert(out@ == prev.insert(p as int, x));
        assert(results@.subrange(0, i as int + 1) =~= results@.subrange(0, i as int).push(x));
        i = i + 1;
    }
    assert(results@.subrange(0, n as int) =~= results@);
    proof {
        lemma_sorted_is_sort(results@, out@);
    }
    out
}

/// The consensus value of a non-empty set of results.
pub fn consensus_value(results: &Vec<u128>) -> (r: u128)
    requires
        results@.len() > 0,
    ensures
        r == spec_consensus(results@),
{
    let sorted = sort_ascending(results);
    proof {
        results@.lemma_sort_by_ensures(ascending());
        assert(sorted@.len() == results@.len()) by {
            assert(sorted@.to_multiset().len() == results@.to_multiset().len());
        }
    }
    sorted[results.len() / 2]
}

} // verus!
