//! The order in which traces are listed: the latest first.

use itertools::Itertools;
use vstd::prelude::*;
use vstd::set_lib::{lemma_int_range, lemma_len_subset, lemma_subset_equality, set_int_range};

verus! {

/// Whether `order` lists the positions of `keys` from the largest key to
/// the smallest, positions with equal keys in rising order. There is one
/// such list for each `keys`, as `lemma_ranking_unique` shows.
pub open spec fn is_ranking(order: Seq<usize>, keys: Seq<u64>) -> bool {
    &&& order.len() == keys.len()
    &&& forall|i: int| 0 <= i < order.len() ==> (#[trigger] order[i]) < keys.len()
    &&& forall|i: int, j: int|
        0 <= i < j < order.len() ==> {
            let a = #[trigger] order[i] as int;
            let b = #[trigger] order[j] as int;
            keys[a] > keys[b] || (keys[a] == keys[b] && a < b)
        }
}

/// `Itertools::sorted_by_cached_key` on the positions of `keys`, with the
/// reversed key of a position as its sort key. The sort is stable and
/// ascending in the sort key, so the positions come out by falling key, and
/// positions with equal keys in the rising order in which they went in.
#[verifier::external_body]
pub(crate) fn newest_first(keys: &Vec<u64>) -> (order: Vec<usize>)
    ensures
        is_ranking(order@, keys@),
{
    (0..keys.len()).sorted_by_cached_key(|i| core::cmp::Reverse(keys[*i])).collect()
}

/// A ranking lists every position.
pub proof fn lemma_ranking_lists_all(order: Seq<usize>, keys: Seq<u64>, a: int)
    requires
        is_ranking(order, keys),
        0 <= a < keys.len(),
    ensures
        exists|p: int| 0 <= p < order.len() && #[trigger] order[p] == a,
{
    let n = keys.len() as int;
    let places = order.map_values(|x: usize| x as int);
    assert forall|i: int, j: int|
        0 <= i < places.len() && 0 <= j < places.len() && i != j implies places[i]
        != places[j] by {
        if i < j {
            let x = order[i] as int;
            let y = order[j] as int;
            assert(keys[x] > keys[y] || (keys[x] == keys[y] && x < y));
        } else {
            let x = order[j] as int;
            let y = order[i] as int;
            assert(keys[x] > keys[y] || (keys[x] == keys[y] && x < y));
        }
    }
    places.unique_seq_to_set();
    lemma_int_range(0, n);
    assert forall|x: int| places.to_set().contains(x) implies set_int_range(0, n).contains(
        x,
    ) by {
        let i = choose|i: int| 0 <= i < places.len() && places[i] == x;
        assert(order[i] < keys.len());
    }
    lemma_len_subset(places.to_set(), set_int_range(0, n));
    lemma_subset_equality(places.to_set(), set_int_range(0, n));
    assert(set_int_range(0, n).contains(a));
    assert(places.contains(a));
    let p = choose|p: int| 0 <= p < places.len() && places[p] == a;
    assert(order[p] == a);
}

/// Two rankings of the same keys agree at every place.
proof fn lemma_ranking_agrees(first: Seq<usize>, second: Seq<usize>, keys: Seq<u64>, i: int)
    requires
        is_ranking(first, keys),
        is_ranking(second, keys),
        0 <= i < keys.len(),
    ensures
        first[i] == second[i],
    decreases i,
{
    assert forall|j: int| 0 <= j < i implies first[j] == second[j] by {
        lemma_ranking_agrees(first, second, keys, j);
    }
    let a = first[i] as int;
    let b = second[i] as int;
    if a != b {
        lemma_ranking_lists_all(second, keys, a);
        lemma_ranking_lists_all(first, keys, b);
        let p = choose|p: int| 0 <= p < second.len() && #[trigger] second[p] == a;
        let q = choose|q: int| 0 <= q < first.len() && #[trigger] first[q] == b;
        if p < i {
            let x = first[p] as int;
            let y = first[i] as int;
            assert(keys[x] > keys[y] || (keys[x] == keys[y] && x < y));
        }
        if q < i {
            let x = second[q] as int;
            let y = second[i] as int;
            assert(keys[x] > keys[y] || (keys[x] == keys[y] && x < y));
        }
        let x = second[i] as int;
        let y = second[p] as int;
        assert(keys[x] > keys[y] || (keys[x] == keys[y] && x < y));
        let u = first[i] as int;
        let v = first[q] as int;
        assert(keys[u] > keys[v] || (keys[u] == keys[v] && u < v));
    }
}

/// There is one ranking for each list of keys.
pub proof fn lemma_ranking_unique(first: Seq<usize>, second: Seq<usize>, keys: Seq<u64>)
    requires
        is_ranking(first, keys),
        is_ranking(second, keys),
    ensures
        first == second,
{
    assert forall|i: int| 0 <= i < first.len() implies first[i] == second[i] by {
        lemma_ranking_agrees(first, second, keys, i);
    }
    assert(first =~= second);
}

} // verus!
