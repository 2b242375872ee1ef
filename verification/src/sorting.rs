//! Sorting by an integer key, with ties in their original order.

use vstd::prelude::*;
use vstd::relations::{sorted_by, total_ordering};
use vstd::seq_lib::lemma_sorted_unique;

verus! {

/// Pairs in order of their first, then of their second number.
pub open spec fn pair_order() -> spec_fn((usize, usize), (usize, usize)) -> bool {
    |a: (usize, usize), b: (usize, usize)| a.0 < b.0 || (a.0 == b.0 && a.1 <= b.1)
}

/// Sorts pairs of integers.
///
/// Trusted: `<[(usize, usize)]>::sort` keeps the elements and puts them in
/// lexicographic order.
#[verifier::external_body]
fn sort_pairs(pairs: &mut Vec<(usize, usize)>)
    ensures
        final(pairs)@.to_multiset() == old(pairs)@.to_multiset(),
        sorted_by(final(pairs)@, pair_order()),
{
    pairs.sort()
}

/// Every key with its position.
pub open spec fn keyed(keys: Seq<usize>) -> Seq<(usize, usize)> {
    Seq::new(keys.len(), |i: int| (keys[i], i as usize))
}

/// The positions of `keys` from the least key to the greatest, those of equal
/// keys in ascending order.
pub open spec fn stable_order(keys: Seq<usize>) -> Seq<int> {
    let sorted = keyed(keys).sort_by(pair_order());
    Seq::new(sorted.len(), |i: int| sorted[i].1 as int)
}

pub proof fn lemma_pair_order_total()
    ensures
        total_ordering(pair_order()),
{
}

/// Every position occurs in the order.
pub proof fn lemma_stable_order(keys: Seq<usize>)
    requires
        keys.len() <= usize::MAX,
    ensures
        stable_order(keys).len() == keys.len(),
        forall|i: int|
            0 <= i < keys.len() ==> 0 <= (#[trigger] stable_order(keys)[i]) < keys.len(),
        forall|i: int, j: int|
            0 <= i < j < keys.len() ==> keys[stable_order(keys)[i]] <= keys[stable_order(keys)[j]],
{
    lemma_pair_order_total();
    let pairs = keyed(keys);
    let sorted = pairs.sort_by(pair_order());
    pairs.lemma_sort_by_ensures(pair_order());
    vstd::seq_lib::to_multiset_len(pairs);
    vstd::seq_lib::to_multiset_len(sorted);
    assert forall|i: int| 0 <= i < keys.len() implies 0 <= (#[trigger] stable_order(keys)[i])
        < keys.len() && keys[stable_order(keys)[i]] == sorted[i].0 by {
        assert(sorted.contains(sorted[i]));
        assert(pairs.contains(sorted[i]));
        let k = choose|k: int| 0 <= k < pairs.len() && pairs[k] == sorted[i];
        assert(pairs[k] == (keys[k], k as usize));
    }
    assert forall|i: int, j: int| 0 <= i < j < keys.len() implies keys[stable_order(keys)[i]]
        <= keys[stable_order(keys)[j]] by {
        assert(keys[stable_order(keys)[i]] == sorted[i].0);
        assert(keys[stable_order(keys)[j]] == sorted[j].0);
        assert(pair_order()(sorted[i], sorted[j]));
    }
}

/// Without duplicates, a list of as many positions as there are holds each.
proof fn lemma_all_positions(order: Seq<int>, n: int, k: int)
    requires
        order.len() == n,
        order.no_duplicates(),
        forall|i: int| 0 <= i < order.len() ==> 0 <= #[trigger] order[i] < n,
        0 <= k < n,
    ensures
        order.contains(k),
{
    let seen = order.to_set();
    let all = vstd::set_lib::set_int_range(0, n);
    vstd::set_lib::lemma_int_range(0, n);
    order.unique_seq_to_set();
    assert(seen.subset_of(all)) by {
        assert forall|x: int| seen.contains(x) implies all.contains(x) by {
            let i = choose|i: int| 0 <= i < order.len() && order[i] == x;
            assert(0 <= order[i] < n);
        }
    }
    vstd::set_lib::lemma_subset_equality(seen, all);
    assert(seen.contains(k));
}

/// No position occurs twice.
pub proof fn lemma_stable_order_injective(keys: Seq<usize>)
    requires
        keys.len() <= usize::MAX,
    ensures
        stable_order(keys).no_duplicates(),
{
    lemma_pair_order_total();
    let pairs = keyed(keys);
    let sorted = pairs.sort_by(pair_order());
    pairs.lemma_sort_by_ensures(pair_order());
    assert(pairs.no_duplicates());
    pairs.lemma_multiset_has_no_duplicates();
    sorted.lemma_multiset_has_no_duplicates_conv();
    vstd::seq_lib::to_multiset_len(pairs);
    vstd::seq_lib::to_multiset_len(sorted);
    lemma_stable_order(keys);
    let order = stable_order(keys);
    assert forall|i: int, j: int|
        0 <= i < order.len() && 0 <= j < order.len() && i != j implies order[i] != order[j] by {
        assert(sorted[i] != sorted[j]);
        lemma_sorted_pair(keys, i);
        lemma_sorted_pair(keys, j);
    }
}

proof fn lemma_sorted_pair(keys: Seq<usize>, i: int)
    requires
        keys.len() <= usize::MAX,
        0 <= i < keys.len(),
    ensures
        keyed(keys).sort_by(pair_order())[i].0 == keys[stable_order(keys)[i]],
{
    lemma_pair_order_total();
    let pairs = keyed(keys);
    let sorted = pairs.sort_by(pair_order());
    pairs.lemma_sort_by_ensures(pair_order());
    vstd::seq_lib::to_multiset_len(pairs);
    vstd::seq_lib::to_multiset_len(sorted);
    assert(sorted.contains(sorted[i]));
    assert(pairs.contains(sorted[i]));
    let k = choose|k: int| 0 <= k < pairs.len() && pairs[k] == sorted[i];
    assert(pairs[k] == (keys[k], k as usize));
}

/// The order holds every position.
pub proof fn lemma_order_holds(keys: Seq<usize>, k: int)
    requires
        keys.len() <= usize::MAX,
        0 <= k < keys.len(),
    ensures
        stable_order(keys).contains(k),
{
    lemma_stable_order(keys);
    lemma_stable_order_injective(keys);
    lemma_all_positions(stable_order(keys), keys.len() as int, k);
}

/// Of two lists of all positions in which the keys ascend, the first has no
/// greater key at any place.
proof fn lemma_ascending_keys(keys: Seq<usize>, p: Seq<int>, q: Seq<int>, i: int)
    requires
        p.len() == keys.len(),
        q.len() == keys.len(),
        p.no_duplicates(),
        forall|k: int| 0 <= k < keys.len() ==> 0 <= #[trigger] p[k] < keys.len(),
        q.no_duplicates(),
        forall|k: int| 0 <= k < keys.len() ==> 0 <= #[trigger] q[k] < keys.len(),
        forall|a: int, b: int| 0 <= a < b < keys.len() ==> keys[p[a]] <= keys[p[b]],
        forall|a: int, b: int| 0 <= a < b < keys.len() ==> keys[q[a]] <= keys[q[b]],
        0 <= i < keys.len(),
    ensures
        keys[p[i]] <= keys[q[i]],
{
    // Otherwise the first positions of `q`, up to and with this one, would all
    // be among the fewer positions of `p` before it.
    if keys[p[i]] > keys[q[i]] {
        let low = q.take(i + 1);
        let before = p.take(i);
        low.unique_seq_to_set();
        before.unique_seq_to_set();
        assert(low.to_set().subset_of(before.to_set())) by {
            assert forall|x: int| low.to_set().contains(x) implies before.to_set().contains(x) by {
                let a = choose|a: int| 0 <= a < low.len() && low[a] == x;
                assert(q[a] == x);
                assert(keys[x] <= keys[q[i]]);
                lemma_all_positions(p, keys.len() as int, x);
                let b = choose|b: int| 0 <= b < p.len() && p[b] == x;
                assert(b < i);
                assert(before[b] == x);
            }
        }
        vstd::set_lib::lemma_len_subset(low.to_set(), before.to_set());
    }
}

/// Sorted by mirrored keys, the keys come in the opposite order.
pub proof fn lemma_mirrored_keys(keys: Seq<usize>, mirrored: Seq<usize>)
    requires
        keys.len() <= usize::MAX,
        mirrored.len() == keys.len(),
        forall|i: int| 0 <= i < keys.len() ==> #[trigger] mirrored[i] == usize::MAX - keys[i],
    ensures
        forall|i: int|
            0 <= i < keys.len() ==> keys[#[trigger] stable_order(mirrored)[i]]
                == keys[stable_order(keys)[keys.len() - 1 - i]],
{
    let n = keys.len() as int;
    let up = stable_order(keys);
    let down = stable_order(mirrored);
    let turned = down.reverse();
    lemma_stable_order(keys);
    lemma_stable_order_injective(keys);
    lemma_stable_order(mirrored);
    lemma_stable_order_injective(mirrored);
    assert forall|i: int| 0 <= i < n implies 0 <= #[trigger] turned[i] < n by {
        assert(turned[i] == down[n - 1 - i]);
    }
    assert(turned.no_duplicates()) by {
        assert forall|i: int, j: int| 0 <= i < n && 0 <= j < n && i != j implies turned[i]
            != turned[j] by {
            assert(down[n - 1 - i] != down[n - 1 - j]);
        }
    }
    assert forall|a: int, b: int| 0 <= a < b < n implies keys[turned[a]] <= keys[turned[b]] by {
        assert(mirrored[down[n - 1 - b]] <= mirrored[down[n - 1 - a]]);
    }
    assert forall|i: int| 0 <= i < n implies keys[#[trigger] down[i]] == keys[up[n - 1 - i]] by {
        lemma_ascending_keys(keys, turned, up, n - 1 - i);
        lemma_ascending_keys(keys, up, turned, n - 1 - i);
        assert(turned[n - 1 - i] == down[i]);
    }
}

/// The positions of `keys` in ascending order of the keys.
pub(crate) fn order_by_key(keys: &Vec<usize>) -> (order: Vec<usize>)
    ensures
        order@.len() == keys@.len(),
        forall|i: int|
            0 <= i < order@.len() ==> #[trigger] order@[i] == stable_order(keys@)[i] && order@[i]
                < keys@.len(),
{
    let count: usize = keys.len();
    let mut pairs: Vec<(usize, usize)> = Vec::new();
    let mut i: usize = 0;
    while i < count
        invariant
            i <= count == keys@.len(),
            pairs@ == keyed(keys@).take(i as int),
        decreases count - i,
    {
        pairs.push((keys[i], i));
        i += 1;
        assert(pairs@ =~= keyed(keys@).take(i as int));
    }
    assert(pairs@ =~= keyed(keys@));
    sort_pairs(&mut pairs);
    proof {
        lemma_pair_order_total();
        keyed(keys@).lemma_sort_by_ensures(pair_order());
        lemma_sorted_unique(pairs@, keyed(keys@).sort_by(pair_order()), pair_order());
        lemma_stable_order(keys@);
    }
    let mut order: Vec<usize> = Vec::new();
    let mut i: usize = 0;
    while i < count
        invariant
            i <= count == keys@.len(),
            pairs@.len() == count,
            pairs@ == keyed(keys@).sort_by(pair_order()),
            order@.len() == i,
            forall|k: int| 0 <= k < i ==> #[trigger] order@[k] == pairs@[k].1,
        decreases count - i,
    {
        order.push(pairs[i].1);
        i += 1;
    }
    proof {
        assert forall|k: int| 0 <= k < order@.len() implies #[trigger] order@[k] == stable_order(
            keys@,
        )[k] && order@[k] < keys@.len() by {
            assert(0 <= stable_order(keys@)[k] < keys@.len());
        }
    }
    order
}

} // verus!
