//! The order of samples.
//!
//! A sample enters as an integer key: keys compare as the samples do. Samples
//! with equal keys keep the order in which they were given, so every sample has
//! one well-defined place in the sorted order.

use vstd::prelude::*;
use vstd::seq_lib::{seq_to_set_is_finite, to_multiset_build, to_multiset_remove};
use vstd::set_lib::{lemma_int_range, lemma_len_subset, lemma_subset_equality, set_int_range};

verus! {

/// Sample `a` comes before sample `b`: the smaller key first, equal keys in the
/// order of their indices.
pub open spec fn precedes(keys: Seq<i64>, a: int, b: int) -> bool {
    keys[a] < keys[b] || (keys[a] == keys[b] && a < b)
}

/// `run` lists exactly as many indices as lie in `lo..hi`, all of them from
/// that range, each before the next.
pub open spec fn is_sorted_run(keys: Seq<i64>, run: Seq<usize>, lo: int, hi: int) -> bool {
    &&& run.len() == hi - lo
    &&& forall|r: int| 0 <= r < run.len() ==> lo <= #[trigger] run[r] < hi
    &&& forall|r: int, s: int|
        0 <= r < s < run.len() ==> precedes(keys, #[trigger] run[r] as int, #[trigger] run[s] as int)
}

/// `order` lists the indices of all samples, each before the next: `order[r]`
/// is the index of the sample of rank `r`.
pub open spec fn is_sort_order(keys: Seq<i64>, order: Seq<usize>) -> bool {
    is_sorted_run(keys, order, 0, keys.len() as int)
}

/// Merges two sorted runs over adjacent index ranges into one.
fn merge(
    keys: &[i64],
    left: &Vec<usize>,
    right: &Vec<usize>,
    Ghost(lo): Ghost<int>,
    Ghost(mid): Ghost<int>,
    Ghost(hi): Ghost<int>,
) -> (out: Vec<usize>)
    requires
        0 <= lo <= mid <= hi <= keys@.len(),
        is_sorted_run(keys@, left@, lo, mid),
        is_sorted_run(keys@, right@, mid, hi),
    ensures
        is_sorted_run(keys@, out@, lo, hi),
{
    let mut out: Vec<usize> = Vec::new();
    let mut i: usize = 0;
    let mut j: usize = 0;
    while i < left.len() || j < right.len()
        invariant
            0 <= lo <= mid <= hi <= keys@.len(),
            is_sorted_run(keys@, left@, lo, mid),
            is_sorted_run(keys@, right@, mid, hi),
            i <= left.len(),
            j <= right.len(),
            out.len() == i + j,
            forall|r: int| 0 <= r < out.len() ==> lo <= #[trigger] out[r] < hi,
            forall|r: int, s: int|
                0 <= r < s < out.len() ==> precedes(
                    keys@,
                    #[trigger] out[r] as int,
                    #[trigger] out[s] as int,
                ),
            forall|r: int, a: int|
                0 <= r < out.len() && i <= a < left.len() ==> precedes(
                    keys@,
                    #[trigger] out[r] as int,
                    #[trigger] left[a] as int,
                ),
            forall|r: int, b: int|
                0 <= r < out.len() && j <= b < right.len() ==> precedes(
                    keys@,
                    #[trigger] out[r] as int,
                    #[trigger] right[b] as int,
                ),
        decreases left.len() - i + right.len() - j,
    {
        let take_left = if j >= right.len() {
            true
        } else if i >= left.len() {
            false
        } else {
            keys[left[i]] <= keys[right[j]]
        };
        if take_left {
            let x = left[i];
            proof {
                assert forall|b: int| j <= b < right.len() implies precedes(
                    keys@,
                    x as int,
                    #[trigger] right[b] as int,
                ) by {
                    assert(x < mid <= right[b]);
                    if b > j {
                        assert(precedes(keys@, right[j as int] as int, right[b] as int));
                    }
                }
                assert forall|a: int| i < a < left.len() implies precedes(
                    keys@,
                    x as int,
                    #[trigger] left[a] as int,
                ) by {
                    assert(precedes(keys@, left[i as int] as int, left[a] as int));
                }
            }
            out.push(x);
            i += 1;
        } else {
            let y = right[j];
            proof {
                assert forall|a: int| i <= a < left.len() implies precedes(
                    keys@,
                    y as int,
                    #[trigger] left[a] as int,
                ) by {
                    if a > i {
                        assert(precedes(keys@, left[i as int] as int, left[a] as int));
                    }
                }
                assert forall|b: int| j < b < right.len() implies precedes(
                    keys@,
                    y as int,
                    #[trigger] right[b] as int,
                ) by {
                    assert(precedes(keys@, right[j as int] as int, right[b] as int));
                }
            }
            out.push(y);
            j += 1;
        }
    }
    out
}

/// Sorts the indices in `lo..hi`.
fn sort_span(keys: &[i64], lo: usize, hi: usize) -> (out: Vec<usize>)
    requires
        lo <= hi <= keys@.len(),
    ensures
        is_sorted_run(keys@, out@, lo as int, hi as int),
    decreases hi - lo,
{
    let mut out: Vec<usize> = Vec::new();
    if hi - lo == 0 {
        out
    } else if hi - lo == 1 {
        out.push(lo);
        out
    } else {
        let mid = lo + (hi - lo) / 2;
        let left = sort_span(keys, lo, mid);
        let right = sort_span(keys, mid, hi);
        merge(keys, &left, &right, Ghost(lo as int), Ghost(mid as int), Ghost(hi as int))
    }
}

/// Sorts the samples by key and returns their indices in sorted order: the
/// smallest key first, samples with equal keys in the order they were given.
pub fn sort_order(keys: &[i64]) -> (order: Vec<usize>)
    ensures
        is_sort_order(keys@, order@),
{
    sort_span(keys, 0, keys.len())
}

/// The samples that come before sample `i`.
pub open spec fn earlier(keys: Seq<i64>, i: int) -> Set<int> {
    Set::new(|j: int| 0 <= j < keys.len() && precedes(keys, j, i))
}

/// The rank of sample `i`: the number of samples that come before it. The
/// first sample in sorted order has rank 0.
pub open spec fn rank_of(keys: Seq<i64>, i: int) -> nat {
    earlier(keys, i).len()
}

/// Sample `i` is listed in `order`.
pub open spec fn has_place(order: Seq<usize>, i: int) -> bool {
    exists|r: int| 0 <= r < order.len() && order[r] == i
}

/// A place at which sample `i` is listed in `order`.
pub open spec fn place_of(order: Seq<usize>, i: int) -> int {
    choose|r: int| 0 <= r < order.len() && order[r] == i
}

/// In a sort order every sample occurs, and none occurs twice.
pub proof fn lemma_sort_order_is_permutation(keys: Seq<i64>, order: Seq<usize>)
    requires
        is_sort_order(keys, order),
    ensures
        order.no_duplicates(),
        forall|i: int| 0 <= i < keys.len() ==> has_place(order, i),
{
    let n = keys.len() as int;
    let places = Seq::new(order.len(), |r: int| order[r] as int);
    assert forall|r: int, s: int| 0 <= r < order.len() && 0 <= s < order.len() && r != s implies order[r]
        != order[s] by {
        if r < s {
            assert(precedes(keys, order[r] as int, order[s] as int));
        } else {
            assert(precedes(keys, order[s] as int, order[r] as int));
        }
    }
    assert(places.no_duplicates());
    places.unique_seq_to_set();
    seq_to_set_is_finite(places);
    lemma_int_range(0, n);
    assert(places.to_set().subset_of(set_int_range(0, n))) by {
        assert forall|v: int| places.to_set().contains(v) implies set_int_range(0, n).contains(v) by {
            let r = choose|r: int| 0 <= r < places.len() && places[r] == v;
            assert(0 <= order[r] < n);
        }
    }
    lemma_subset_equality(places.to_set(), set_int_range(0, n));
    assert forall|i: int| 0 <= i < n implies has_place(order, i) by {
        assert(set_int_range(0, n).contains(i));
        assert(places.to_set().contains(i));
        let r = choose|r: int| 0 <= r < places.len() && places[r] == i;
        assert(order[r] == i);
    }
}

/// The sample at place `r` of a sort order has rank `r`.
pub proof fn lemma_rank_in_sort_order(keys: Seq<i64>, order: Seq<usize>, r: int)
    requires
        is_sort_order(keys, order),
        0 <= r < order.len(),
    ensures
        rank_of(keys, order[r] as int) == r,
{
    let i = order[r] as int;
    let before = Seq::new(r as nat, |s: int| order[s] as int);
    lemma_sort_order_is_permutation(keys, order);
    assert(before.no_duplicates());
    before.unique_seq_to_set();
    assert(before.to_set() =~= earlier(keys, i)) by {
        assert forall|j: int| before.to_set().contains(j) implies earlier(keys, i).contains(j) by {
            let s = choose|s: int| 0 <= s < before.len() && before[s] == j;
            assert(precedes(keys, order[s] as int, order[r] as int));
        }
        assert forall|j: int| earlier(keys, i).contains(j) implies before.to_set().contains(j) by {
            assert(has_place(order, j));
            let s = place_of(order, j);
            if s > r {
                assert(precedes(keys, order[r] as int, order[s] as int));
            }
            assert(s < r);
            assert(before[s] == j);
        }
    }
}

/// A series has one sort order only.
pub proof fn lemma_sort_order_unique(keys: Seq<i64>, first: Seq<usize>, second: Seq<usize>)
    requires
        is_sort_order(keys, first),
        is_sort_order(keys, second),
    ensures
        first == second,
{
    lemma_sort_order_is_permutation(keys, first);
    assert forall|r: int| 0 <= r < first.len() implies first[r] == second[r] by {
        let i = second[r] as int;
        assert(has_place(first, i));
        let s = place_of(first, i);
        lemma_rank_in_sort_order(keys, first, s);
        lemma_rank_in_sort_order(keys, second, r);
    }
    assert(first =~= second);
}

/// The first sample of a sort order has the smallest key of all, the last one
/// the largest.
pub proof fn lemma_sort_order_extremes(keys: Seq<i64>, order: Seq<usize>, i: int)
    requires
        is_sort_order(keys, order),
        0 <= i < keys.len(),
    ensures
        keys[order[0] as int] <= keys[i] <= keys[order[order.len() - 1] as int],
{
    lemma_sort_order_is_permutation(keys, order);
    assert(has_place(order, i));
    let r = place_of(order, i);
    if 0 < r {
        assert(precedes(keys, order[0] as int, order[r] as int));
    }
    if r < order.len() - 1 {
        assert(precedes(keys, order[r] as int, order[order.len() - 1] as int));
    }
}

/// A rank is smaller than the number of samples.
pub proof fn lemma_rank_below_len(keys: Seq<i64>, i: int)
    requires
        0 <= i < keys.len(),
    ensures
        rank_of(keys, i) < keys.len(),
{
    let all = set_int_range(0, keys.len() as int);
    lemma_int_range(0, keys.len() as int);
    let before = earlier(keys, i);
    assert(before.subset_of(all.remove(i)));
    lemma_len_subset(before, all.remove(i));
}

/// Gives every sample its rank: the number of samples that come before it in
/// sorted order.
pub fn ranks(keys: &[i64]) -> (out: Vec<usize>)
    ensures
        out.len() == keys@.len(),
        forall|i: int| 0 <= i < out.len() ==> #[trigger] out[i] == rank_of(keys@, i) && out[i] < keys@.len(),
{
    let n = keys.len();
    let order = sort_order(keys);
    let mut out: Vec<usize> = vec![0; n];
    proof {
        lemma_sort_order_is_permutation(keys@, order@);
    }
    let mut r: usize = 0;
    while r < n
        invariant
            r <= n,
            n == keys@.len(),
            out.len() == n,
            is_sort_order(keys@, order@),
            order@.no_duplicates(),
            forall|s: int| 0 <= s < r ==> out[#[trigger] order[s] as int] == s,
        decreases n - r,
    {
        out.set(order[r], r);
        r += 1;
    }
    proof {
        assert forall|i: int| 0 <= i < out.len() implies out[i] == rank_of(keys@, i) && out[i]
            < keys@.len() by {
            lemma_rank_below_len(keys@, i);
            assert(has_place(order@, i));
            let s = place_of(order@, i);
            lemma_rank_in_sort_order(keys@, order@, s);
            assert(out[order[s] as int] == s);
        }
    }
    out
}

/// Sample `i` comes before every other sample.
pub open spec fn is_first(keys: Seq<i64>, i: int) -> bool {
    &&& 0 <= i < keys.len()
    &&& forall|j: int| 0 <= j < keys.len() && j != i ==> precedes(keys, i, j)
}

/// Every other sample comes before sample `i`.
pub open spec fn is_last(keys: Seq<i64>, i: int) -> bool {
    &&& 0 <= i < keys.len()
    &&& forall|j: int| 0 <= j < keys.len() && j != i ==> precedes(keys, j, i)
}

/// Finds the first and the last sample of the sorted order without sorting:
/// the earliest sample with the smallest key and the latest sample with the
/// largest key. Without samples there is neither.
pub fn extremes(keys: &[i64]) -> (out: Option<(usize, usize)>)
    ensures
        out.is_some() <==> keys@.len() > 0,
        out.is_some() ==> is_first(keys@, out.unwrap().0 as int) && is_last(keys@, out.unwrap().1 as int),
{
    let n = keys.len();
    if n == 0 {
        return None;
    }
    let mut lo: usize = 0;
    let mut hi: usize = 0;
    let mut i: usize = 1;
    while i < n
        invariant
            n == keys@.len(),
            1 <= i <= n,
            lo < i,
            hi < i,
            forall|j: int| 0 <= j < i && j != lo ==> precedes(keys@, lo as int, j),
            forall|j: int| 0 <= j < i && j != hi ==> precedes(keys@, j, hi as int),
        decreases n - i,
    {
        let ghost old_lo = lo as int;
        let ghost old_hi = hi as int;
        if keys[i] < keys[lo] {
            lo = i;
        }
        if keys[i] >= keys[hi] {
            hi = i;
        }
        proof {
            assert forall|j: int| 0 <= j < i + 1 && j != lo implies precedes(keys@, lo as int, j) by {
                if j < i && j != old_lo {
                    assert(precedes(keys@, old_lo, j));
                }
            }
            assert forall|j: int| 0 <= j < i + 1 && j != hi implies precedes(keys@, j, hi as int) by {
                if j < i && j != old_hi {
                    assert(precedes(keys@, j, old_hi));
                }
            }
        }
        i += 1;
    }
    Some((lo, hi))
}

/// `order` lists every index below its length exactly once.
pub open spec fn is_reordering(order: Seq<int>) -> bool {
    &&& forall|r: int| 0 <= r < order.len() ==> 0 <= #[trigger] order[r] < order.len()
    &&& forall|r: int, s: int| 0 <= r < s < order.len() ==> #[trigger] order[r] != #[trigger] order[s]
}

/// The items listed in the given order.
pub open spec fn arranged<T>(items: Seq<T>, order: Seq<int>) -> Seq<T> {
    Seq::new(order.len(), |r: int| items[order[r]])
}

/// The indices that an order lists, as integers.
pub open spec fn places(order: Seq<usize>) -> Seq<int> {
    Seq::new(order.len(), |r: int| order[r] as int)
}

/// Arranging loses nothing and invents nothing: listed in an order that names
/// every item exactly once, the items are the same as before, each as often as
/// before.
pub proof fn lemma_arranged_keeps_items<T>(items: Seq<T>, order: Seq<int>)
    requires
        order.len() == items.len(),
        is_reordering(order),
    ensures
        arranged(items, order).to_multiset() == items.to_multiset(),
    decreases order.len(),
{
    let n = order.len() as int;
    let out = arranged(items, order);
    if n == 0 {
        assert(out =~= items);
    } else {
        let p = order[n - 1];
        let fewer = items.remove(p);
        let rest = Seq::new(
            (n - 1) as nat,
            |r: int|
                if order[r] > p {
                    order[r] - 1
                } else {
                    order[r]
                },
        );
        assert forall|r: int| 0 <= r < rest.len() implies 0 <= #[trigger] rest[r] < rest.len() by {
            assert(order[r] != order[n - 1]);
        }
        assert forall|r: int, s: int| 0 <= r < s < rest.len() implies #[trigger] rest[r] != #[trigger] rest[s] by {
            assert(order[r] != order[s]);
            assert(order[r] != order[n - 1]);
            assert(order[s] != order[n - 1]);
        }
        lemma_arranged_keeps_items(fewer, rest);
        assert(arranged(fewer, rest) =~= out.drop_last()) by {
            assert forall|r: int| 0 <= r < n - 1 implies arranged(fewer, rest)[r] == out[r] by {
                assert(order[r] != order[n - 1]);
            }
        }
        assert(out =~= out.drop_last().push(items[p]));
        to_multiset_build(out.drop_last(), items[p]);
        to_multiset_remove(items, p);
        assert(items.to_multiset().count(items[p]) > 0) by {
            vstd::seq_lib::to_multiset_contains(items, items[p]);
            assert(items.contains(items[p]));
        }
        assert(items.to_multiset().remove(items[p]).insert(items[p]) =~= items.to_multiset());
    }
}

/// A sorted copy holds the samples it was made from, each as often as before.
pub proof fn lemma_sorting_keeps_items<T>(keys: Seq<i64>, order: Seq<usize>, items: Seq<T>)
    requires
        is_sort_order(keys, order),
        items.len() == keys.len(),
    ensures
        arranged(items, places(order)).to_multiset() == items.to_multiset(),
{
    lemma_sort_order_is_permutation(keys, order);
    lemma_arranged_keeps_items(items, places(order));
}

/// Lists the items in the given order: the item at place `r` of the result is
/// the one that `order[r]` names. An order that names an item that is not
/// there cannot be followed.
pub fn arrange<T: Copy>(items: &[T], order: &[usize]) -> (out: Option<Vec<T>>)
    ensures
        out.is_some() <==> forall|r: int| 0 <= r < order@.len() ==> order@[r] < items@.len(),
        out.is_some() ==> out.unwrap()@ == arranged(items@, places(order@)),
{
    let mut out: Vec<T> = Vec::new();
    let mut r: usize = 0;
    while r < order.len()
        invariant
            r <= order@.len(),
            out.len() == r,
            forall|k: int| 0 <= k < r ==> order@[k] < items@.len(),
            forall|k: int| 0 <= k < r ==> out[k] == items@[order@[k] as int],
        decreases order@.len() - r,
    {
        let at = order[r];
        if at >= items.len() {
            return None;
        }
        out.push(items[at]);
        r += 1;
    }
    Some(out)
}

} // verus!
