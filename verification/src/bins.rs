//! Bins of near-equal size over the sorted order.
//!
//! The samples are ranked, and the ranks are cut into `n_bins` groups that
//! follow each other: bin `b` ends where rank `(b + 1) * n / n_bins`, rounded
//! down, begins. A sample gets the number of the group its rank falls in.
//! Samples with equal keys have different ranks and so may fall in different
//! bins.

use vstd::prelude::*;
use crate::order::{rank_of, ranks};

verus! {

/// The first rank of bin `b` when `len` ranks are cut into `n_bins` bins. Bin
/// `b` holds the ranks from `bin_boundary(b, ..)` up to, not including,
/// `bin_boundary(b + 1, ..)`.
pub open spec fn bin_boundary(b: int, len: int, n_bins: int) -> int {
    (b * len) / n_bins
}

/// The bin that `rank` falls in.
pub open spec fn bin_of_rank(rank: int, len: int, n_bins: int) -> int {
    ((rank + 1) * n_bins - 1) / len
}

proof fn lemma_div_at_least(x: int, d: int, k: int)
    requires
        d > 0,
        x >= k * d,
    ensures
        x / d >= k,
{
    let q = x / d;
    let r = x % d;
    assert(x == q * d + r && 0 <= r < d) by (nonlinear_arith)
        requires
            q == x / d,
            r == x % d,
            d > 0,
    ;
    assert(q >= k) by (nonlinear_arith)
        requires
            x == q * d + r,
            0 <= r < d,
            x >= k * d,
    ;
}

proof fn lemma_div_below(x: int, d: int, k: int)
    requires
        d > 0,
        x < k * d,
    ensures
        x / d < k,
{
    let q = x / d;
    let r = x % d;
    assert(x == q * d + r && 0 <= r < d) by (nonlinear_arith)
        requires
            q == x / d,
            r == x % d,
            d > 0,
    ;
    assert(q < k) by (nonlinear_arith)
        requires
            x == q * d + r,
            0 <= r < d,
            x < k * d,
    ;
}

/// The boundaries never move backwards from one bin to the next; the first bin
/// starts at rank 0 and the last one ends with the last rank.
pub proof fn lemma_bin_boundaries(b: int, c: int, len: int, n_bins: int)
    requires
        0 <= b <= c,
        len >= 0,
        n_bins >= 1,
    ensures
        bin_boundary(b, len, n_bins) <= bin_boundary(c, len, n_bins),
        bin_boundary(0, len, n_bins) == 0,
        bin_boundary(n_bins, len, n_bins) == len,
{
    let low = bin_boundary(b, len, n_bins);
    assert(b * len <= c * len) by (nonlinear_arith)
        requires
            0 <= b <= c,
            len >= 0,
    ;
    assert(low * n_bins <= b * len) by (nonlinear_arith)
        requires
            low == (b * len) / n_bins,
            n_bins >= 1,
    ;
    lemma_div_at_least(c * len, n_bins, low);
    assert(0 * len == 0) by (nonlinear_arith);
    assert(n_bins * len == len * n_bins) by (nonlinear_arith);
    lemma_div_at_least(n_bins * len, n_bins, len);
    assert(len * n_bins < (len + 1) * n_bins) by (nonlinear_arith)
        requires
            n_bins >= 1,
    ;
    lemma_div_below(n_bins * len, n_bins, len + 1);
}

/// The bins are of near-equal size: each holds the whole part of
/// `len / n_bins` ranks, or one more.
pub proof fn lemma_bin_sizes(b: int, len: int, n_bins: int)
    requires
        0 <= b < n_bins,
        len >= 0,
    ensures
        len / n_bins <= bin_boundary(b + 1, len, n_bins) - bin_boundary(b, len, n_bins) <= len / n_bins + 1,
{
    let lo = bin_boundary(b, len, n_bins);
    let hi = bin_boundary(b + 1, len, n_bins);
    let x = b * len;
    let y = (b + 1) * len;
    assert(y == x + len) by (nonlinear_arith)
        requires
            x == b * len,
            y == (b + 1) * len,
    ;
    assert(x == lo * n_bins + x % n_bins && 0 <= x % n_bins < n_bins) by (nonlinear_arith)
        requires
            lo == x / n_bins,
            n_bins >= 1,
    ;
    assert(y == hi * n_bins + y % n_bins && 0 <= y % n_bins < n_bins) by (nonlinear_arith)
        requires
            hi == y / n_bins,
            n_bins >= 1,
    ;
    assert(len < (hi - lo + 1) * n_bins) by (nonlinear_arith)
        requires
            y == x + len,
            x == lo * n_bins + x % n_bins,
            y == hi * n_bins + y % n_bins,
            0 <= x % n_bins,
            y % n_bins < n_bins,
    ;
    lemma_div_below(len, n_bins, hi - lo + 1);
    assert(len >= (hi - lo - 1) * n_bins + 1) by (nonlinear_arith)
        requires
            y == x + len,
            x == lo * n_bins + x % n_bins,
            y == hi * n_bins + y % n_bins,
            x % n_bins < n_bins,
            0 <= y % n_bins,
    ;
    assert(len >= (hi - lo - 1) * n_bins) by (nonlinear_arith)
        requires
            len >= (hi - lo - 1) * n_bins + 1,
    ;
    lemma_div_at_least(len, n_bins, hi - lo - 1);
}

/// `bin_of_rank` names the bin between whose boundaries the rank lies.
pub proof fn lemma_bin_of_rank(rank: int, len: int, n_bins: int)
    requires
        0 <= rank < len,
        n_bins >= 1,
    ensures
        0 <= bin_of_rank(rank, len, n_bins) < n_bins,
        bin_boundary(bin_of_rank(rank, len, n_bins), len, n_bins) <= rank,
        rank < bin_boundary(bin_of_rank(rank, len, n_bins) + 1, len, n_bins),
{
    let a = (rank + 1) * n_bins - 1;
    let b = a / len;
    let r = a % len;
    assert(a >= 0 && a < len * n_bins) by (nonlinear_arith)
        requires
            a == (rank + 1) * n_bins - 1,
            0 <= rank < len,
            n_bins >= 1,
    ;
    assert(a == b * len + r && 0 <= r < len) by (nonlinear_arith)
        requires
            b == a / len,
            r == a % len,
            len > 0,
    ;
    assert(0 <= b < n_bins) by (nonlinear_arith)
        requires
            a == b * len + r,
            0 <= r < len,
            0 <= a < len * n_bins,
    ;
    assert(b * len < (rank + 1) * n_bins) by (nonlinear_arith)
        requires
            a == b * len + r,
            0 <= r,
            a == (rank + 1) * n_bins - 1,
    ;
    lemma_div_below(b * len, n_bins, rank + 1);
    assert((b + 1) * len >= (rank + 1) * n_bins) by (nonlinear_arith)
        requires
            a == b * len + r,
            r < len,
            a == (rank + 1) * n_bins - 1,
    ;
    lemma_div_at_least((b + 1) * len, n_bins, rank + 1);
}

/// No other bin has the rank between its boundaries.
pub proof fn lemma_bin_is_unique(rank: int, len: int, n_bins: int, b: int)
    requires
        0 <= rank < len,
        0 <= b < n_bins,
        bin_boundary(b, len, n_bins) <= rank < bin_boundary(b + 1, len, n_bins),
    ensures
        b == bin_of_rank(rank, len, n_bins),
{
    let found = bin_of_rank(rank, len, n_bins);
    lemma_bin_of_rank(rank, len, n_bins);
    if b < found {
        lemma_bin_boundaries(b + 1, found, len, n_bins);
    } else if found < b {
        lemma_bin_boundaries(found + 1, b, len, n_bins);
    }
}

/// Assigns every sample the bin its rank falls in, out of `n_bins` bins of
/// near-equal size. Without samples or without bins there is nothing to
/// assign, and the result is empty.
pub fn quantile_bins(keys: &[i64], n_bins: usize) -> (bins: Vec<usize>)
    ensures
        keys@.len() == 0 || n_bins == 0 ==> bins.len() == 0,
        keys@.len() > 0 && n_bins > 0 ==> bins.len() == keys@.len(),
        forall|i: int|
            0 <= i < bins.len() ==> {
                &&& #[trigger] bins[i] == bin_of_rank(rank_of(keys@, i) as int, keys@.len() as int, n_bins as int)
                &&& bins[i] < n_bins
                &&& bin_boundary(bins[i] as int, keys@.len() as int, n_bins as int) <= rank_of(keys@, i)
                &&& rank_of(keys@, i) < bin_boundary(bins[i] + 1, keys@.len() as int, n_bins as int)
            },
{
    let len = keys.len();
    let mut bins: Vec<usize> = Vec::new();
    if len == 0 || n_bins == 0 {
        return bins;
    }
    let rank = ranks(keys);
    let mut i: usize = 0;
    while i < len
        invariant
            i <= len,
            len == keys@.len(),
            len > 0,
            n_bins > 0,
            rank.len() == len,
            forall|k: int| 0 <= k < len ==> rank[k] == rank_of(keys@, k) && rank[k] < len,
            bins.len() == i,
            forall|k: int|
                0 <= k < i ==> {
                    &&& #[trigger] bins[k] == bin_of_rank(rank_of(keys@, k) as int, len as int, n_bins as int)
                    &&& bins[k] < n_bins
                    &&& bin_boundary(bins[k] as int, len as int, n_bins as int) <= rank_of(keys@, k)
                    &&& rank_of(keys@, k) < bin_boundary(bins[k] + 1, len as int, n_bins as int)
                },
        decreases len - i,
    {
        let r = rank[i];
        proof {
            lemma_bin_of_rank(r as int, len as int, n_bins as int);
        }
        let wide: u128 = (r as u128) + 1;
        assert(wide * (n_bins as u128) <= 0xffff_ffff_ffff_ffff * 0xffff_ffff_ffff_ffff) by (nonlinear_arith)
            requires
                1 <= wide <= 0xffff_ffff_ffff_ffff,
                1 <= n_bins <= 0xffff_ffff_ffff_ffff,
        ;
        assert(wide * (n_bins as u128) >= 1) by (nonlinear_arith)
            requires
                1 <= wide,
                1 <= n_bins,
        ;
        let b = (wide * (n_bins as u128) - 1) / (len as u128);
        bins.push(b as usize);
        i += 1;
    }
    bins
}

} // verus!
