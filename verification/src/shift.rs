//! Which earlier or later sample a sample is compared with.
//!
//! A difference over `periods` steps compares sample `i` with sample
//! `i - periods`: a sample further back for positive `periods`, one further
//! ahead for negative `periods`, the sample itself for 0. Where that index
//! falls outside the series there is nothing to compare with.

use vstd::prelude::*;
use crate::sample::{sign, sign_of, Sign};

verus! {

/// Sample `i` of a series of `len` samples has a base `periods` steps back.
pub open spec fn has_base(len: int, periods: int, i: int) -> bool {
    0 <= i - periods < len
}

/// The index of the base of sample `i`, if it has one.
pub fn base_index(len: usize, periods: isize, i: usize) -> (out: Option<usize>)
    ensures
        out.is_some() <==> has_base(len as int, periods as int, i as int),
        out.is_some() ==> out.unwrap() == i - periods,
{
    let at: i128 = (i as i128) - (periods as i128);
    if 0 <= at && at < (len as i128) {
        Some(at as usize)
    } else {
        None
    }
}

/// The index of the base of every sample of a series of `len` samples.
pub fn bases(len: usize, periods: isize) -> (out: Vec<Option<usize>>)
    ensures
        out.len() == len,
        forall|i: int|
            0 <= i < len ==> {
                &&& (#[trigger] out[i]).is_some() <==> has_base(len as int, periods as int, i)
                &&& out[i].is_some() ==> out[i].unwrap() == i - periods
            },
{
    let mut out: Vec<Option<usize>> = Vec::new();
    let mut i: usize = 0;
    while i < len
        invariant
            i <= len,
            out.len() == i,
            forall|k: int|
                0 <= k < i ==> {
                    &&& (#[trigger] out[k]).is_some() <==> has_base(len as int, periods as int, k)
                    &&& out[k].is_some() ==> out[k].unwrap() == k - periods
                },
        decreases len - i,
    {
        out.push(base_index(len, periods, i));
        i += 1;
    }
    out
}

/// The index of the base of every sample for a relative change: as `bases`,
/// but a base of zero is no base, since nothing can be divided by it.
pub fn ratio_bases(samples: &[u64], periods: isize) -> (out: Vec<Option<usize>>)
    ensures
        out.len() == samples@.len(),
        forall|i: int|
            0 <= i < samples@.len() ==> {
                &&& (#[trigger] out[i]).is_some() <==> has_base(samples@.len() as int, periods as int, i)
                    && sign_of(samples@[i - periods]) != Sign::Zero
                &&& out[i].is_some() ==> out[i].unwrap() == i - periods
            },
{
    let len = samples.len();
    let mut out: Vec<Option<usize>> = Vec::new();
    let mut i: usize = 0;
    while i < len
        invariant
            len == samples@.len(),
            i <= len,
            out.len() == i,
            forall|k: int|
                0 <= k < i ==> {
                    &&& (#[trigger] out[k]).is_some() <==> has_base(len as int, periods as int, k) && sign_of(
                        samples@[k - periods],
                    ) != Sign::Zero
                    &&& out[k].is_some() ==> out[k].unwrap() == k - periods
                },
        decreases len - i,
    {
        let base = match base_index(len, periods, i) {
            Some(b) => {
                if sign(samples[b]) == Sign::Zero {
                    None
                } else {
                    Some(b)
                }
            },
            None => None,
        };
        out.push(base);
        i += 1;
    }
    out
}

} // verus!
