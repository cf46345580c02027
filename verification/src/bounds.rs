//! Samples against a lower and an upper fence.
//!
//! Outlier rules flag what lies outside two fences, and winsorizing pulls such
//! samples onto the fence they crossed. Samples and fences are bit patterns;
//! a fence that is not a number is crossed by no sample, and a sample that is
//! not a number crosses no fence.

use vstd::prelude::*;
use crate::sample::{is_less, is_nan, key_of, less, sign, sign_of, Sign};

verus! {

/// Where a sample lies with respect to the fences.
#[derive(Debug, Clone, Copy, PartialEq, Eq, Structural)]
pub enum Side {
    /// Under the lower fence.
    Below,
    /// Not under the lower fence and not over the upper one.
    Within,
    /// Not under the lower fence, and over the upper one.
    Above,
}

/// Where `sample` lies with respect to the fences. The lower fence is looked
/// at first: with a lower fence above the upper one, a sample under both
/// counts as below.
pub open spec fn side_of(sample: u64, low: u64, high: u64) -> Side {
    if less(sample, low) {
        Side::Below
    } else if less(high, sample) {
        Side::Above
    } else {
        Side::Within
    }
}

/// The sample after it has been pulled onto the fence it crossed.
pub open spec fn clamped(sample: u64, low: u64, high: u64) -> u64 {
    match side_of(sample, low, high) {
        Side::Below => low,
        Side::Within => sample,
        Side::Above => high,
    }
}

/// A spread of zero, or one that is not a number, says nothing about what
/// lies far out.
pub open spec fn is_degenerate(spread: u64) -> bool {
    sign_of(spread) == Sign::Zero || sign_of(spread) == Sign::Undefined
}

/// Pulled onto the fences, every sample lies between them: with the lower
/// fence not above the upper one, no number comes out under the lower fence or
/// over the upper one, and what lay between the fences has not moved.
pub proof fn lemma_clamped_in_range(sample: u64, low: u64, high: u64)
    requires
        !is_nan(sample),
        !is_nan(low),
        !is_nan(high),
        key_of(low) <= key_of(high),
    ensures
        !is_nan(clamped(sample, low, high)),
        key_of(low) <= key_of(clamped(sample, low, high)) <= key_of(high),
        key_of(low) <= key_of(sample) <= key_of(high) ==> clamped(sample, low, high) == sample,
{
}

/// Tells where `sample` lies with respect to the fences.
pub fn side(sample: u64, low: u64, high: u64) -> (out: Side)
    ensures
        out == side_of(sample, low, high),
{
    if is_less(sample, low) {
        Side::Below
    } else if is_less(high, sample) {
        Side::Above
    } else {
        Side::Within
    }
}

/// Tells of every sample where it lies with respect to the fences.
pub fn sides(samples: &[u64], low: u64, high: u64) -> (out: Vec<Side>)
    ensures
        out.len() == samples@.len(),
        forall|i: int| 0 <= i < out.len() ==> #[trigger] out[i] == side_of(samples@[i], low, high),
{
    let mut out: Vec<Side> = Vec::new();
    let mut i: usize = 0;
    while i < samples.len()
        invariant
            i <= samples@.len(),
            out.len() == i,
            forall|k: int| 0 <= k < i ==> out[k] == side_of(samples@[k], low, high),
        decreases samples@.len() - i,
    {
        out.push(side(samples[i], low, high));
        i += 1;
    }
    out
}

/// Flags the samples that lie outside fences built from a measure of spread.
/// With a spread of zero, or one that is not a number, nothing is flagged.
pub fn outliers(samples: &[u64], spread: u64, low: u64, high: u64) -> (out: Vec<bool>)
    ensures
        out.len() == samples@.len(),
        forall|i: int|
            0 <= i < out.len() ==> (#[trigger] out[i] <==> !is_degenerate(spread) && side_of(
                samples@[i],
                low,
                high,
            ) != Side::Within),
{
    let usable = match sign(spread) {
        Sign::Zero => false,
        Sign::Undefined => false,
        _ => true,
    };
    let mut out: Vec<bool> = Vec::new();
    let mut i: usize = 0;
    while i < samples.len()
        invariant
            i <= samples@.len(),
            out.len() == i,
            usable == !is_degenerate(spread),
            forall|k: int|
                0 <= k < i ==> (out[k] <==> !is_degenerate(spread) && side_of(samples@[k], low, high)
                    != Side::Within),
        decreases samples@.len() - i,
    {
        let s = side(samples[i], low, high);
        out.push(usable && s != Side::Within);
        i += 1;
    }
    out
}

} // verus!
