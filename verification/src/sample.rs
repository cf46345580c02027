//! Samples as bit patterns.
//!
//! A sample is a double-precision number in the IEEE 754 binary64 encoding:
//! one sign bit, then eleven exponent bits, then fifty-two fraction bits. With
//! the sign bit set aside, the remaining 63 bits read as an integer grow with
//! the magnitude of the number; patterns above that of infinity are not
//! numbers. So the integer `sign * magnitude` orders the samples as their
//! values do, with both zeros at 0.

use vstd::prelude::*;

verus! {

/// The sign bit.
pub const SIGN_BIT: u64 = 0x8000_0000_0000_0000;

/// The pattern of positive infinity: all exponent bits set, no fraction bit.
pub const INFINITY_BITS: u64 = 0x7ff0_0000_0000_0000;

/// The pattern with the sign bit cleared.
pub open spec fn magnitude(bits: u64) -> int {
    if bits >= SIGN_BIT {
        bits - SIGN_BIT
    } else {
        bits as int
    }
}

/// The pattern stands for no number.
pub open spec fn is_nan(bits: u64) -> bool {
    magnitude(bits) > INFINITY_BITS
}

/// The key of a pattern: the magnitude, negated where the sign bit is set.
/// It is meant for patterns that stand for a number.
pub open spec fn key_of(bits: u64) -> int {
    if bits >= SIGN_BIT {
        -magnitude(bits)
    } else {
        magnitude(bits)
    }
}

/// The sign of a sample.
#[derive(Debug, Clone, Copy, PartialEq, Eq, Structural)]
pub enum Sign {
    Negative,
    Zero,
    Positive,
    /// The sample is not a number.
    Undefined,
}

/// The sign of the number a pattern stands for.
pub open spec fn sign_of(bits: u64) -> Sign {
    if is_nan(bits) {
        Sign::Undefined
    } else if key_of(bits) < 0 {
        Sign::Negative
    } else if key_of(bits) == 0 {
        Sign::Zero
    } else {
        Sign::Positive
    }
}

/// The sign as a number: -1, 0 or 1, and 0 for what is not a number.
pub open spec fn signum_of(bits: u64) -> int {
    match sign_of(bits) {
        Sign::Negative => -1,
        Sign::Positive => 1,
        _ => 0,
    }
}

/// Tells whether the pattern stands for no number.
pub fn not_a_number(bits: u64) -> (out: bool)
    ensures
        out == is_nan(bits),
{
    let m = if bits >= SIGN_BIT {
        bits - SIGN_BIT
    } else {
        bits
    };
    m > INFINITY_BITS
}

/// The key of a sample, by which it is ordered. What is not a number has no
/// place in the order and no key.
pub fn key(bits: u64) -> (out: Option<i64>)
    ensures
        out.is_none() <==> is_nan(bits),
        out.is_some() ==> out.unwrap() == key_of(bits),
{
    if not_a_number(bits) {
        None
    } else if bits >= SIGN_BIT {
        let m = (bits - SIGN_BIT) as i64;
        Some(-m)
    } else {
        Some(bits as i64)
    }
}

/// The keys of all samples of a series, unless one of them is not a number.
pub fn keys(bits: &[u64]) -> (out: Option<Vec<i64>>)
    ensures
        out.is_none() <==> exists|i: int| 0 <= i < bits@.len() && is_nan(#[trigger] bits@[i]),
        out.is_some() ==> {
            &&& out.unwrap().len() == bits@.len()
            &&& forall|i: int| 0 <= i < bits@.len() ==> #[trigger] out.unwrap()[i] == key_of(bits@[i])
        },
{
    let mut out: Vec<i64> = Vec::new();
    let mut i: usize = 0;
    while i < bits.len()
        invariant
            i <= bits@.len(),
            out.len() == i,
            forall|k: int| 0 <= k < i ==> !is_nan(#[trigger] bits@[k]),
            forall|k: int| 0 <= k < i ==> out[k] == key_of(bits@[k]),
        decreases bits@.len() - i,
    {
        match key(bits[i]) {
            Some(k) => {
                out.push(k);
            },
            None => {
                return None;
            },
        }
        i += 1;
    }
    Some(out)
}

/// The sign of a sample.
pub fn sign(bits: u64) -> (out: Sign)
    ensures
        out == sign_of(bits),
{
    match key(bits) {
        None => Sign::Undefined,
        Some(k) => {
            if k < 0 {
                Sign::Negative
            } else if k == 0 {
                Sign::Zero
            } else {
                Sign::Positive
            }
        },
    }
}

/// The sign of every sample as -1, 0 or 1; what is not a number gets 0.
pub fn sign_mask(bits: &[u64]) -> (out: Vec<i8>)
    ensures
        out.len() == bits@.len(),
        forall|i: int| 0 <= i < out.len() ==> #[trigger] out[i] == signum_of(bits@[i]),
{
    let mut out: Vec<i8> = Vec::new();
    let mut i: usize = 0;
    while i < bits.len()
        invariant
            i <= bits@.len(),
            out.len() == i,
            forall|k: int| 0 <= k < i ==> out[k] == signum_of(bits@[k]),
        decreases bits@.len() - i,
    {
        let s: i8 = match sign(bits[i]) {
            Sign::Negative => -1,
            Sign::Positive => 1,
            _ => 0,
        };
        out.push(s);
        i += 1;
    }
    out
}

/// Sample `a` is less than sample `b`. Nothing is less than what is not a
/// number, and what is not a number is less than nothing.
pub open spec fn less(a: u64, b: u64) -> bool {
    !is_nan(a) && !is_nan(b) && key_of(a) < key_of(b)
}

/// Tells whether sample `a` is less than sample `b`.
pub fn is_less(a: u64, b: u64) -> (out: bool)
    ensures
        out == less(a, b),
{
    match (key(a), key(b)) {
        (Some(x), Some(y)) => x < y,
        _ => false,
    }
}

/// Sample `a` equals sample `b`: both are numbers of the same value. The two
/// zeros are equal; what is not a number equals nothing, not even itself.
pub open spec fn equal(a: u64, b: u64) -> bool {
    !is_nan(a) && !is_nan(b) && key_of(a) == key_of(b)
}

/// Tells whether sample `a` equals sample `b`.
pub fn is_equal(a: u64, b: u64) -> (out: bool)
    ensures
        out == equal(a, b),
{
    match (key(a), key(b)) {
        (Some(x), Some(y)) => x == y,
        _ => false,
    }
}

/// Lists, in rising order, the indices of the samples that are numbers.
pub fn present(bits: &[u64]) -> (out: Vec<usize>)
    ensures
        forall|k: int| 0 <= k < out.len() ==> out[k] < bits@.len() && !is_nan(bits@[out[k] as int]),
        forall|k: int, l: int| 0 <= k < l < out.len() ==> out[k] < out[l],
        forall|i: int| 0 <= i < bits@.len() && !is_nan(bits@[i]) ==> out@.contains(i as usize),
{
    let mut out: Vec<usize> = Vec::new();
    let mut i: usize = 0;
    while i < bits.len()
        invariant
            i <= bits@.len(),
            forall|k: int| 0 <= k < out.len() ==> out[k] < i && !is_nan(bits@[out[k] as int]),
            forall|k: int, l: int| 0 <= k < l < out.len() ==> out[k] < out[l],
            forall|j: int| 0 <= j < i && !is_nan(bits@[j]) ==> out@.contains(j as usize),
        decreases bits@.len() - i,
    {
        if !not_a_number(bits[i]) {
            let ghost before = out@;
            out.push(i);
            proof {
                assert forall|j: int| 0 <= j < i + 1 && !is_nan(bits@[j]) implies out@.contains(
                    j as usize,
                ) by {
                    if j < i {
                        assert(before.contains(j as usize));
                        let k = choose|k: int| 0 <= k < before.len() && before[k] == j as usize;
                        assert(out@[k] == j as usize);
                    } else {
                        assert(out@[out.len() - 1] == j as usize);
                    }
                }
            }
        }
        i += 1;
    }
    out
}

/// Sample `i` is the earliest of the least numbers among the samples.
pub open spec fn is_least(bits: Seq<u64>, i: int) -> bool {
    &&& 0 <= i < bits.len()
    &&& !is_nan(bits[i])
    &&& forall|j: int|
        0 <= j < bits.len() && !is_nan(#[trigger] bits[j]) ==> key_of(bits[i]) <= key_of(bits[j]) && (key_of(
            bits[j],
        ) == key_of(bits[i]) ==> i <= j)
}

/// Sample `i` is the earliest of the greatest numbers among the samples.
pub open spec fn is_greatest(bits: Seq<u64>, i: int) -> bool {
    &&& 0 <= i < bits.len()
    &&& !is_nan(bits[i])
    &&& forall|j: int|
        0 <= j < bits.len() && !is_nan(#[trigger] bits[j]) ==> key_of(bits[j]) <= key_of(bits[i]) && (key_of(
            bits[j],
        ) == key_of(bits[i]) ==> i <= j)
}

/// Finds the least and the greatest sample in one pass that starts from the
/// first sample and moves on whenever a sample is less than the least, or
/// greater than the greatest, seen so far. What is not a number is passed
/// over; but a series that begins with one never moves on from it.
pub fn span(bits: &[u64]) -> (out: Option<(usize, usize)>)
    ensures
        out.is_none() <==> bits@.len() == 0,
        out.is_some() && is_nan(bits@[0]) ==> out == Some((0usize, 0usize)),
        out.is_some() && !is_nan(bits@[0]) ==> is_least(bits@, out.unwrap().0 as int) && is_greatest(
            bits@,
            out.unwrap().1 as int,
        ),
{
    let n = bits.len();
    if n == 0 {
        return None;
    }
    let mut lo: usize = 0;
    let mut hi: usize = 0;
    let mut i: usize = 1;
    while i < n
        invariant
            n == bits@.len(),
            1 <= i <= n,
            lo < i,
            hi < i,
            is_nan(bits@[0]) ==> lo == 0 && hi == 0,
            !is_nan(bits@[0]) ==> is_least(bits@.take(i as int), lo as int) && is_greatest(
                bits@.take(i as int),
                hi as int,
            ),
        decreases n - i,
    {
        let ghost seen = bits@.take(i as int);
        let ghost next = bits@.take(i + 1);
        if is_less(bits[i], bits[lo]) {
            lo = i;
        }
        if is_less(bits[hi], bits[i]) {
            hi = i;
        }
        proof {
            if !is_nan(bits@[0]) {
                assert forall|j: int| 0 <= j < next.len() && !is_nan(#[trigger] next[j]) implies key_of(
                    next[lo as int],
                ) <= key_of(next[j]) && (key_of(next[j]) == key_of(next[lo as int]) ==> lo <= j) by {
                    if j < i {
                        assert(!is_nan(seen[j]));
                    }
                }
                assert forall|j: int| 0 <= j < next.len() && !is_nan(#[trigger] next[j]) implies key_of(
                    next[j],
                ) <= key_of(next[hi as int]) && (key_of(next[j]) == key_of(next[hi as int]) ==> hi <= j) by {
                    if j < i {
                        assert(!is_nan(seen[j]));
                    }
                }
            }
        }
        i += 1;
    }
    proof {
        assert(bits@.take(n as int) =~= bits@);
    }
    Some((lo, hi))
}

/// Samples that are numbers have the same key only if they are the same
/// pattern or both are zero, and no key lies beyond those of the infinities.
pub proof fn lemma_key_tells_samples_apart(a: u64, b: u64)
    requires
        !is_nan(a),
        !is_nan(b),
    ensures
        key_of(a) == key_of(b) <==> a == b || (magnitude(a) == 0 && magnitude(b) == 0),
        -(INFINITY_BITS as int) <= key_of(a) <= INFINITY_BITS,
{
}

} // verus!
