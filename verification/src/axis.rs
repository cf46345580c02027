//! Which lanes of an array a reduction along an axis runs over.

use vstd::prelude::*;
use crate::error::InvalidArgument;

verus! {

/// The lanes that a mean along an axis is taken over.
#[derive(Debug, Clone, Copy, PartialEq, Eq, Structural)]
pub enum Lanes {
    /// All samples of a one-dimensional array form the single lane.
    Whole,
    /// One lane per column: the reduction runs down the rows.
    Columns,
    /// One lane per row: the reduction runs along the columns.
    Rows,
}

/// Decides which lanes a mean along `axis` covers for an array of the given
/// rank.
///
/// A one-dimensional array has the single axis 0 and must be contiguous. A
/// two-dimensional one is reduced along axis 0 (one mean per column) or axis 1
/// (one mean per row). Everything else is refused.
pub fn lanes(rank: usize, axis: isize, contiguous: bool) -> (out: Result<Lanes, InvalidArgument>)
    ensures
        out == Ok::<Lanes, InvalidArgument>(Lanes::Whole) <==> rank == 1 && axis == 0 && contiguous,
        out == Ok::<Lanes, InvalidArgument>(Lanes::Columns) <==> rank == 2 && axis == 0,
        out == Ok::<Lanes, InvalidArgument>(Lanes::Rows) <==> rank == 2 && axis == 1,
        out == Err::<Lanes, InvalidArgument>(InvalidArgument::NotContiguous) <==> rank == 1 && axis == 0
            && !contiguous,
        out == Err::<Lanes, InvalidArgument>(InvalidArgument::AxisOutOfRange { rank, axis }) <==> (rank == 1
            && axis != 0) || (rank == 2 && axis != 0 && axis != 1),
        out == Err::<Lanes, InvalidArgument>(InvalidArgument::UnsupportedRank { rank }) <==> rank != 1 && rank
            != 2,
{
    if rank == 1 {
        if axis != 0 {
            Err(InvalidArgument::AxisOutOfRange { rank, axis })
        } else if !contiguous {
            Err(InvalidArgument::NotContiguous)
        } else {
            Ok(Lanes::Whole)
        }
    } else if rank == 2 {
        if axis == 0 {
            Ok(Lanes::Columns)
        } else if axis == 1 {
            Ok(Lanes::Rows)
        } else {
            Err(InvalidArgument::AxisOutOfRange { rank, axis })
        }
    } else {
        Err(InvalidArgument::UnsupportedRank { rank })
    }
}

/// How an array of any rank splits into rows along its last axis.
#[derive(Debug, Clone, Copy, PartialEq, Eq, Structural)]
pub enum LastAxis {
    /// An array of rank zero holds one value and has no axis to reduce.
    Scalar,
    /// `count` rows of `width` entries each, one after the other.
    Rows { count: usize, width: usize },
}

/// The product of the extents in `dims`; the empty product is one.
pub open spec fn extent(dims: Seq<usize>) -> nat
    decreases dims.len(),
{
    if dims.len() == 0 {
        1
    } else {
        extent(dims.drop_last()) * (dims.last() as nat)
    }
}

/// An extent of zero anywhere makes the whole product zero.
proof fn lemma_extent_zero(dims: Seq<usize>, k: int)
    requires
        0 <= k < dims.len(),
        dims[k] == 0,
    ensures
        extent(dims) == 0,
    decreases dims.len(),
{
    if k == dims.len() - 1 {
        assert(extent(dims.drop_last()) * 0 == 0) by (nonlinear_arith);
    } else {
        lemma_extent_zero(dims.drop_last(), k);
        assert(0 * (dims.last() as nat) == 0) by (nonlinear_arith);
    }
}

/// With no extent of zero, the product never shrinks as axes are added.
proof fn lemma_extent_grows(dims: Seq<usize>, k: int)
    requires
        0 <= k <= dims.len(),
        forall|i: int| 0 <= i < dims.len() ==> dims[i] >= 1,
    ensures
        1 <= extent(dims.take(k)) <= extent(dims),
    decreases dims.len() - k,
{
    if k == dims.len() {
        assert(dims.take(k) =~= dims);
        lemma_extent_positive(dims);
    } else {
        lemma_extent_grows(dims, k + 1);
        let longer = dims.take(k + 1);
        assert(longer.drop_last() =~= dims.take(k));
        assert(longer.last() == dims[k]);
        lemma_extent_positive(dims.take(k));
        assert(extent(dims.take(k)) <= extent(dims.take(k)) * (dims[k] as nat)) by (nonlinear_arith)
            requires
                dims[k] >= 1,
                extent(dims.take(k)) >= 1,
        ;
    }
}

/// With no extent of zero, the product is at least one.
proof fn lemma_extent_positive(dims: Seq<usize>)
    requires
        forall|i: int| 0 <= i < dims.len() ==> dims[i] >= 1,
    ensures
        extent(dims) >= 1,
    decreases dims.len(),
{
    if dims.len() > 0 {
        lemma_extent_positive(dims.drop_last());
        assert(extent(dims.drop_last()) * (dims.last() as nat) >= 1) by (nonlinear_arith)
            requires
                extent(dims.drop_last()) >= 1,
                dims.last() >= 1,
        ;
    }
}

/// Splits an array of the given shape into rows along its last axis: all
/// leading axes are flattened into the row count.
///
/// Refused only when the row count cannot be represented.
pub fn last_axis(shape: &[usize]) -> (out: Result<LastAxis, InvalidArgument>)
    ensures
        shape@.len() == 0 ==> out == Ok::<LastAxis, InvalidArgument>(LastAxis::Scalar),
        shape@.len() > 0 && extent(shape@.drop_last()) <= usize::MAX ==> out == Ok::<
            LastAxis,
            InvalidArgument,
        >(LastAxis::Rows { count: extent(shape@.drop_last()) as usize, width: shape@.last() }),
        shape@.len() > 0 && extent(shape@.drop_last()) > usize::MAX ==> out == Err::<
            LastAxis,
            InvalidArgument,
        >(InvalidArgument::TooLarge),
{
    let rank = shape.len();
    if rank == 0 {
        return Ok(LastAxis::Scalar);
    }
    let lead = rank - 1;
    let ghost dims = shape@.drop_last();
    let width = shape[lead];

    let mut k: usize = 0;
    while k < lead
        invariant
            lead == rank - 1,
            rank == shape@.len(),
            dims == shape@.drop_last(),
            width == shape@.last(),
            k <= lead,
            forall|i: int| 0 <= i < k ==> dims[i] >= 1,
        decreases lead - k,
    {
        if shape[k] == 0 {
            proof {
                lemma_extent_zero(dims, k as int);
            }
            return Ok(LastAxis::Rows { count: 0, width });
        }
        k += 1;
    }

    let mut count: usize = 1;
    let mut k: usize = 0;
    while k < lead
        invariant
            lead == rank - 1,
            rank == shape@.len(),
            dims == shape@.drop_last(),
            width == shape@.last(),
            k <= lead,
            forall|i: int| 0 <= i < lead ==> dims[i] >= 1,
            count == extent(dims.take(k as int)),
        decreases lead - k,
    {
        proof {
            assert(dims.take(k + 1).drop_last() =~= dims.take(k as int));
            assert(dims.take(k + 1).last() == shape@[k as int]);
        }
        match count.checked_mul(shape[k]) {
            Some(next) => {
                count = next;
            },
            None => {
                proof {
                    lemma_extent_grows(dims, k + 1);
                }
                return Err(InvalidArgument::TooLarge);
            },
        }
        k += 1;
    }
    proof {
        assert(dims.take(lead as int) =~= dims);
    }
    Ok(LastAxis::Rows { count, width })
}

} // verus!
