//! The grid on which a density estimate is evaluated.
//!
//! The grid has a fixed number of points, spaced evenly from the smallest
//! sample to the largest. Where all samples are equal there is no range to
//! spread the points over, and every point sits on that one value.

use vstd::prelude::*;
use crate::order::{extremes, is_first, is_last, precedes};

verus! {

/// How the points of the grid are laid out.
#[derive(Debug, Clone, Copy, PartialEq, Eq, Structural)]
pub enum Grid {
    /// No samples or no points: nothing to evaluate.
    Empty,
    /// All samples have the same key as sample `at`: every point sits there.
    Flat { points: usize, at: usize },
    /// The points run from sample `low` to sample `high`.
    Spread { points: usize, low: usize, high: usize },
}

/// Lays out a grid of `points` points over the samples.
pub fn grid(keys: &[i64], points: usize) -> (out: Grid)
    ensures
        out == Grid::Empty <==> keys@.len() == 0 || points == 0,
        out matches Grid::Flat { points: p, at } ==> {
            &&& p == points
            &&& is_first(keys@, at as int)
            &&& forall|i: int| 0 <= i < keys@.len() ==> keys@[i] == keys@[at as int]
        },
        out matches Grid::Spread { points: p, low, high } ==> {
            &&& p == points
            &&& is_first(keys@, low as int)
            &&& is_last(keys@, high as int)
            &&& keys@[low as int] < keys@[high as int]
        },
        (exists|i: int, j: int| 0 <= i < keys@.len() && 0 <= j < keys@.len() && keys@[i] != keys@[j])
            && points > 0 ==> out is Spread,
{
    if points == 0 {
        return Grid::Empty;
    }
    match extremes(keys) {
        None => Grid::Empty,
        Some((low, high)) => {
            if keys[low] == keys[high] {
                assert forall|i: int| 0 <= i < keys@.len() implies keys@[i] == keys@[low as int] by {
                    if i != low {
                        assert(precedes(keys@, low as int, i));
                    }
                    if i != high {
                        assert(precedes(keys@, i, high as int));
                    }
                }
                Grid::Flat { points, at: low }
            } else {
                assert(precedes(keys@, low as int, high as int));
                Grid::Spread { points, low, high }
            }
        },
    }
}

} // verus!
