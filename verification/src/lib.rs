//! The exact core of a statistics engine for dense arrays of doubles.
//!
//! The engine computes means, variances, quantiles, rolling statistics,
//! outlier flags, scalings, covariances and density estimates. Whatever such a
//! kernel decides without arithmetic on the values is decided here, and proved:
//!
//! - `sample` reads a double as a bit pattern and tells its sign, whether it
//!   is a number, and how it compares with another;
//! - `order` sorts samples by key, stably, and ranks them;
//! - `quantile` finds the ranks between which a quantile lies;
//! - `bins` cuts the ranks into bins of near-equal size;
//! - `bounds` tells which samples lie outside two fences;
//! - `window` moves a window over a series, one sample at a time;
//! - `shift` pairs each sample with the one a number of steps back or ahead;
//! - `axis` and `table` lay out the rows and columns of an array;
//! - `grid` lays out the points at which a density is evaluated;
//! - `moment` tells what a sum of squared deviations is divided by;
//! - `error` names the arguments that are refused.
//!
//! The caller owns the values and does the arithmetic on them.

pub mod axis;
pub mod bins;
pub mod bounds;
pub mod error;
pub mod grid;
pub mod moment;
pub mod order;
pub mod quantile;
pub mod sample;
pub mod shift;
pub mod table;
pub mod window;
