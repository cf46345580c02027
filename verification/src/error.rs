//! The one failure the engine signals: an argument it cannot work with.

use vstd::prelude::*;

verus! {

/// Why a call was refused. A refused call has produced no output at all.
#[derive(Debug, Clone, Copy, PartialEq, Eq, Structural)]
pub enum InvalidArgument {
    /// The axis selector names no axis of an array of this rank.
    AxisOutOfRange { rank: usize, axis: isize },
    /// Reductions along an axis exist for arrays of rank one and two only.
    UnsupportedRank { rank: usize },
    /// The samples do not lie next to each other in memory.
    NotContiguous,
    /// A buffer of `len` entries does not fill a table of `rows` by `cols`.
    ShapeMismatch { rows: usize, cols: usize, len: usize },
    /// The shape describes more entries than can be addressed.
    TooLarge,
}

impl InvalidArgument {
    /// The text of the message that goes with each failure.
    pub open spec fn text(self) -> Seq<char> {
        match self {
            InvalidArgument::AxisOutOfRange { .. } => "axis is out of range for the rank of the input"@,
            InvalidArgument::UnsupportedRank { .. } => "only 1-D and 2-D inputs can be reduced along an axis"@,
            InvalidArgument::NotContiguous => "input must be contiguous"@,
            InvalidArgument::ShapeMismatch { .. } => "buffer length does not match the shape"@,
            InvalidArgument::TooLarge => "shape describes more entries than can be addressed"@,
        }
    }

    /// A description of the failure for the caller to show.
    pub fn message(&self) -> (out: String)
        ensures
            out@ == self.text(),
    {
        match self {
            InvalidArgument::AxisOutOfRange { .. } => "axis is out of range for the rank of the input".to_owned(),
            InvalidArgument::UnsupportedRank { .. } => "only 1-D and 2-D inputs can be reduced along an axis".to_owned(),
            InvalidArgument::NotContiguous => "input must be contiguous".to_owned(),
            InvalidArgument::ShapeMismatch { .. } => "buffer length does not match the shape".to_owned(),
            InvalidArgument::TooLarge => "shape describes more entries than can be addressed".to_owned(),
        }
    }
}

} // verus!
