//! What the sample moments divide by.

use vstd::prelude::*;

verus! {

/// The degrees of freedom that `count` samples leave once their mean has been
/// taken: one less than their number. A sum of squared deviations is divided
/// by it. Fewer than two samples leave none, and no variance is defined.
pub fn degrees_of_freedom(count: usize) -> (out: Option<usize>)
    ensures
        out.is_some() <==> count >= 2,
        out.is_some() ==> out.unwrap() == count - 1,
{
    if count >= 2 {
        Some(count - 1)
    } else {
        None
    }
}

} // verus!
