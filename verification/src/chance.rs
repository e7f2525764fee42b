//! Random choices.

use vstd::prelude::*;

verus! {

/// `rand::random_range`: claims only that the number lies in the range. An
/// empty range has no number to draw.
#[verifier::external_body]
pub(crate) fn random_between(from: usize, to: usize) -> (r: usize)
    requires
        from < to,
    ensures
        from <= r < to,
{
    rand::random_range(from..to)
}

} // verus!
