//! The index checks of a transfer between two components of a
//! conservation-constrained solution.

use vstd::prelude::*;

verus! {

/// The message with which a transfer from a component to itself is refused.
pub open spec fn self_transfer_message() -> Seq<char> {
    "Cannot transfer to self"@
}

/// The message with which a transfer naming a missing component is refused.
pub open spec fn out_of_bounds_message() -> Seq<char> {
    "Index out of bounds"@
}

/// Checks that a transfer from component `from` to component `to`, among
/// `len` components, names two different components that both exist. A
/// transfer to itself is refused first.
pub fn check_transfer_indices(from: usize, to: usize, len: usize) -> (r: Result<(), &'static str>)
    ensures
        r is Ok <==> from != to && from < len && to < len,
        r matches Err(msg) ==> (from == to ==> msg@ == self_transfer_message()),
        r matches Err(msg) ==> (from != to ==> msg@ == out_of_bounds_message()),
{
    if from == to {
        Err("Cannot transfer to self")
    } else if !(from < len && to < len) {
        Err("Index out of bounds")
    } else {
        Ok(())
    }
}

} // verus!
