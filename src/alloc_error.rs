//! Allocation failures reported by the fallible collection operations.
use vstd::prelude::*;

verus! {

/// Why a collection could not grow.
#[derive(Clone, Copy, Debug, PartialEq, Eq, Structural)]
pub enum Error {
    /// The requested capacity does not fit in `usize`.
    CapacityOverflow,
    /// The allocator refused the request.
    AllocError,
}

} // verus!
