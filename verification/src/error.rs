//! The ways in which a request to the allocator can be turned down.

use vstd::prelude::*;

verus! {

/// Why an operation on the allocator could not be honoured.
#[derive(Clone, Copy, Debug, PartialEq, Eq, Structural)]
pub enum AllocError {
    /// The handle's position lies beyond the end of the slot table.
    NotFound,
    /// The position exists, but the slot's generation differs from the handle's.
    StaleHandle,
    /// The handle is current, but the slot it names holds no value to replace.
    OverwriteEmpty,
    /// The free list named a position that the slot table does not have.
    Internal,
}

} // verus!
