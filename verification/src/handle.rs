//! Handles: the capabilities that the allocator gives out.

use vstd::prelude::*;

verus! {

/// The mathematical content of a handle: a position in the slot table and
/// the generation that the slot had when the handle was issued.
pub struct Handle {
    pub index: nat,
    pub generation: nat,
}

/// A handle issued by the allocator.
///
/// A handle is a plain copyable value. Whether it still reaches a value is
/// decided by the allocator on every access.
#[derive(Clone, Copy, Debug, PartialEq, Eq, Structural)]
pub struct GenIndex {
    index: usize,
    generation: u32,
}

impl View for GenIndex {
    type V = Handle;

    closed spec fn view(&self) -> Handle {
        Handle { index: self.index as nat, generation: self.generation as nat }
    }
}

impl GenIndex {
    /// Builds the handle for `index` at `generation`.
    pub(crate) fn new(index: usize, generation: u32) -> (handle: GenIndex)
        ensures
            handle@ == (Handle { index: index as nat, generation: generation as nat }),
    {
        GenIndex { index, generation }
    }

    /// The handle for the same position, one generation later.
    pub(crate) fn next_generation(&self) -> (handle: GenIndex)
        requires
            self@.generation < u32::MAX,
        ensures
            handle@ == (Handle { index: self@.index, generation: self@.generation + 1 }),
    {
        GenIndex { index: self.index, generation: self.generation + 1 }
    }

    /// The position in the slot table that this handle names.
    pub fn index(&self) -> (index: usize)
        ensures
            index == self@.index,
    {
        self.index
    }

    /// The generation that the slot had when this handle was issued.
    pub fn generation(&self) -> (generation: u32)
        ensures
            generation == self@.generation,
    {
        self.generation
    }

    /// Two handles with the same position and generation are the same handle.
    pub proof fn law_same_view_same_handle(self, other: GenIndex)
        requires
            self@ == other@,
        ensures
            self == other,
    {
    }
}

} // verus!
