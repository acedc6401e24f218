//! The mathematical model of the allocator: a sequence of slots and a stack
//! of vacant positions, with the transitions that the operations perform.

use vstd::prelude::*;
use crate::error::AllocError;
use crate::handle::Handle;

verus! {

/// One position of the table: the generation that a handle must carry to
/// reach it, and the value it holds, if any.
pub struct Slot<T> {
    pub generation: nat,
    pub value: Option<T>,
}

/// The state of an allocator.
///
/// `slots` is the dense table, in position order. `free` is the stack of
/// vacant positions: its last element is the one that is reused next.
pub struct Table<T> {
    pub slots: Seq<Slot<T>>,
    pub free: Seq<nat>,
}

impl<T> Table<T> {
    /// The table with no slots and nothing to reuse.
    pub open spec fn empty() -> Table<T> {
        Table { slots: Seq::empty(), free: Seq::empty() }
    }

    /// The free list holds exactly the vacant positions, each of them once.
    pub open spec fn wf(self) -> bool {
        &&& forall|k: int|
            0 <= k < self.free.len() ==> (#[trigger] self.free[k]) < self.slots.len()
                && self.slots[self.free[k] as int].value is None
        &&& self.free.no_duplicates()
        &&& forall|i: int|
            0 <= i < self.slots.len() && (#[trigger] self.slots[i]).value is None
                ==> self.free.contains(i as nat)
    }

    /// Whether `handle` names an existing slot at its current generation.
    pub open spec fn validates(self, handle: Handle) -> bool {
        handle.index < self.slots.len() && self.slots[handle.index as int].generation
            == handle.generation
    }

    /// The value that `handle` reaches: that of its slot where the handle
    /// validates and the slot is occupied, and nothing otherwise.
    pub open spec fn lookup(self, handle: Handle) -> Option<T> {
        if self.validates(handle) {
            self.slots[handle.index as int].value
        } else {
            None
        }
    }

    /// Why `handle` is turned down, if it is: its position is out of range,
    /// or its generation is not the slot's current one.
    pub open spec fn rejection(self, handle: Handle) -> Option<AllocError> {
        if handle.index >= self.slots.len() {
            Some(AllocError::NotFound)
        } else if self.slots[handle.index as int].generation != handle.generation {
            Some(AllocError::StaleHandle)
        } else {
            None
        }
    }

    /// The handle that the next allocation returns: the most recently freed
    /// position at its generation plus one, or, with nothing to reuse, a new
    /// position at the end of the table at generation zero.
    pub open spec fn next_handle(self) -> Handle {
        if self.free.len() > 0 {
            Handle {
                index: self.free.last(),
                generation: self.slots[self.free.last() as int].generation + 1,
            }
        } else {
            Handle { index: self.slots.len(), generation: 0 }
        }
    }

    /// The table after allocating `value`.
    pub open spec fn allocate(self, value: T) -> Table<T> {
        let handle = self.next_handle();
        let slot = Slot { generation: handle.generation, value: Some(value) };
        if self.free.len() > 0 {
            Table {
                slots: self.slots.update(handle.index as int, slot),
                free: self.free.drop_last(),
            }
        } else {
            Table { slots: self.slots.push(slot), free: self.free }
        }
    }

    /// What deallocating `handle` returns: the rejection, or else what the
    /// slot held, which is nothing where it was vacant already.
    pub open spec fn deallocate_result(self, handle: Handle) -> Result<Option<T>, AllocError> {
        match self.rejection(handle) {
            Some(error) => Err(error),
            None => Ok(self.slots[handle.index as int].value),
        }
    }

    /// The table after deallocating `handle`. Where the handle reaches a
    /// value, the slot is vacated at its generation and its position is put
    /// on top of the free list. Otherwise nothing changes.
    pub open spec fn deallocate(self, handle: Handle) -> Table<T> {
        if self.lookup(handle) is Some {
            Table {
                slots: self.slots.update(
                    handle.index as int,
                    Slot { generation: handle.generation, value: None },
                ),
                free: self.free.push(handle.index),
            }
        } else {
            self
        }
    }

    /// What setting the value behind `handle` returns: the rejection, the
    /// refusal to fill a vacant slot, or else the value that was replaced.
    pub open spec fn set_result(self, handle: Handle) -> Result<T, AllocError> {
        match self.rejection(handle) {
            Some(error) => Err(error),
            None => match self.slots[handle.index as int].value {
                Some(previous) => Ok(previous),
                None => Err(AllocError::OverwriteEmpty),
            },
        }
    }

    /// The table after storing `value` behind `handle`: the occupied slot
    /// that the handle reaches holds `value`, at the same generation. Where
    /// the handle reaches no value, nothing changes.
    pub open spec fn set(self, handle: Handle, value: T) -> Table<T> {
        if self.lookup(handle) is Some {
            Table {
                slots: self.slots.update(
                    handle.index as int,
                    Slot { generation: handle.generation, value: Some(value) },
                ),
                free: self.free,
            }
        } else {
            self
        }
    }

    /// Allocation keeps the free list exact.
    pub proof fn lemma_allocate_wf(self, value: T)
        requires
            self.wf(),
        ensures
            self.allocate(value).wf(),
    {
        let after = self.allocate(value);
        if self.free.len() > 0 {
            let top = self.free.last();
            assert(self.free[self.free.len() - 1] == top);
            assert forall|k: int| 0 <= k < after.free.len() implies (#[trigger] after.free[k])
                < after.slots.len() && after.slots[after.free[k] as int].value is None by {
                assert(after.free[k] == self.free[k]);
                assert(self.free[k] != top);
            }
            assert forall|i: int|
                0 <= i < after.slots.len() && (#[trigger] after.slots[i]).value is None
                implies after.free.contains(i as nat) by {
                assert(i != top);
                assert(self.slots[i].value is None);
                assert(self.free.contains(i as nat));
                let k = choose|k: int| 0 <= k < self.free.len() && self.free[k] == i as nat;
                assert(k < self.free.len() - 1);
                assert(after.free[k] == i as nat);
            }
        } else {
            assert forall|i: int|
                0 <= i < after.slots.len() && (#[trigger] after.slots[i]).value is None
                implies after.free.contains(i as nat) by {
                assert(i < self.slots.len());
                assert(self.slots[i].value is None);
                assert(self.free.contains(i as nat));
            }
        }
    }

    /// Deallocation keeps the free list exact.
    pub proof fn lemma_deallocate_wf(self, handle: Handle)
        requires
            self.wf(),
        ensures
            self.deallocate(handle).wf(),
    {
        let after = self.deallocate(handle);
        if self.lookup(handle) is Some {
            let position = handle.index;
            assert(!self.free.contains(position)) by {
                if self.free.contains(position) {
                    let k = choose|k: int| 0 <= k < self.free.len() && self.free[k] == position;
                    assert(self.slots[self.free[k] as int].value is None);
                }
            }
            assert forall|k: int| 0 <= k < after.free.len() implies (#[trigger] after.free[k])
                < after.slots.len() && after.slots[after.free[k] as int].value is None by {
                if k < self.free.len() {
                    assert(after.free[k] == self.free[k]);
                }
            }
            assert(after.free.no_duplicates()) by {
                assert forall|a: int, b: int|
                    0 <= a < after.free.len() && 0 <= b < after.free.len() && a != b
                    implies after.free[a] != after.free[b] by {
                    if a < self.free.len() {
                        assert(self.free.contains(self.free[a]));
                    }
                    if b < self.free.len() {
                        assert(self.free.contains(self.free[b]));
                    }
                }
            }
            assert forall|i: int|
                0 <= i < after.slots.len() && (#[trigger] after.slots[i]).value is None
                implies after.free.contains(i as nat) by {
                if i == position {
                    assert(after.free[self.free.len() as int] == position);
                } else {
                    assert(self.slots[i].value is None);
                    let k = choose|k: int| 0 <= k < self.free.len() && self.free[k] == i as nat;
                    assert(after.free[k] == i as nat);
                }
            }
        }
    }

    /// Replacing a value keeps the free list exact.
    pub proof fn lemma_set_wf(self, handle: Handle, value: T)
        requires
            self.wf(),
        ensures
            self.set(handle, value).wf(),
    {
        let after = self.set(handle, value);
        if self.lookup(handle) is Some {
            assert forall|k: int| 0 <= k < after.free.len() implies (#[trigger] after.free[k])
                < after.slots.len() && after.slots[after.free[k] as int].value is None by {
                assert(self.slots[self.free[k] as int].value is None);
            }
            assert forall|i: int|
                0 <= i < after.slots.len() && (#[trigger] after.slots[i]).value is None
                implies after.free.contains(i as nat) by {
                assert(self.slots[i].value is None);
            }
        }
    }
}

} // verus!
