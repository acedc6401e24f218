//! The allocator, backed by a growable vector of slots and a stack of
//! vacant positions.

use vstd::prelude::*;
use crate::error::AllocError;
use crate::handle::GenIndex;
use crate::table::{Slot, Table};

verus! {

/// One slot of the table: the handle that currently reaches it, and the
/// value it holds, if any.
struct GenIndexEntry<T> {
    key: GenIndex,
    value: Option<T>,
}

/// A store of values behind generation-checked handles.
///
/// Slots are never removed. A freed slot is reused by a later allocation,
/// most recently freed first, at a generation one higher, so that handles
/// issued for the slot before no longer validate.
pub struct GenIndexAllocator<T> {
    entries: Vec<GenIndexEntry<T>>,
    free_indices: Vec<usize>,
}

impl<T> View for GenIndexAllocator<T> {
    type V = Table<T>;

    closed spec fn view(&self) -> Table<T> {
        table_of(self.entries@, self.free_indices@)
    }
}

/// `Vec::capacity` of std: the number of elements that the vector can hold
/// without reallocating. It is never less than the number that it holds.
/// How much more room an allocation gave is not stated.
#[verifier::external_body]
fn reserved_slots<T>(entries: &Vec<T>) -> (capacity: usize)
    ensures
        capacity >= entries@.len(),
{
    entries.capacity()
}

/// Every entry's key names the entry's own position.
spec fn keys_in_place<T>(entries: Seq<GenIndexEntry<T>>) -> bool {
    forall|i: int| 0 <= i < entries.len() ==> (#[trigger] entries[i]).key@.index == i
}

/// The table that a vector of entries and a stack of positions stand for.
spec fn table_of<T>(entries: Seq<GenIndexEntry<T>>, free: Seq<usize>) -> Table<T> {
    Table {
        slots: Seq::new(
            entries.len(),
            |i: int| Slot { generation: entries[i].key@.generation, value: entries[i].value },
        ),
        free: Seq::new(free.len(), |k: int| free[k] as nat),
    }
}

/// Putting an occupied entry with the same key in the place of an occupied
/// entry is the table's `set`, and leaves every key in place.
proof fn lemma_replace_entry<T>(
    entries: Seq<GenIndexEntry<T>>,
    free: Seq<usize>,
    key: GenIndex,
    entry: GenIndexEntry<T>,
)
    requires
        keys_in_place(entries),
        table_of(entries, free).wf(),
        table_of(entries, free).lookup(key@) is Some,
        entry.key == entries[key@.index as int].key,
        entry.value is Some,
    ensures
        keys_in_place(entries.update(key@.index as int, entry)),
        table_of(entries.update(key@.index as int, entry), free) == table_of(entries, free).set(
            key@,
            entry.value->0,
        ),
        table_of(entries, free).set(key@, entry.value->0).wf(),
{
    let replaced = entries.update(key@.index as int, entry);
    let after = table_of(entries, free).set(key@, entry.value->0);
    assert(table_of(replaced, free).slots =~= after.slots);
    table_of(entries, free).lemma_set_wf(key@, entry.value->0);
}

impl<T> GenIndexAllocator<T> {
    /// Every slot's key names the slot's own position.
    pub closed spec fn keyed_by_position(&self) -> bool {
        keys_in_place(self.entries@)
    }

    /// The allocator is consistent: its keys are in place and its free list
    /// holds exactly the vacant positions, each of them once.
    pub open spec fn wf(&self) -> bool {
        self.keyed_by_position() && self@.wf()
    }

    /// The next allocation does not exhaust the generation counter of the
    /// slot that it would reuse.
    pub open spec fn spec_can_allocate(&self) -> bool {
        self@.next_handle().generation <= u32::MAX
    }

    /// Creates an empty allocator with room reserved for a hundred slots.
    pub fn new() -> (allocator: Self)
        ensures
            allocator.wf(),
            allocator@ == Table::<T>::empty(),
    {
        Self::with_capacity(100)
    }

    /// Creates an empty allocator with room reserved for `capacity` slots.
    ///
    /// The reservation is a hint to the backing vector and no part of the
    /// table: the allocator is the empty one whatever `capacity` is, and
    /// how much room the vector holds is read with `capacity`.
    pub fn with_capacity(capacity: usize) -> (allocator: Self)
        ensures
            allocator.wf(),
            allocator@ == Table::<T>::empty(),
    {
        let allocator = Self { entries: Vec::with_capacity(capacity), free_indices: Vec::new() };
        proof {
            assert(allocator@.slots =~= Seq::empty());
            assert(allocator@.free =~= Seq::empty());
        }
        allocator
    }

    /// The number of slots in the table, occupied or vacant.
    pub fn len(&self) -> (len: usize)
        ensures
            len == self@.slots.len(),
    {
        self.entries.len()
    }

    /// The number of slots that the table can hold before it has to grow.
    pub fn capacity(&self) -> (capacity: usize)
        ensures
            capacity >= self@.slots.len(),
    {
        reserved_slots(&self.entries)
    }

    /// Whether the next allocation can be made: it cannot once the slot
    /// that it would reuse has been through every generation.
    #[verifier::when_used_as_spec(spec_can_allocate)]
    pub fn can_allocate(&self) -> (possible: bool)
        requires
            self.wf(),
        ensures
            possible == self.spec_can_allocate(),
    {
        let waiting = self.free_indices.len();
        if waiting == 0 {
            return true;
        }
        let position = self.free_indices[waiting - 1];
        proof {
            assert(self@.free[waiting - 1] == position);
        }
        self.entries[position].key.generation() < u32::MAX
    }

    /// Stores `value` and returns the handle that reaches it.
    ///
    /// The most recently freed slot is reused, at its generation plus one.
    /// With no freed slot, a new slot is appended at generation zero.
    pub fn allocate(&mut self, value: T) -> (result: Result<GenIndex, AllocError>)
        requires
            old(self).wf(),
            old(self).can_allocate(),
        ensures
            final(self).wf(),
            final(self)@ == old(self)@.allocate(value),
            result is Ok,
            result->Ok_0@ == old(self)@.next_handle(),
    {
        proof {
            old(self)@.lemma_allocate_wf(value);
        }
        let ghost before = old(self)@;
        match self.free_indices.pop() {
            None => {
                let new_key = GenIndex::new(self.entries.len(), 0);
                self.entries.push(GenIndexEntry { key: new_key, value: Some(value) });
                proof {
                    assert(self@.slots =~= before.allocate(value).slots);
                    assert(self@.free =~= before.allocate(value).free);
                }
                Ok(new_key)
            },
            Some(free_idx) => {
                proof {
                    assert(before.free[before.free.len() - 1] == free_idx);
                }
                if free_idx >= self.entries.len() {
                    return Err(AllocError::Internal);
                }
                let entry = &mut self.entries[free_idx];
                entry.key = entry.key.next_generation();
                entry.value = Some(value);
                let key = entry.key;
                proof {
                    assert(self@.slots =~= before.allocate(value).slots);
                    assert(self@.free =~= before.allocate(value).free);
                }
                Ok(key)
            },
        }
    }

    /// Replaces the value behind `key` and returns the one that was there.
    ///
    /// The slot keeps its generation. A vacant slot is not filled: that is
    /// what `allocate` is for.
    pub fn set(&mut self, key: &GenIndex, value: T) -> (result: Result<T, AllocError>)
        requires
            old(self).wf(),
        ensures
            final(self).wf(),
            final(self)@ == old(self)@.set(key@, value),
            result == old(self)@.set_result(key@),
    {
        proof {
            old(self)@.lemma_set_wf(key@, value);
        }
        let ghost before = old(self)@;
        if key.index() >= self.entries.len() {
            return Err(AllocError::NotFound);
        }
        let entry = &mut self.entries[key.index()];
        if entry.key.generation() != key.generation() {
            proof {
                assert(self.entries@ =~= old(self).entries@);
            }
            return Err(AllocError::StaleHandle);
        }
        if entry.value.is_none() {
            proof {
                assert(self.entries@ =~= old(self).entries@);
            }
            return Err(AllocError::OverwriteEmpty);
        }
        let previous = entry.value.take();
        entry.value = Some(value);
        proof {
            assert(self@.slots =~= before.set(key@, value).slots);
            assert(self@.free =~= before.set(key@, value).free);
        }
        Ok(previous.unwrap())
    }

    /// Frees the slot behind `key` and returns what it held.
    ///
    /// The slot keeps its generation until it is reused, so `key` still
    /// validates afterwards, and reaches nothing. Freeing a slot that is
    /// vacant already returns `None` and changes nothing: a position is
    /// never queued for reuse twice.
    pub fn deallocate(&mut self, key: &GenIndex) -> (result: Result<Option<T>, AllocError>)
        requires
            old(self).wf(),
        ensures
            final(self).wf(),
            final(self)@ == old(self)@.deallocate(key@),
            result == old(self)@.deallocate_result(key@),
    {
        proof {
            old(self)@.lemma_deallocate_wf(key@);
        }
        let ghost before = old(self)@;
        if key.index() >= self.entries.len() {
            return Err(AllocError::NotFound);
        }
        let entry = &mut self.entries[key.index()];
        if entry.key.generation() != key.generation() {
            proof {
                assert(self.entries@ =~= old(self).entries@);
            }
            return Err(AllocError::StaleHandle);
        }
        let value = entry.value.take();
        if value.is_some() {
            self.free_indices.push(key.index());
            proof {
                assert(self@.slots =~= before.deallocate(key@).slots);
                assert(self@.free =~= before.deallocate(key@).free);
            }
        } else {
            proof {
                assert(self.entries@ =~= old(self).entries@);
            }
        }
        Ok(value)
    }

    /// The value that `key` reaches, if it reaches one.
    pub fn get(&self, key: &GenIndex) -> (result: Option<&T>)
        ensures
            match result {
                Some(value) => self@.lookup(key@) == Some(*value),
                None => self@.lookup(key@) is None,
            },
    {
        if key.index() >= self.entries.len() {
            return None;
        }
        let entry = &self.entries[key.index()];
        if entry.key.generation() != key.generation() {
            return None;
        }
        entry.value.as_ref()
    }

    /// Exclusive access to the value that `key` reaches, if it reaches one.
    ///
    /// Writing through the reference replaces the value in place: the slot
    /// stays occupied, at the same generation.
    pub fn get_mut(&mut self, key: &GenIndex) -> (result: Option<&mut T>)
        requires
            old(self).wf(),
        ensures
            final(self).wf(),
            match result {
                Some(value) => old(self)@.lookup(key@) == Some(*value) && final(self)@ == old(
                    self,
                )@.set(key@, *final(value)),
                None => old(self)@.lookup(key@) is None && final(self)@ == old(self)@,
            },
    {
        if key.index() >= self.entries.len() {
            return None;
        }
        if self.entries[key.index()].key.generation() != key.generation() {
            return None;
        }
        if self.entries[key.index()].value.is_none() {
            return None;
        }
        proof {
            assert forall|entry: GenIndexEntry<T>|
                #![trigger self.entries@.update(key@.index as int, entry)]
                entry.key == self.entries@[key@.index as int].key && entry.value is Some implies {
                    &&& keys_in_place(self.entries@.update(key@.index as int, entry))
                    &&& table_of(
                        self.entries@.update(key@.index as int, entry),
                        self.free_indices@,
                    ) == self@.set(key@, entry.value->0)
                    &&& self@.set(key@, entry.value->0).wf()
                } by {
                lemma_replace_entry(self.entries@, self.free_indices@, *key, entry);
            }
        }
        let entry = &mut self.entries[key.index()];
        entry.value.as_mut()
    }
}

impl<T> Default for GenIndexAllocator<T> {
    /// The allocator that `new` creates.
    fn default() -> (allocator: Self)
        ensures
            allocator.wf(),
            allocator@ == Table::<T>::empty(),
    {
        Self::new()
    }
}

} // verus!
