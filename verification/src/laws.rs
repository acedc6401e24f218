//! What holds of the allocator across calls, proved over the model that
//! the operations' contracts are stated in.

use vstd::prelude::*;
use crate::error::AllocError;
use crate::handle::Handle;
use crate::history::Op;
use crate::table::Table;

verus! {

/// The handle that an allocation returns reaches the value that was
/// allocated.
pub proof fn law_allocated_value_is_reachable<T>(table: Table<T>, value: T)
    requires
        table.wf(),
    ensures
        table.allocate(value).lookup(table.next_handle()) == Some(value),
{
    if table.free.len() > 0 {
        assert(table.free[table.free.len() - 1] == table.free.last());
    }
}

/// An allocation leaves every value that was reachable before reachable
/// through the same handle.
pub proof fn law_allocation_keeps_other_values<T>(table: Table<T>, value: T, handle: Handle)
    requires
        table.wf(),
        table.lookup(handle) is Some,
    ensures
        table.allocate(value).lookup(handle) == table.lookup(handle),
        handle.index != table.next_handle().index,
{
    if table.free.len() > 0 {
        assert(table.free[table.free.len() - 1] == table.free.last());
    }
}

/// Allocations with no deallocation between them keep the table consistent,
/// return one handle for each value, and each handle reaches its value once
/// all of them are made.
pub proof fn law_allocations_are_reachable<T>(table: Table<T>, values: Seq<T>)
    requires
        table.wf(),
    ensures
        table.allocate_all(values).wf(),
        table.issued(values).len() == values.len(),
        forall|i: int|
            0 <= i < values.len() ==> table.allocate_all(values).lookup(
                #[trigger] table.issued(values)[i],
            ) == Some(values[i]),
    decreases values.len(),
{
    if values.len() > 0 {
        let earlier = values.drop_last();
        let before = table.allocate_all(earlier);
        law_allocations_are_reachable(table, earlier);
        before.lemma_allocate_wf(values.last());
        law_allocated_value_is_reachable(before, values.last());
        assert forall|i: int| 0 <= i < values.len() implies table.allocate_all(values).lookup(
            #[trigger] table.issued(values)[i],
        ) == Some(values[i]) by {
            if i < earlier.len() {
                assert(table.issued(values)[i] == table.issued(earlier)[i]);
                assert(before.lookup(table.issued(earlier)[i]) == Some(earlier[i]));
                law_allocation_keeps_other_values(before, values.last(), table.issued(earlier)[i]);
            }
        }
    }
}

/// Allocations with no deallocation between them return handles at
/// pairwise distinct positions.
pub proof fn law_allocations_have_distinct_positions<T>(table: Table<T>, values: Seq<T>)
    requires
        table.wf(),
    ensures
        forall|i: int, j: int|
            0 <= i < j < values.len() ==> (#[trigger] table.issued(values)[i]).index != (
            #[trigger] table.issued(values)[j]).index,
    decreases values.len(),
{
    if values.len() > 0 {
        let earlier = values.drop_last();
        let before = table.allocate_all(earlier);
        law_allocations_have_distinct_positions(table, earlier);
        law_allocations_are_reachable(table, earlier);
        assert forall|i: int, j: int| 0 <= i < j < values.len() implies (
        #[trigger] table.issued(values)[i]).index != (#[trigger] table.issued(values)[j]).index by {
            assert(table.issued(values)[i] == table.issued(earlier)[i]);
            if j < earlier.len() {
                assert(table.issued(values)[j] == table.issued(earlier)[j]);
            } else {
                assert(before.lookup(table.issued(earlier)[i]) == Some(earlier[i]));
                law_allocation_keeps_other_values(before, values.last(), table.issued(earlier)[i]);
            }
        }
    }
}

/// A handle still validates after its slot is freed, and reaches nothing.
/// Once the slot is reused, the handle validates no longer, and the new
/// handle, at the same position one generation later, reaches the new value.
pub proof fn law_reuse_invalidates<T>(table: Table<T>, first: Handle, value: T)
    requires
        table.wf(),
        table.lookup(first) is Some,
    ensures
        ({
            let freed = table.deallocate(first);
            let second = freed.next_handle();
            let reused = freed.allocate(value);
            &&& freed.validates(first)
            &&& freed.lookup(first) is None
            &&& second.index == first.index
            &&& second.generation == first.generation + 1
            &&& !reused.validates(first)
            &&& reused.lookup(first) is None
            &&& reused.lookup(second) == Some(value)
        }),
{
    let freed = table.deallocate(first);
    table.lemma_deallocate_wf(first);
    assert(freed.free[freed.free.len() - 1] == first.index);
    law_allocated_value_is_reachable(freed, value);
}

/// Deallocating through the same handle a second time, before the slot is
/// reused, returns nothing and changes nothing.
pub proof fn law_second_deallocation_changes_nothing<T>(table: Table<T>, handle: Handle)
    requires
        table.deallocate_result(handle) is Ok,
    ensures
        table.deallocate(handle).deallocate_result(handle) == Ok::<Option<T>, AllocError>(None),
        table.deallocate(handle).deallocate(handle) == table.deallocate(handle),
{
}

/// Whenever an allocation reuses a position, every handle that validated
/// at that position before validates no longer.
pub proof fn law_reused_position_drops_old_handles<T>(table: Table<T>, value: T, handle: Handle)
    requires
        table.wf(),
        table.free.len() > 0,
        table.validates(handle),
        handle.index == table.next_handle().index,
    ensures
        !table.allocate(value).validates(handle),
        table.allocate(value).lookup(handle) is None,
{
    assert(table.free[table.free.len() - 1] == table.free.last());
}

/// One operation keeps every slot, keeps the table consistent, and raises
/// a slot's generation by one exactly when it reuses the slot. A slot that
/// the operation adds starts at generation zero.
pub proof fn law_step_generations<T>(table: Table<T>, op: Op<T>, position: nat)
    requires
        table.wf(),
    ensures
        table.step(op).wf(),
        table.step(op).slots.len() >= table.slots.len(),
        position < table.slots.len() ==> table.step(op).slots[position as int].generation
            == table.slots[position as int].generation + (if table.reuses(op, position) {
            1nat
        } else {
            0nat
        }),
        table.slots.len() <= position < table.step(op).slots.len() ==> table.step(
            op,
        ).slots[position as int].generation == 0 && !table.reuses(op, position),
{
    match op {
        Op::Allocate(value) => {
            table.lemma_allocate_wf(value);
            if table.free.len() > 0 {
                assert(table.free[table.free.len() - 1] == table.free.last());
            }
        },
        Op::Deallocate(handle) => {
            table.lemma_deallocate_wf(handle);
        },
        Op::Replace(handle, value) => {
            table.lemma_set_wf(handle, value);
        },
    }
}

/// Across any sequence of operations, a slot's generation is the one it
/// started with, zero for a slot added on the way, plus the number of
/// times that the slot was reused: each reuse raises it by exactly one,
/// and nothing else changes it.
pub proof fn law_generation_counts_reuses<T>(table: Table<T>, ops: Seq<Op<T>>, position: nat)
    requires
        table.wf(),
        position < table.run(ops).slots.len(),
    ensures
        table.run(ops).wf(),
        table.run(ops).slots.len() >= table.slots.len(),
        table.run(ops).slots[position as int].generation == table.reuse_count(ops, position) + (
        if position < table.slots.len() {
            table.slots[position as int].generation
        } else {
            0nat
        }),
    decreases ops.len(),
{
    if ops.len() > 0 {
        let before = table.run(ops.drop_last());
        lemma_run_wf(table, ops.drop_last());
        law_step_generations(before, ops.last(), position);
        if position < before.slots.len() {
            law_generation_counts_reuses(table, ops.drop_last(), position);
        } else {
            lemma_no_reuse_before_creation(table, ops.drop_last(), position);
        }
    }
}

/// A sequence of operations keeps the table consistent and never removes
/// a slot.
pub proof fn lemma_run_wf<T>(table: Table<T>, ops: Seq<Op<T>>)
    requires
        table.wf(),
    ensures
        table.run(ops).wf(),
        table.run(ops).slots.len() >= table.slots.len(),
    decreases ops.len(),
{
    if ops.len() > 0 {
        lemma_run_wf(table, ops.drop_last());
        law_step_generations(table.run(ops.drop_last()), ops.last(), 0);
    }
}

/// A position that the table does not have yet has not been reused.
proof fn lemma_no_reuse_before_creation<T>(table: Table<T>, ops: Seq<Op<T>>, position: nat)
    requires
        table.wf(),
        position >= table.run(ops).slots.len(),
    ensures
        table.reuse_count(ops, position) == 0,
    decreases ops.len(),
{
    if ops.len() > 0 {
        let before = table.run(ops.drop_last());
        lemma_run_wf(table, ops.drop_last());
        law_step_generations(before, ops.last(), position);
        lemma_no_reuse_before_creation(table, ops.drop_last(), position);
        if before.free.len() > 0 {
            assert(before.free[before.free.len() - 1] == before.free.last());
        }
    }
}

/// A handle that does not validate reaches nothing, is turned down by a
/// deallocation as out of range or as stale, and by a replacement too, and
/// neither changes the table.
pub proof fn law_no_false_positives<T>(table: Table<T>, handle: Handle, value: T)
    requires
        !table.validates(handle),
    ensures
        table.lookup(handle) is None,
        table.deallocate_result(handle) == Err::<Option<T>, AllocError>(AllocError::NotFound)
            || table.deallocate_result(handle) == Err::<Option<T>, AllocError>(
            AllocError::StaleHandle,
        ),
        table.deallocate_result(handle) == Err::<Option<T>, AllocError>(AllocError::NotFound)
            <==> handle.index >= table.slots.len(),
        table.set_result(handle) == Err::<T, AllocError>(AllocError::NotFound)
            || table.set_result(handle) == Err::<T, AllocError>(AllocError::StaleHandle),
        table.deallocate(handle) == table,
        table.set(handle, value) == table,
{
}

/// Deallocations that each free a value keep the table's length and put
/// one position each on the free list.
pub proof fn law_deallocations_queue_positions<T>(table: Table<T>, handles: Seq<Handle>)
    requires
        table.wf(),
        table.each_frees_a_value(handles),
    ensures
        table.deallocate_all(handles).wf(),
        table.deallocate_all(handles).slots.len() == table.slots.len(),
        table.deallocate_all(handles).free.len() == table.free.len() + handles.len(),
    decreases handles.len(),
{
    if handles.len() > 0 {
        law_deallocations_queue_positions(table, handles.drop_last());
        table.deallocate_all(handles.drop_last()).lemma_deallocate_wf(handles.last());
    }
}

/// Allocations take positions from the free list as long as it has any,
/// and only then make the table longer.
pub proof fn law_allocations_reuse_first<T>(table: Table<T>, values: Seq<T>)
    requires
        table.wf(),
    ensures
        table.allocate_all(values).wf(),
        values.len() <= table.free.len() ==> table.allocate_all(values).slots.len()
            == table.slots.len() && table.allocate_all(values).free.len() == table.free.len()
            - values.len(),
        values.len() > table.free.len() ==> table.allocate_all(values).slots.len()
            == table.slots.len() + values.len() - table.free.len() && table.allocate_all(
            values,
        ).free.len() == 0,
    decreases values.len(),
{
    if values.len() > 0 {
        law_allocations_reuse_first(table, values.drop_last());
        table.allocate_all(values.drop_last()).lemma_allocate_wf(values.last());
    }
}

/// A deallocation leaves what every other handle reaches as it was.
pub proof fn law_deallocation_keeps_other_values<T>(table: Table<T>, freed: Handle, other: Handle)
    requires
        freed != other,
    ensures
        table.deallocate(freed).lookup(other) == table.lookup(other),
{
}

/// Different handles that each reach a value each free one, in whatever
/// order they are deallocated.
pub proof fn law_distinct_handles_each_free_a_value<T>(table: Table<T>, handles: Seq<Handle>)
    requires
        forall|i: int| 0 <= i < handles.len() ==> table.lookup(#[trigger] handles[i]) is Some,
        forall|i: int, j: int|
            0 <= i < j < handles.len() ==> (#[trigger] handles[i]) != (#[trigger] handles[j]),
    ensures
        table.each_frees_a_value(handles),
        forall|other: Handle|
            !handles.contains(other) ==> #[trigger] table.deallocate_all(handles).lookup(other)
                == table.lookup(other),
    decreases handles.len(),
{
    if handles.len() > 0 {
        let earlier = handles.drop_last();
        let before = table.deallocate_all(earlier);
        law_distinct_handles_each_free_a_value(table, earlier);
        assert(!earlier.contains(handles.last())) by {
            if earlier.contains(handles.last()) {
                let i = choose|i: int| 0 <= i < earlier.len() && earlier[i] == handles.last();
                assert(handles[i] == earlier[i]);
            }
        }
        assert(before.lookup(handles.last()) == table.lookup(handles.last()));
        assert forall|other: Handle| !handles.contains(other) implies #[trigger] table.deallocate_all(
            handles,
        ).lookup(other) == table.lookup(other) by {
            assert(handles[handles.len() - 1] == handles.last());
            assert(!earlier.contains(other)) by {
                if earlier.contains(other) {
                    let i = choose|i: int| 0 <= i < earlier.len() && earlier[i] == other;
                    assert(handles[i] == other);
                }
            }
            law_deallocation_keeps_other_values(before, handles.last(), other);
        }
    }
}

/// After some allocations into an empty table, deallocations that each
/// free a value, and as many allocations again, the table is as long as
/// the number of values allocated at first: slots are reused, and none is
/// added or removed.
pub proof fn law_recycling_keeps_length<T>(values: Seq<T>, freed: Seq<Handle>, again: Seq<T>)
    requires
        Table::<T>::empty().allocate_all(values).each_frees_a_value(freed),
        again.len() == freed.len(),
    ensures
        ({
            let filled = Table::<T>::empty().allocate_all(values);
            let recycled = filled.deallocate_all(freed).allocate_all(again);
            &&& filled.slots.len() == values.len()
            &&& filled.deallocate_all(freed).slots.len() == values.len()
            &&& recycled.slots.len() == values.len()
            &&& recycled.wf()
        }),
{
    let start = Table::<T>::empty();
    let filled = start.allocate_all(values);
    law_allocations_reuse_first(start, values);
    law_deallocations_queue_positions(filled, freed);
    law_allocations_reuse_first(filled.deallocate_all(freed), again);
}

/// The same of handles picked from those that the first allocations
/// returned, no handle picked twice: after they are deallocated and as many
/// values are allocated again, the table is as long as before.
pub proof fn law_recycling_issued_handles_keeps_length<T>(
    values: Seq<T>,
    freed: Seq<Handle>,
    again: Seq<T>,
)
    requires
        forall|i: int|
            0 <= i < freed.len() ==> Table::<T>::empty().issued(values).contains(
                #[trigger] freed[i],
            ),
        forall|i: int, j: int|
            0 <= i < j < freed.len() ==> (#[trigger] freed[i]) != (#[trigger] freed[j]),
        again.len() == freed.len(),
    ensures
        ({
            let filled = Table::<T>::empty().allocate_all(values);
            let recycled = filled.deallocate_all(freed).allocate_all(again);
            &&& filled.slots.len() == values.len()
            &&& filled.deallocate_all(freed).slots.len() == values.len()
            &&& recycled.slots.len() == values.len()
        }),
{
    let start = Table::<T>::empty();
    let filled = start.allocate_all(values);
    law_allocations_are_reachable(start, values);
    assert forall|i: int| 0 <= i < freed.len() implies filled.lookup(#[trigger] freed[i])
        is Some by {
        let k = choose|k: int|
            0 <= k < start.issued(values).len() && start.issued(values)[k] == freed[i];
        assert(filled.lookup(start.issued(values)[k]) == Some(values[k]));
    }
    law_distinct_handles_each_free_a_value(filled, freed);
    law_recycling_keeps_length(values, freed, again);
}

} // verus!
