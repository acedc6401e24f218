//! Sequences of operations on the model, for statements that span more
//! than one call.

use vstd::prelude::*;
use crate::handle::Handle;
use crate::table::Table;

verus! {

/// One request that changes the table. A write through exclusive access to
/// a value is a `Replace` with the same handle.
pub enum Op<T> {
    Allocate(T),
    Deallocate(Handle),
    Replace(Handle, T),
}

impl<T> Table<T> {
    /// The table after one operation.
    pub open spec fn step(self, op: Op<T>) -> Table<T> {
        match op {
            Op::Allocate(value) => self.allocate(value),
            Op::Deallocate(handle) => self.deallocate(handle),
            Op::Replace(handle, value) => self.set(handle, value),
        }
    }

    /// The table after the operations `ops`, first to last.
    pub open spec fn run(self, ops: Seq<Op<T>>) -> Table<T>
        decreases ops.len(),
    {
        if ops.len() == 0 {
            self
        } else {
            self.run(ops.drop_last()).step(ops.last())
        }
    }

    /// Whether `op`, applied to this table, is an allocation that reuses
    /// `position`.
    pub open spec fn reuses(self, op: Op<T>, position: nat) -> bool {
        op is Allocate && self.free.len() > 0 && self.free.last() == position
    }

    /// How many of the operations `ops` reuse `position`.
    pub open spec fn reuse_count(self, ops: Seq<Op<T>>, position: nat) -> nat
        decreases ops.len(),
    {
        if ops.len() == 0 {
            0
        } else {
            let earlier = self.reuse_count(ops.drop_last(), position);
            if self.run(ops.drop_last()).reuses(ops.last(), position) {
                earlier + 1
            } else {
                earlier
            }
        }
    }

    /// The table after allocating `values`, first to last.
    pub open spec fn allocate_all(self, values: Seq<T>) -> Table<T>
        decreases values.len(),
    {
        if values.len() == 0 {
            self
        } else {
            self.allocate_all(values.drop_last()).allocate(values.last())
        }
    }

    /// The handles that allocating `values`, first to last, returns.
    pub open spec fn issued(self, values: Seq<T>) -> Seq<Handle>
        decreases values.len(),
    {
        if values.len() == 0 {
            Seq::empty()
        } else {
            self.issued(values.drop_last()).push(
                self.allocate_all(values.drop_last()).next_handle(),
            )
        }
    }

    /// The table after deallocating `handles`, first to last.
    pub open spec fn deallocate_all(self, handles: Seq<Handle>) -> Table<T>
        decreases handles.len(),
    {
        if handles.len() == 0 {
            self
        } else {
            self.deallocate_all(handles.drop_last()).deallocate(handles.last())
        }
    }

    /// Each of `handles` reaches a value at the moment it is deallocated,
    /// when they are deallocated first to last.
    pub open spec fn each_frees_a_value(self, handles: Seq<Handle>) -> bool
        decreases handles.len(),
    {
        handles.len() > 0 ==> self.each_frees_a_value(handles.drop_last())
            && self.deallocate_all(handles.drop_last()).lookup(handles.last()) is Some
    }
}

} // verus!
