use vstd::prelude::*;
use std::collections::HashMap;
use crate::errors::VmError;

verus! {

broadcast use vstd::std_specs::hash::group_hash_axioms;

/// The logical value of a cell: an address never written reads as 0.
pub open spec fn cell_value(cells: Map<i64, u8>, addr: i64) -> u8 {
    if cells.contains_key(addr) {
        cells[addr]
    } else {
        0
    }
}

/// A cell value one above `v`, wrapping 255 back to 0.
pub open spec fn wrap_inc(v: u8) -> u8 {
    if v == 255 {
        0
    } else {
        (v + 1) as u8
    }
}

/// A cell value one below `v`, wrapping 0 back to 255.
pub open spec fn wrap_dec(v: u8) -> u8 {
    if v == 0 {
        255
    } else {
        (v - 1) as u8
    }
}

/// Sparse memory of byte cells plus a movable head. Only cells that
/// were written are materialized; every other address reads as 0.
/// Addresses are signed, so moving left of the origin is an ordinary
/// move; only the edges of the 64-bit address space are rejected.
#[derive(Debug, PartialEq)]
pub struct Tape {
    pub map: HashMap<i64, u8>,
    pub head: i64,
}

impl Tape {
    /// A fresh tape: no materialized cell, head at the origin.
    pub fn new() -> (r: Self)
        ensures
            r.map@ == Map::<i64, u8>::empty(),
            r.head == 0,
    {
        Tape { map: HashMap::new(), head: 0 }
    }

    /// Diagnostic: whether any cell has been materialized.
    pub fn is_empty(&self) -> (r: bool)
        ensures
            r == (self.map@.len() == 0),
    {
        self.map.is_empty()
    }

    /// Diagnostic: how many cells have been materialized.
    pub fn len(&self) -> (r: usize)
        ensures
            r == self.map@.len(),
    {
        self.map.len()
    }

    /// Move the head one cell to the right; at the far right edge of
    /// the address space the move is rejected and nothing changes.
    pub fn move_to_right(&mut self) -> (r: Result<(), VmError>)
        ensures
            old(self).head < i64::MAX ==> r is Ok && final(self).head == old(self).head + 1,
            old(self).head == i64::MAX ==> r == Err::<(), VmError>(VmError::HeadOverflow)
                && final(self).head == old(self).head,
            final(self).map@ == old(self).map@,
    {
        if self.head == i64::MAX {
            Err(VmError::HeadOverflow)
        } else {
            self.head = self.head + 1;
            Ok(())
        }
    }

    /// Move the head one cell to the left; moving left of the origin
    /// succeeds like any other move, and only the far left edge of the
    /// address space is rejected, leaving the tape unchanged.
    pub fn move_to_left(&mut self) -> (r: Result<(), VmError>)
        ensures
            old(self).head > i64::MIN ==> r is Ok && final(self).head == old(self).head - 1,
            old(self).head == i64::MIN ==> r == Err::<(), VmError>(VmError::HeadUnderflow)
                && final(self).head == old(self).head,
            final(self).map@ == old(self).map@,
    {
        if self.head == i64::MIN {
            Err(VmError::HeadUnderflow)
        } else {
            self.head = self.head - 1;
            Ok(())
        }
    }

    /// The value of the cell under the head (0 if never written).
    pub fn read(&self) -> (r: u8)
        ensures
            r == cell_value(self.map@, self.head),
    {
        match self.map.get(&self.head) {
            Some(v) => *v,
            None => 0,
        }
    }

    /// Add one to the cell under the head, wrapping 255 back to 0; the
    /// cell is materialized if it was not yet.
    pub fn increment(&mut self)
        ensures
            final(self).map@ == old(self).map@.insert(
                old(self).head,
                wrap_inc(cell_value(old(self).map@, old(self).head)),
            ),
            final(self).head == old(self).head,
    {
        let v = self.read();
        let next = if v == 255 { 0 } else { v + 1 };
        self.map.insert(self.head, next);
    }

    /// Take one from the cell under the head, wrapping 0 back to 255;
    /// the cell is materialized if it was not yet.
    pub fn decrement(&mut self)
        ensures
            final(self).map@ == old(self).map@.insert(
                old(self).head,
                wrap_dec(cell_value(old(self).map@, old(self).head)),
            ),
            final(self).head == old(self).head,
    {
        let v = self.read();
        let next = if v == 0 { 255 } else { v - 1 };
        self.map.insert(self.head, next);
    }

    /// Write a byte into the cell under the head, materializing it.
    pub fn write(&mut self, v: u8)
        ensures
            final(self).map@ == old(self).map@.insert(old(self).head, v),
            final(self).head == old(self).head,
    {
        self.map.insert(self.head, v);
    }
}

} // verus!
