//! The one-slot sub-table for the empty key.

use vstd::prelude::*;

verus! {

/// Holds at most the single entry for the zero-length key. The value slot
/// stays unwritten (`None`) until the caller writes it.
pub(crate) struct TableEmpty<V> {
    pub(crate) occupied: bool,
    pub(crate) value: Option<V>,
}

impl<V> TableEmpty<V> {
    /// A value is only stored while the slot is occupied.
    pub open(crate) spec fn wf(&self) -> bool {
        self.value is Some ==> self.occupied
    }

    /// Creates the table with its slot free.
    pub(crate) fn new() -> (t: TableEmpty<V>)
        ensures
            !t.occupied,
            t.value is None,
    {
        TableEmpty { occupied: false, value: None }
    }

    /// Takes the slot: true if it was free (a new entry whose value is still
    /// unwritten), false if the empty key was already present.
    pub(crate) fn insert(&mut self) -> (newly: bool)
        ensures
            final(self).occupied,
            final(self).value == old(self).value,
            newly == !old(self).occupied,
    {
        let newly = !self.occupied;
        self.occupied = true;
        newly
    }

    /// The number of entries stored: 0 or 1.
    pub(crate) fn len(&self) -> (n: usize)
        ensures
            n == if self.occupied { 1int } else { 0int },
    {
        if self.occupied { 1 } else { 0 }
    }

    /// Frees the slot and drops its value.
    pub(crate) fn clear(&mut self)
        ensures
            !final(self).occupied,
            final(self).value is None,
    {
        self.occupied = false;
        self.value = None;
    }
}

} // verus!
