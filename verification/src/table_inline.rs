//! The fixed-width sub-tables for inline keys.
//!
//! One `InlineTable` instance holds all keys of one inline class, each packed
//! into the class's width. Lookup and insertion compare packed images; the
//! composite table relates that to byte-string equality through the packing
//! lemmas. Entries are only ever appended, so an entry keeps its index for
//! the life of the table.

use vstd::prelude::*;

use crate::inline::InlineKey;
use crate::inline::inline_eq;
use crate::inline::spec_unpack;
use crate::inline::well_packed;

verus! {

/// One stored entry: a packed key and its value slot, unwritten until the
/// caller writes it.
pub(crate) struct InlineEntry<V> {
    pub(crate) key: InlineKey,
    pub(crate) val: Option<V>,
}

/// An append-only table of inline keys of one width.
pub(crate) struct InlineTable<V> {
    pub(crate) entries: Vec<InlineEntry<V>>,
    pub(crate) cap: usize,
}

/// The stored keys of an entry sequence, unpacked to their byte strings.
pub open(crate) spec fn inline_keys<V>(s: Seq<InlineEntry<V>>) -> Seq<Seq<u8>> {
    s.map_values(|e: InlineEntry<V>| spec_unpack(e.key.packed@))
}

/// Every packed image has the given width and is well packed, and no two
/// entries hold the same key.
pub open(crate) spec fn inline_wf_seq<V>(s: Seq<InlineEntry<V>>, width: nat) -> bool {
    &&& forall|i: int|
        0 <= i < s.len() ==> {
            &&& (#[trigger] s[i]).key.packed@.len() == width
            &&& well_packed(s[i].key.packed@)
        }
    &&& forall|i: int, j: int|
        0 <= i < j < s.len() ==> #[trigger] inline_keys(s)[i] != #[trigger] inline_keys(s)[j]
}

/// Rewriting value slots only — every key kept — preserves the invariant.
pub(crate) proof fn lemma_inline_wf_val_update<V>(
    s0: Seq<InlineEntry<V>>,
    s1: Seq<InlineEntry<V>>,
    width: nat,
)
    requires
        inline_wf_seq(s0, width),
        s1.len() == s0.len(),
        forall|j: int| 0 <= j < s0.len() ==> (#[trigger] s1[j]).key == s0[j].key,
    ensures
        inline_wf_seq(s1, width),
{
    assert(inline_keys(s1) =~= inline_keys(s0));
}

impl<V> InlineTable<V> {
    /// The table invariant, a function of the entries alone.
    pub open(crate) spec fn wf(&self, width: nat) -> bool {
        inline_wf_seq(self.entries@, width)
    }

    /// Creates an empty table with the given capacity hint.
    pub(crate) fn with_capacity(capacity: usize) -> (t: InlineTable<V>)
        ensures
            t.entries@ == Seq::<InlineEntry<V>>::empty(),
            t.cap == capacity,
    {
        let t = InlineTable { entries: Vec::new(), cap: capacity };
        proof {
            assert(t.entries@ =~= Seq::<InlineEntry<V>>::empty());
        }
        t
    }

    /// The index of the entry whose packed image equals the probe's, if any.
    pub(crate) fn find(&self, probe: &InlineKey) -> (r: Option<usize>)
        ensures
            match r {
                Some(i) => i < self.entries@.len()
                    && self.entries@[i as int].key.packed@ == probe.packed@,
                None => forall|i: int|
                    0 <= i < self.entries@.len()
                        ==> (#[trigger] self.entries@[i]).key.packed@ != probe.packed@,
            },
    {
        let n = self.entries.len();
        let mut i: usize = 0;
        while i < n
            invariant
                i <= n,
                n == self.entries@.len(),
                forall|j: int|
                    0 <= j < i ==> (#[trigger] self.entries@[j]).key.packed@ != probe.packed@,
            decreases n - i,
        {
            if inline_eq(&self.entries[i].key, probe) {
                return Some(i);
            }
            i = i + 1;
        }
        None
    }

    /// Inserts the probe key: `Ok` with the index of a fresh entry whose
    /// value is unwritten, or `Err` with the index of the entry already
    /// holding an equal packed image, in which case nothing changes.
    pub(crate) fn insert(&mut self, probe: InlineKey) -> (r: Result<usize, usize>)
        ensures
            match r {
                Ok(i) => {
                    &&& forall|j: int|
                        0 <= j < old(self).entries@.len()
                            ==> (#[trigger] old(self).entries@[j]).key.packed@ != probe.packed@
                    &&& i == old(self).entries@.len()
                    &&& final(self).entries@ == old(self).entries@.push(
                        InlineEntry { key: probe, val: None },
                    )
                },
                Err(i) => {
                    &&& i < old(self).entries@.len()
                    &&& old(self).entries@[i as int].key.packed@ == probe.packed@
                    &&& final(self).entries@ == old(self).entries@
                },
            },
            final(self).cap == old(self).cap,
    {
        match self.find(&probe) {
            Some(i) => Err(i),
            None => {
                let i = self.entries.len();
                self.entries.push(InlineEntry { key: probe, val: None });
                Ok(i)
            },
        }
    }

    /// Makes room for one more entry, growing the capacity if it is
    /// exhausted. The entries themselves never move.
    pub(crate) fn check_grow(&mut self)
        requires
            old(self).entries@.len() < usize::MAX,
        ensures
            final(self).entries@ == old(self).entries@,
            final(self).cap >= old(self).cap,
            final(self).cap > final(self).entries@.len(),
    {
        if self.entries.len() >= self.cap {
            if self.entries.len() > usize::MAX / 2 {
                self.cap = usize::MAX;
            } else if self.entries.len() == 0 {
                self.cap = 4;
            } else {
                self.cap = self.entries.len() * 2;
            }
        }
    }

    /// The number of entries stored.
    pub(crate) fn len(&self) -> (n: usize)
        ensures
            n == self.entries@.len(),
    {
        self.entries.len()
    }

    /// The capacity of the table.
    pub(crate) fn capacity(&self) -> (n: usize)
        ensures
            n == self.cap,
    {
        self.cap
    }

    /// Drops every entry; the capacity is kept.
    pub(crate) fn clear(&mut self)
        ensures
            final(self).entries@ == Seq::<InlineEntry<V>>::empty(),
            final(self).cap == old(self).cap,
    {
        self.entries.clear();
        proof {
            assert(self.entries@ =~= Seq::<InlineEntry<V>>::empty());
        }
    }
}

} // verus!
