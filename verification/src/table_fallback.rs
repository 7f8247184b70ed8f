//! The fallback sub-table: keys stored by arena index with a precomputed
//! hash.
//!
//! Owns every key of 25 bytes or more and every non-empty key ending in a
//! NUL byte. A stored key is an index into the arena together with the hash
//! of its bytes; equality testing uses the hash as a fast reject before
//! comparing the bytes themselves. Entries are only ever appended, so an
//! entry keeps its index for the life of the table.

use vstd::prelude::*;

use crate::arena::Arena;
use crate::fast_hash::spec_hash_bytes;

verus! {

/// A stored fallback key: where its bytes live in the arena, and their hash.
pub(crate) struct FallbackKey {
    pub(crate) key_idx: usize,
    pub(crate) hash: u64,
}

/// One stored entry: a fallback key and its value slot, unwritten until the
/// caller writes it.
pub(crate) struct FallbackEntry<V> {
    pub(crate) key: FallbackKey,
    pub(crate) val: Option<V>,
}

/// An append-only table of fallback keys.
pub(crate) struct FallbackTable<V> {
    pub(crate) entries: Vec<FallbackEntry<V>>,
    pub(crate) cap: usize,
}

/// Compares a stored chunk with a probe key byte for byte.
pub(crate) fn bytes_eq(a: &Vec<u8>, b: &[u8]) -> (r: bool)
    ensures
        r <==> a@ == b@,
{
    if a.len() != b.len() {
        return false;
    }
    let n = a.len();
    let mut i: usize = 0;
    while i < n
        invariant
            i <= n,
            n == a@.len() == b@.len(),
            forall|j: int| 0 <= j < i ==> a@[j] == b@[j],
        decreases n - i,
    {
        if a[i] != b[i] {
            return false;
        }
        i = i + 1;
    }
    proof {
        assert(a@ =~= b@);
    }
    true
}

/// The stored keys of an entry sequence as byte strings, read through the
/// arena.
pub open(crate) spec fn fb_keys<V>(s: Seq<FallbackEntry<V>>, arena: Seq<Seq<u8>>) -> Seq<Seq<u8>> {
    s.map_values(|e: FallbackEntry<V>| arena[e.key.key_idx as int])
}

/// Every entry points into the arena and carries the hash of its bytes, and
/// no two entries hold the same key.
pub open(crate) spec fn fb_wf_seq<V>(s: Seq<FallbackEntry<V>>, arena: Seq<Seq<u8>>) -> bool {
    &&& forall|i: int|
        0 <= i < s.len() ==> {
            &&& (#[trigger] s[i]).key.key_idx < arena.len()
            &&& s[i].key.hash == spec_hash_bytes(arena[s[i].key.key_idx as int])
        }
    &&& forall|i: int, j: int|
        0 <= i < j < s.len() ==> #[trigger] fb_keys(s, arena)[i] != #[trigger] fb_keys(s, arena)[j]
}

/// Growing the arena by appends changes neither the keys an entry sequence
/// denotes nor its well-formedness.
pub(crate) proof fn lemma_fb_arena_grow<V>(
    s: Seq<FallbackEntry<V>>,
    a0: Seq<Seq<u8>>,
    a1: Seq<Seq<u8>>,
)
    requires
        fb_wf_seq(s, a0),
        a0.is_prefix_of(a1),
    ensures
        fb_wf_seq(s, a1),
        fb_keys(s, a1) == fb_keys(s, a0),
{
    assert(fb_keys(s, a1) =~= fb_keys(s, a0));
}

/// Rewriting value slots only — every key kept — preserves the invariant.
pub(crate) proof fn lemma_fb_wf_val_update<V>(
    s0: Seq<FallbackEntry<V>>,
    s1: Seq<FallbackEntry<V>>,
    arena: Seq<Seq<u8>>,
)
    requires
        fb_wf_seq(s0, arena),
        s1.len() == s0.len(),
        forall|j: int| 0 <= j < s0.len() ==> (#[trigger] s1[j]).key == s0[j].key,
    ensures
        fb_wf_seq(s1, arena),
{
    assert(fb_keys(s1, arena) =~= fb_keys(s0, arena));
}

impl<V> FallbackTable<V> {
    /// The table invariant, a function of the entries alone.
    pub open(crate) spec fn wf(&self, arena: Seq<Seq<u8>>) -> bool {
        fb_wf_seq(self.entries@, arena)
    }

    /// Creates an empty table with the given capacity hint.
    pub(crate) fn with_capacity(capacity: usize) -> (t: FallbackTable<V>)
        ensures
            t.entries@ == Seq::<FallbackEntry<V>>::empty(),
            t.cap == capacity,
    {
        let t = FallbackTable { entries: Vec::new(), cap: capacity };
        proof {
            assert(t.entries@ =~= Seq::<FallbackEntry<V>>::empty());
        }
        t
    }

    /// The index of the entry whose key bytes equal `key`, if any. The hash
    /// `h` of `key` lets entries with a differing hash be rejected without
    /// reading the arena.
    pub(crate) fn find(&self, arena: &Arena, key: &[u8], h: u64) -> (r: Option<usize>)
        requires
            self.wf(arena@),
            h == spec_hash_bytes(key@),
        ensures
            match r {
                Some(i) => i < self.entries@.len() && fb_keys(self.entries@, arena@)[i as int] == key@,
                None => forall|i: int|
                    0 <= i < self.entries@.len() ==> #[trigger] fb_keys(self.entries@, arena@)[i]
                        != key@,
            },
    {
        let n = self.entries.len();
        let mut i: usize = 0;
        while i < n
            invariant
                i <= n,
                n == self.entries@.len(),
                self.wf(arena@),
                h == spec_hash_bytes(key@),
                forall|j: int| 0 <= j < i ==> #[trigger] fb_keys(self.entries@, arena@)[j] != key@,
            decreases n - i,
        {
            if self.entries[i].key.hash == h {
                if bytes_eq(arena.chunk(self.entries[i].key.key_idx), key) {
                    return Some(i);
                }
            }
            i = i + 1;
        }
        None
    }

    /// Inserts `key`: `Ok` with the index of a fresh entry whose bytes have
    /// been copied into the arena and whose value is unwritten, or `Err` with
    /// the index of the entry already holding an equal key, in which case
    /// neither the table nor the arena changes.
    pub(crate) fn insert(&mut self, arena: &mut Arena, key: &[u8], h: u64) -> (r: Result<usize, usize>)
        requires
            old(self).wf(old(arena)@),
            old(arena).wf(),
            h == spec_hash_bytes(key@),
        ensures
            final(arena).wf(),
            final(self).cap == old(self).cap,
            match r {
                Ok(i) => {
                    &&& forall|j: int|
                        0 <= j < old(self).entries@.len()
                            ==> #[trigger] fb_keys(old(self).entries@, old(arena)@)[j] != key@
                    &&& i == old(self).entries@.len()
                    &&& final(arena)@ == old(arena)@.push(key@)
                    &&& final(self).entries@ == old(self).entries@.push(
                        FallbackEntry {
                            key: FallbackKey { key_idx: (final(arena)@.len() - 1) as usize, hash: h },
                            val: None,
                        },
                    )
                    &&& final(self).wf(final(arena)@)
                    &&& fb_keys(final(self).entries@, final(arena)@) == fb_keys(old(self).entries@, old(arena)@).push(key@)
                },
                Err(i) => {
                    &&& i < old(self).entries@.len()
                    &&& fb_keys(old(self).entries@, old(arena)@)[i as int] == key@
                    &&& final(self).entries@ == old(self).entries@
                    &&& final(arena)@ == old(arena)@
                },
            },
    {
        match self.find(arena, key, h) {
            Some(i) => Err(i),
            None => {
                let idx = arena.alloc_slice_copy(key);
                let i = self.entries.len();
                self.entries.push(
                    FallbackEntry { key: FallbackKey { key_idx: idx, hash: h }, val: None },
                );
                proof {
                    let a0 = old(arena)@;
                    let a1 = arena@;
                    assert(forall|j: int|
                        0 <= j < old(self).entries@.len()
                            ==> (#[trigger] old(self).entries@[j]).key.key_idx < a0.len()
                            && a1[old(self).entries@[j].key.key_idx as int] == a0[old(
                            self,
                        ).entries@[j].key.key_idx as int]);
                    assert(fb_keys(self.entries@, a1) =~= fb_keys(old(self).entries@, a0).push(key@));
                }
                Ok(i)
            },
        }
    }

    /// Makes room for one more entry, growing the capacity if it is
    /// exhausted. The entries themselves never move.
    pub(crate) fn check_grow(&mut self)
        requires
            old(self).entries@.len() < usize::MAX,
        ensures
            final(self).entries@ == old(self).entries@,
            final(self).cap >= old(self).cap,
            final(self).cap > final(self).entries@.len(),
    {
        if self.entries.len() >= self.cap {
            if self.entries.len() > usize::MAX / 2 {
                self.cap = usize::MAX;
            } else if self.entries.len() == 0 {
                self.cap = 4;
            } else {
                self.cap = self.entries.len() * 2;
            }
        }
    }

    /// The number of entries stored.
    pub(crate) fn len(&self) -> (n: usize)
        ensures
            n == self.entries@.len(),
    {
        self.entries.len()
    }

    /// The capacity of the table.
    pub(crate) fn capacity(&self) -> (n: usize)
        ensures
            n == self.cap,
    {
        self.cap
    }

    /// Drops every entry; the capacity is kept.
    pub(crate) fn clear(&mut self)
        ensures
            final(self).entries@ == Seq::<FallbackEntry<V>>::empty(),
            final(self).cap == old(self).cap,
    {
        self.entries.clear();
        proof {
            assert(self.entries@ =~= Seq::<FallbackEntry<V>>::empty());
        }
    }
}

} // verus!
