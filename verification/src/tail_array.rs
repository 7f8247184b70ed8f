//! The optional append-only tail list.
//!
//! When tail mode is enabled, every non-empty insert appends a fresh record
//! here instead of probing a hash sub-table: no deduplication, no lookups.
//! The key bytes are copied into the arena, so a record's key stays valid for
//! the life of the table like any fallback key.

use vstd::prelude::*;

use crate::arena::Arena;
use crate::fast_hash::spec_hash_bytes;
use crate::table_fallback::FallbackEntry;
use crate::table_fallback::FallbackKey;

verus! {

/// An append-only list of key/value records, bypassing deduplication.
pub(crate) struct TailArray<V> {
    pub(crate) entries: Vec<FallbackEntry<V>>,
}

/// Every record points into the arena and carries the hash of its bytes.
pub open(crate) spec fn tail_wf_seq<V>(s: Seq<FallbackEntry<V>>, arena: Seq<Seq<u8>>) -> bool {
    forall|i: int|
        0 <= i < s.len() ==> {
            &&& (#[trigger] s[i]).key.key_idx < arena.len()
            &&& s[i].key.hash == spec_hash_bytes(arena[s[i].key.key_idx as int])
        }
}

impl<V> TailArray<V> {
    /// The list invariant, a function of the records alone.
    pub open(crate) spec fn wf(&self, arena: Seq<Seq<u8>>) -> bool {
        tail_wf_seq(self.entries@, arena)
    }

    /// Creates an empty tail list.
    pub(crate) fn new() -> (t: TailArray<V>)
        ensures
            t.entries@ == Seq::<FallbackEntry<V>>::empty(),
    {
        let t = TailArray { entries: Vec::new() };
        proof {
            assert(t.entries@ =~= Seq::<FallbackEntry<V>>::empty());
        }
        t
    }

    /// Appends a fresh record for `key`, copying its bytes into the arena;
    /// returns the record's index. Earlier records are untouched.
    pub(crate) fn insert(&mut self, arena: &mut Arena, key: &[u8], h: u64) -> (i: usize)
        requires
            old(self).wf(old(arena)@),
            old(arena).wf(),
            h == spec_hash_bytes(key@),
        ensures
            final(arena).wf(),
            final(arena)@ == old(arena)@.push(key@),
            i == old(self).entries@.len(),
            final(self).entries@ == old(self).entries@.push(
                FallbackEntry {
                    key: FallbackKey { key_idx: old(arena)@.len() as usize, hash: h },
                    val: None,
                },
            ),
            final(self).wf(final(arena)@),
            crate::table_fallback::fb_keys(final(self).entries@, final(arena)@) == crate::table_fallback::fb_keys(old(self).entries@, old(arena)@).push(key@),
    {
        let idx = arena.alloc_slice_copy(key);
        let i = self.entries.len();
        self.entries.push(FallbackEntry { key: FallbackKey { key_idx: idx, hash: h }, val: None });
        proof {
            let a0 = old(arena)@;
            let a1 = arena@;
            assert(forall|j: int|
                0 <= j < old(self).entries@.len()
                    ==> (#[trigger] old(self).entries@[j]).key.key_idx < a0.len() && a1[old(
                    self,
                ).entries@[j].key.key_idx as int] == a0[old(self).entries@[j].key.key_idx as int]);
            assert(crate::table_fallback::fb_keys(self.entries@, a1) =~= crate::table_fallback::fb_keys(old(self).entries@, a0).push(key@));
        }
        i
    }

    /// The number of records.
    pub(crate) fn len(&self) -> (n: usize)
        ensures
            n == self.entries@.len(),
    {
        self.entries.len()
    }
}

} // verus!
