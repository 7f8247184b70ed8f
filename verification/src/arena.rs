//! The arena that owns the byte storage of fallback keys.
//!
//! An append-only store of byte strings: an allocation copies the caller's
//! bytes in and hands back the index of the copy. Nothing is ever freed
//! individually; the whole arena is dropped at once when the table is cleared.
//! Because the store only ever grows, an index handed out once refers to the
//! same bytes for the rest of the arena's life — this is the stability that
//! fallback entries rely on across table growth.

use vstd::prelude::*;

verus! {

/// An append-only store of byte strings, freed only as a whole.
pub(crate) struct Arena {
    pub(crate) chunks: Vec<Vec<u8>>,
    /// The saturating sum of the lengths of all chunks.
    pub(crate) total: usize,
}

impl View for Arena {
    type V = Seq<Seq<u8>>;

    open(crate) spec fn view(&self) -> Seq<Seq<u8>> {
        self.chunks@.map_values(|c: Vec<u8>| c@)
    }
}

/// The sum of the lengths of the byte strings in `s`.
pub open spec fn sum_lens(s: Seq<Seq<u8>>) -> nat
    decreases s.len(),
{
    if s.len() == 0 {
        0
    } else {
        sum_lens(s.drop_last()) + s.last().len()
    }
}

impl Arena {
    /// The byte counter matches the stored chunks, saturating at the machine
    /// limit.
    pub open(crate) spec fn wf(&self) -> bool {
        if sum_lens(self@) <= usize::MAX {
            self.total == sum_lens(self@)
        } else {
            self.total == usize::MAX
        }
    }

    /// Creates an empty arena.
    pub(crate) fn new() -> (a: Arena)
        ensures
            a@ == Seq::<Seq<u8>>::empty(),
            a.wf(),
    {
        let a = Arena { chunks: Vec::new(), total: 0 };
        proof {
            assert(a@ =~= Seq::<Seq<u8>>::empty());
        }
        a
    }

    /// Copies `bytes` into the arena and returns the index of the copy. All
    /// earlier chunks keep their index and their contents.
    pub(crate) fn alloc_slice_copy(&mut self, bytes: &[u8]) -> (idx: usize)
        requires
            old(self).wf(),
        ensures
            final(self).wf(),
            final(self)@ == old(self)@.push(bytes@),
            idx == old(self)@.len(),
    {
        let n = bytes.len();
        let mut copy: Vec<u8> = Vec::new();
        let mut i: usize = 0;
        while i < n
            invariant
                i <= n,
                n == bytes@.len(),
                copy@ =~= bytes@.take(i as int),
            decreases n - i,
        {
            copy.push(bytes[i]);
            i = i + 1;
        }
        proof {
            assert(copy@ =~= bytes@);
        }
        let idx = self.chunks.len();
        self.chunks.push(copy);
        self.total = self.total.saturating_add(n);
        proof {
            assert(self@ =~= old(self)@.push(bytes@));
            assert(self@.drop_last() =~= old(self)@);
            assert(sum_lens(self@) == sum_lens(old(self)@) + bytes@.len());
        }
        idx
    }

    /// The bytes stored at `idx`.
    pub(crate) fn chunk(&self, idx: usize) -> (c: &Vec<u8>)
        requires
            idx < self@.len(),
        ensures
            c@ == self@[idx as int],
    {
        &self.chunks[idx]
    }

    /// An owned copy of the bytes stored at `idx`.
    pub(crate) fn chunk_copy(&self, idx: usize) -> (c: Vec<u8>)
        requires
            idx < self@.len(),
        ensures
            c@ == self@[idx as int],
    {
        let src = &self.chunks[idx];
        let n = src.len();
        let mut c: Vec<u8> = Vec::new();
        let mut i: usize = 0;
        while i < n
            invariant
                i <= n,
                n == src@.len(),
                c@ =~= src@.take(i as int),
            decreases n - i,
        {
            c.push(src[i]);
            i = i + 1;
        }
        proof {
            assert(c@ =~= src@);
        }
        c
    }

    /// The number of chunks stored.
    pub(crate) fn chunk_count(&self) -> (n: usize)
        ensures
            n == self@.len(),
    {
        self.chunks.len()
    }

    /// The number of bytes stored, saturating at the machine limit.
    pub(crate) fn allocated_bytes(&self) -> (n: usize)
        requires
            self.wf(),
        ensures
            sum_lens(self@) <= usize::MAX ==> n == sum_lens(self@),
            sum_lens(self@) > usize::MAX ==> n == usize::MAX,
    {
        self.total
    }
}

} // verus!
