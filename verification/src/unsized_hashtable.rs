//! The composite hash table for variable-length byte-string keys.
//!
//! One logical insert or lookup is dispatched over five sub-tables selected
//! by the key's class (see `classify`): the one-slot table for the empty key,
//! three fixed-width tables for inline keys, and the fallback table whose key
//! bytes live in an arena owned by this table. When tail mode is enabled,
//! every non-empty insert instead appends a fresh record to an append-only
//! tail list, bypassing deduplication; lookups never consult the tail list.
//!
//! Entry references are places (a sub-table and an index into it) rather than
//! borrowed pointers; every accessor takes the table itself alongside the
//! place. Since sub-tables and the arena only ever append, a place stays
//! valid, with the same key, through any sequence of later inserts — until
//! `clear`.
//!
//! An insert reserves a value slot but leaves it unwritten; the caller is
//! expected to write it before reading it back, and reading a slot requires
//! that it was written. Keys handed to an insert are always copied (inline
//! or into the arena), in tail mode too, so no key memory has to outlive the
//! call.

use vstd::prelude::*;
use vstd::pervasive::unreached;

use crate::arena::Arena;
use crate::classify::classify;
use crate::classify::spec_classify;
use crate::classify::KeyClass;
use crate::fast_hash::fast_hash;
use crate::fast_hash::spec_hash_bytes;
use crate::inline::is_packing_of;
use crate::inline::lemma_unpack_packing;
use crate::inline::lemma_well_packed_unpack;
use crate::inline::pack_key;
use crate::inline::spec_unpack;
use crate::inline::unpack_key;
use crate::model::contains;
use crate::model::contains_seq;
use crate::model::empty_model;
use crate::model::len_of;
use crate::model::lemma_insert_main_wf;
use crate::model::lemma_insert_tail_wf;
use crate::model::lemma_lookup_at;
use crate::model::lemma_lookup_contains;
use crate::model::lemma_insert_main_frame;
use crate::model::lemma_insert_main_new;
use crate::model::lemma_main_membership;
use crate::model::lemma_sum_take_le;
use crate::model::lemma_sum_take_succ;
use crate::model::lemma_with_value_wf;
use crate::model::main_entries;
use crate::model::model_insert;
use crate::model::model_insert_is_new;
use crate::model::model_insert_main;
use crate::model::model_with_tail_value;
use crate::model::model_with_value;
use crate::model::sum_key_lens;
use crate::model::seg_offset;
use crate::model::t0_seq;
use crate::model::tail_seq;
use crate::model::update_seq;
use crate::model::value_of;
use crate::model::wf_model;
use crate::model::TableModel;
use crate::model::all_entries;
use crate::model::class_seq;
use crate::table_empty::TableEmpty;
use crate::table_fallback::fb_keys;
use crate::table_fallback::FallbackEntry;
use crate::table_fallback::FallbackTable;
use crate::table_inline::inline_keys;
use crate::table_inline::inline_wf_seq;
use crate::table_inline::InlineEntry;
use crate::table_inline::InlineTable;
use crate::tail_array::TailArray;

verus! {

/// Where an entry lives: a sub-table (or the tail list) and the entry's
/// index in it. Entries are never moved or removed short of `clear`, so a
/// place, once valid, stays valid and keeps its key.
#[derive(Clone, Copy, Debug, PartialEq, Eq, Structural)]
pub enum EntryPlace {
    /// The single slot of the empty-key table.
    InTable0,
    /// An entry of the inline table for keys of 1 to 8 bytes.
    InTable1(usize),
    /// An entry of the inline table for keys of 9 to 16 bytes.
    InTable2(usize),
    /// An entry of the inline table for keys of 17 to 24 bytes.
    InTable3(usize),
    /// An entry of the fallback table.
    InTable4(usize),
    /// A record of the tail list.
    InTail(usize),
}

/// A shared reference to one entry: a place, to be read through the table
/// it came from.
#[derive(Clone, Copy)]
pub struct UnsizedHashtableEntryRef {
    /// Where the entry lives.
    pub place: EntryPlace,
}

/// A mutable reference to one entry: a place whose value slot can be
/// written through the table it came from.
#[derive(Clone, Copy)]
pub struct UnsizedHashtableEntryMutRef {
    /// Where the entry lives.
    pub place: EntryPlace,
}

/// The composite table: five sub-tables, the arena owning fallback key
/// bytes, the optional tail list, and the stored-key byte counter.
pub struct UnsizedHashtable<V> {
    pub(crate) arena: Arena,
    pub(crate) key_size: usize,
    pub(crate) table0: TableEmpty<V>,
    pub(crate) table1: InlineTable<V>,
    pub(crate) table2: InlineTable<V>,
    pub(crate) table3: InlineTable<V>,
    pub(crate) table4: FallbackTable<V>,
    pub(crate) tails: Option<TailArray<V>>,
}

/// The entries of an inline table as key/value-slot pairs.
spec fn inline_model<V>(s: Seq<InlineEntry<V>>) -> Seq<(Seq<u8>, Option<V>)> {
    s.map_values(|e: InlineEntry<V>| (spec_unpack(e.key.packed@), e.val))
}

/// The entries of a fallback entry list as key/value-slot pairs, keys read
/// through the arena.
spec fn fallback_model<V>(entries: Seq<FallbackEntry<V>>, arena: Seq<Seq<u8>>) -> Seq<
    (Seq<u8>, Option<V>),
> {
    entries.map_values(|e: FallbackEntry<V>| (arena[e.key.key_idx as int], e.val))
}

impl<V> UnsizedHashtable<V> {
    /// The logical state of the table. All contracts are stated over this
    /// model.
    pub closed spec fn model(&self) -> TableModel<V> {
        TableModel {
            t0: if self.table0.occupied {
                Some(self.table0.value)
            } else {
                None
            },
            t1: inline_model(self.table1.entries@),
            t2: inline_model(self.table2.entries@),
            t3: inline_model(self.table3.entries@),
            t4: fallback_model(self.table4.entries@, self.arena@),
            tails: match self.tails {
                Some(t) => Some(fallback_model(t.entries@, self.arena@)),
                None => None,
            },
            key_size: self.key_size as nat,
        }
    }

    /// The arena contents: the byte strings backing fallback and tail keys,
    /// in allocation order. Only ever grows, short of `clear`.
    pub closed spec fn spec_arena(&self) -> Seq<Seq<u8>> {
        self.arena@
    }

    /// The capacity bookkeeping: one slot for the empty key plus the
    /// capacity of each sub-table.
    pub closed spec fn spec_capacity(&self) -> nat {
        (1 + self.table1.cap + self.table2.cap + self.table3.cap + self.table4.cap) as nat
    }

    /// The table invariant: each sub-table is well formed, fallback and tail
    /// entries point into the arena, and the model satisfies `wf_model`. In
    /// addition the entry count fits the machine word.
    pub closed spec fn wf(&self) -> bool {
        &&& self.arena.wf()
        &&& self.table0.wf()
        &&& self.table1.wf(8)
        &&& self.table2.wf(16)
        &&& self.table3.wf(24)
        &&& self.table4.wf(self.arena@)
        &&& match self.tails {
            Some(t) => t.wf(self.arena@),
            None => true,
        }
        &&& wf_model(self.model())
        &&& len_of(self.model()) <= usize::MAX
    }

    /// What the closed invariant gives away: the model of a well-formed
    /// table satisfies the public model invariant, and its entry count fits
    /// the machine word. Callers can feed this to the model-level laws
    /// (partition exactness, the key-size law, iteration completeness).
    pub proof fn lemma_wf_model(&self)
        requires
            self.wf(),
        ensures
            wf_model(self.model()),
            len_of(self.model()) <= usize::MAX,
    {
    }

    /// Creates an empty table; `capacity` is a per-sub-table capacity hint.
    pub fn with_capacity(capacity: usize) -> (t: UnsizedHashtable<V>)
        ensures
            t.wf(),
            t.model() == empty_model::<V>(),
            t.spec_arena() == Seq::<Seq<u8>>::empty(),
            t.spec_capacity() == 1 + 4 * capacity,
    {
        let t = UnsizedHashtable {
            arena: Arena::new(),
            key_size: 0,
            table0: TableEmpty::new(),
            table1: InlineTable::with_capacity(capacity),
            table2: InlineTable::with_capacity(capacity),
            table3: InlineTable::with_capacity(capacity),
            table4: FallbackTable::with_capacity(capacity),
            tails: None,
        };
        proof {
            assert(t.model().t1 =~= Seq::<(Seq<u8>, Option<V>)>::empty());
            assert(t.model().t2 =~= Seq::<(Seq<u8>, Option<V>)>::empty());
            assert(t.model().t3 =~= Seq::<(Seq<u8>, Option<V>)>::empty());
            assert(t.model().t4 =~= Seq::<(Seq<u8>, Option<V>)>::empty());
            assert(t.model() =~= empty_model::<V>());
            assert(main_entries(empty_model::<V>()) =~= Seq::<(Seq<u8>, Option<V>)>::empty());
        }
        t
    }

    /// Creates an empty table with the default capacity hint.
    pub fn new() -> (t: UnsizedHashtable<V>)
        ensures
            t.wf(),
            t.model() == empty_model::<V>(),
            t.spec_arena() == Seq::<Seq<u8>>::empty(),
            t.spec_capacity() == 1 + 4 * 128,
    {
        Self::with_capacity(128)
    }

    /// The number of entries stored in the sub-tables. Tail records are not
    /// counted.
    pub fn len(&self) -> (n: usize)
        requires
            self.wf(),
        ensures
            n == len_of(self.model()),
    {
        proof {
            lemma_len_of_parts(self.model());
        }
        self.table0.len() + self.table1.len() + self.table2.len() + self.table3.len()
            + self.table4.len()
    }

    /// Whether no entry is stored.
    pub fn is_empty(&self) -> (r: bool)
        requires
            self.wf(),
        ensures
            r <==> len_of(self.model()) == 0,
    {
        self.len() == 0
    }

    /// The total capacity of the sub-tables, saturating at the machine
    /// limit.
    pub fn capacity(&self) -> (n: usize)
        ensures
            self.spec_capacity() <= usize::MAX ==> n == self.spec_capacity(),
            self.spec_capacity() > usize::MAX ==> n == usize::MAX,
    {
        let n: usize = 1;
        let n = n.saturating_add(self.table1.capacity());
        let n = n.saturating_add(self.table2.capacity());
        let n = n.saturating_add(self.table3.capacity());
        n.saturating_add(self.table4.capacity())
    }

    /// The sum of the byte lengths of all stored keys, for memory
    /// reporting.
    pub fn unsize_key_size(&self) -> (r: Option<usize>)
        ensures
            r == Some(self.model().key_size as usize),
            self.model().key_size <= usize::MAX,
    {
        Some(self.key_size)
    }

    /// Enables tail mode: from now on every non-empty insert appends to the
    /// tail list. Idempotent.
    pub fn enable_tail_array(&mut self)
        requires
            old(self).wf(),
        ensures
            final(self).wf(),
            final(self).model() == if old(self).model().tails is Some {
                old(self).model()
            } else {
                TableModel { tails: Some(Seq::empty()), ..old(self).model() }
            },
            final(self).spec_arena() == old(self).spec_arena(),
    {
        if self.tails.is_none() {
            self.tails = Some(TailArray::new());
            proof {
                assert(tail_seq(self.model()) =~= Seq::<(Seq<u8>, Option<V>)>::empty());
                assert(self.model() =~= (TableModel {
                    tails: Some(Seq::empty()),
                    ..old(self).model()
                }));
                assert(main_entries(self.model()) =~= main_entries(old(self).model()));
            }
        }
    }

    /// Empties the table: drops every entry, the tail list, and the arena.
    /// The capacity bookkeeping is kept.
    pub fn clear(&mut self)
        ensures
            final(self).wf(),
            final(self).model() == empty_model::<V>(),
            final(self).spec_arena() == Seq::<Seq<u8>>::empty(),
            final(self).spec_capacity() == old(self).spec_capacity(),
    {
        self.table0.clear();
        self.table1.clear();
        self.table2.clear();
        self.table3.clear();
        self.table4.clear();
        self.tails = None;
        self.arena = Arena::new();
        self.key_size = 0;
        proof {
            assert(self.model().t1 =~= Seq::<(Seq<u8>, Option<V>)>::empty());
            assert(self.model().t2 =~= Seq::<(Seq<u8>, Option<V>)>::empty());
            assert(self.model().t3 =~= Seq::<(Seq<u8>, Option<V>)>::empty());
            assert(self.model().t4 =~= Seq::<(Seq<u8>, Option<V>)>::empty());
            assert(self.model() =~= empty_model::<V>());
            assert(main_entries(empty_model::<V>()) =~= Seq::<(Seq<u8>, Option<V>)>::empty());
        }
    }
}

impl<V> UnsizedHashtable<V> {
    /// Whether `p` denotes an entry of this table.
    pub open spec fn place_valid(&self, p: EntryPlace) -> bool {
        match p {
            EntryPlace::InTable0 => self.model().t0 is Some,
            EntryPlace::InTable1(i) => i < self.model().t1.len(),
            EntryPlace::InTable2(i) => i < self.model().t2.len(),
            EntryPlace::InTable3(i) => i < self.model().t3.len(),
            EntryPlace::InTable4(i) => i < self.model().t4.len(),
            EntryPlace::InTail(i) => self.model().tails is Some && i < tail_seq(self.model()).len(),
        }
    }

    /// The key of the entry at `p`.
    pub open spec fn place_key(&self, p: EntryPlace) -> Seq<u8> {
        match p {
            EntryPlace::InTable0 => Seq::empty(),
            EntryPlace::InTable1(i) => self.model().t1[i as int].0,
            EntryPlace::InTable2(i) => self.model().t2[i as int].0,
            EntryPlace::InTable3(i) => self.model().t3[i as int].0,
            EntryPlace::InTable4(i) => self.model().t4[i as int].0,
            EntryPlace::InTail(i) => tail_seq(self.model())[i as int].0,
        }
    }

    /// The value slot of the entry at `p`: `None` until written.
    pub open spec fn place_val(&self, p: EntryPlace) -> Option<V> {
        match p {
            EntryPlace::InTable0 => match self.model().t0 {
                Some(v) => v,
                None => None,
            },
            EntryPlace::InTable1(i) => self.model().t1[i as int].1,
            EntryPlace::InTable2(i) => self.model().t2[i as int].1,
            EntryPlace::InTable3(i) => self.model().t3[i as int].1,
            EntryPlace::InTable4(i) => self.model().t4[i as int].1,
            EntryPlace::InTail(i) => tail_seq(self.model())[i as int].1,
        }
    }

    /// Inserts `key` into the sub-table owning it, bypassing the tail list:
    /// the shared path of the insert family and of set merging. `h`, if
    /// given, must be the key's hash.
    fn insert_main(&mut self, key: &[u8], h: Option<u64>) -> (r: Result<EntryPlace, EntryPlace>)
        requires
            old(self).wf(),
            match h {
                Some(v) => v == spec_hash_bytes(key@),
                None => true,
            },
            old(self).model().key_size + key@.len() <= usize::MAX,
            len_of(old(self).model()) < usize::MAX,
        ensures
            final(self).wf(),
            final(self).model() == model_insert_main(old(self).model(), key@),
            old(self).spec_arena().is_prefix_of(final(self).spec_arena()),
            (r is Err) ==> final(self).spec_arena() == old(self).spec_arena(),
            (r is Ok) <==> !contains(old(self).model(), key@),
            ({
                let p = match r {
                    Ok(p) => p,
                    Err(p) => p,
                };
                &&& final(self).place_valid(p)
                &&& final(self).place_key(p) == key@
                &&& final(self).place_val(p) == match value_of(old(self).model(), key@) {
                    Some(v) => v,
                    None => None::<V>,
                }
            }),
            forall|p: EntryPlace| #[trigger]
                old(self).place_valid(p) ==> final(self).place_valid(p) && final(self).place_key(p)
                    == old(self).place_key(p) && final(self).place_val(p) == old(self).place_val(p),
    {
        match classify(key) {
            KeyClass::Empty => self.insert_class_empty(key),
            KeyClass::Inline1 => self.insert_class_inline1(key),
            KeyClass::Inline2 => self.insert_class_inline2(key),
            KeyClass::Inline3 => self.insert_class_inline3(key),
            KeyClass::Fallback => {
                let hv = match h {
                    Some(v) => v,
                    None => fast_hash(key),
                };
                self.insert_class_fallback(key, hv)
            },
        }
    }

    /// Inserts the empty key into its one-slot table.
    fn insert_class_empty(&mut self, key: &[u8]) -> (r: Result<EntryPlace, EntryPlace>)
        requires
            old(self).wf(),
            old(self).model().key_size + key@.len() <= usize::MAX,
            len_of(old(self).model()) < usize::MAX,
            spec_classify(key@) == KeyClass::Empty,
        ensures
            final(self).wf(),
            final(self).model() == model_insert_main(old(self).model(), key@),
            old(self).spec_arena().is_prefix_of(final(self).spec_arena()),
            (r is Err) ==> final(self).spec_arena() == old(self).spec_arena(),
            (r is Ok) <==> !contains(old(self).model(), key@),
            ({
                let p = match r {
                    Ok(p) => p,
                    Err(p) => p,
                };
                &&& final(self).place_valid(p)
                &&& final(self).place_key(p) == key@
                &&& final(self).place_val(p) == match value_of(old(self).model(), key@) {
                    Some(v) => v,
                    None => None::<V>,
                }
            }),
            forall|p: EntryPlace| #[trigger]
                old(self).place_valid(p) ==> final(self).place_valid(p) && final(self).place_key(p)
                    == old(self).place_key(p) && final(self).place_val(p) == old(self).place_val(p),
    {
        let ghost m0 = old(self).model();
        let newly = self.table0.insert();
        proof {
            assert(key@ =~= Seq::<u8>::empty());
            if newly {
                assert(!contains(m0, key@));
                assert(self.model() =~= (TableModel { t0: Some(None), ..m0 }));
            } else {
                assert(t0_seq(m0)[0].0 == key@);
                assert(contains(m0, key@));
                assert(self.model() =~= m0);
            }
            lemma_insert_main_wf(m0, key@);
        }
        if newly {
            Ok(EntryPlace::InTable0)
        } else {
            Err(EntryPlace::InTable0)
        }
    }

    /// Inserts an inline key of class `Inline1`.
    fn insert_class_inline1(&mut self, key: &[u8]) -> (r: Result<EntryPlace, EntryPlace>)
        requires
            old(self).wf(),
            old(self).model().key_size + key@.len() <= usize::MAX,
            len_of(old(self).model()) < usize::MAX,
            spec_classify(key@) == KeyClass::Inline1,
        ensures
            final(self).wf(),
            final(self).model() == model_insert_main(old(self).model(), key@),
            old(self).spec_arena().is_prefix_of(final(self).spec_arena()),
            (r is Err) ==> final(self).spec_arena() == old(self).spec_arena(),
            (r is Ok) <==> !contains(old(self).model(), key@),
            ({
                let p = match r {
                    Ok(p) => p,
                    Err(p) => p,
                };
                &&& final(self).place_valid(p)
                &&& final(self).place_key(p) == key@
                &&& final(self).place_val(p) == match value_of(old(self).model(), key@) {
                    Some(v) => v,
                    None => None::<V>,
                }
            }),
            forall|p: EntryPlace| #[trigger]
                old(self).place_valid(p) ==> final(self).place_valid(p) && final(self).place_key(p)
                    == old(self).place_key(p) && final(self).place_val(p) == old(self).place_val(p),
    {
        let ghost m0 = old(self).model();
        proof {
            lemma_len_of_parts(m0);
        }
        self.table1.check_grow();
        let p = pack_key(key, 8);
        let ghost probe = p.packed@;
        match self.table1.insert(p) {
            Ok(i) => {
                self.key_size = self.key_size + key.len();
                proof {
                    lemma_inline_absent(old(self).table1.entries@, 8, probe, key@);
                    assert(!contains(m0, key@));
                    lemma_unpack_packing(probe, key@);
                    assert(self.model().t1 =~= m0.t1.push((key@, None)));
                    assert(self.model() =~= model_insert_main(m0, key@));
                    lemma_insert_main_wf(m0, key@);
                    lemma_lookup_contains(m0.t1, key@);
                    assert forall|x: int, y: int|
                        0 <= x < y < self.table1.entries@.len() implies #[trigger] inline_keys(
                        self.table1.entries@)[x] != #[trigger] inline_keys(
                        self.table1.entries@)[y] by {
                        assert(inline_keys(self.table1.entries@)[x] == self.model().t1[x].0);
                        assert(inline_keys(self.table1.entries@)[y] == self.model().t1[y].0);
                    }
                    assert(self.table1.wf(8));
                }
                Ok(EntryPlace::InTable1(i))
            },
            Err(i) => {
                proof {
                    let pi = self.table1.entries@[i as int].key.packed@;
                    lemma_well_packed_unpack(pi);
                    lemma_unpack_packing(probe, key@);
                    assert(self.model().t1[i as int].0 == key@);
                    assert(contains(m0, key@));
                    assert(self.model() =~= m0);
                    lemma_lookup_at(m0.t1, key@, i as int);
                }
                Err(EntryPlace::InTable1(i))
            },
        }
    }

    /// Inserts an inline key of class `Inline2`.
    fn insert_class_inline2(&mut self, key: &[u8]) -> (r: Result<EntryPlace, EntryPlace>)
        requires
            old(self).wf(),
            old(self).model().key_size + key@.len() <= usize::MAX,
            len_of(old(self).model()) < usize::MAX,
            spec_classify(key@) == KeyClass::Inline2,
        ensures
            final(self).wf(),
            final(self).model() == model_insert_main(old(self).model(), key@),
            old(self).spec_arena().is_prefix_of(final(self).spec_arena()),
            (r is Err) ==> final(self).spec_arena() == old(self).spec_arena(),
            (r is Ok) <==> !contains(old(self).model(), key@),
            ({
                let p = match r {
                    Ok(p) => p,
                    Err(p) => p,
                };
                &&& final(self).place_valid(p)
                &&& final(self).place_key(p) == key@
                &&& final(self).place_val(p) == match value_of(old(self).model(), key@) {
                    Some(v) => v,
                    None => None::<V>,
                }
            }),
            forall|p: EntryPlace| #[trigger]
                old(self).place_valid(p) ==> final(self).place_valid(p) && final(self).place_key(p)
                    == old(self).place_key(p) && final(self).place_val(p) == old(self).place_val(p),
    {
        let ghost m0 = old(self).model();
        proof {
            lemma_len_of_parts(m0);
        }
        self.table2.check_grow();
        let p = pack_key(key, 16);
        let ghost probe = p.packed@;
        match self.table2.insert(p) {
            Ok(i) => {
                self.key_size = self.key_size + key.len();
                proof {
                    lemma_inline_absent(old(self).table2.entries@, 16, probe, key@);
                    assert(!contains(m0, key@));
                    lemma_unpack_packing(probe, key@);
                    assert(self.model().t2 =~= m0.t2.push((key@, None)));
                    assert(self.model() =~= model_insert_main(m0, key@));
                    lemma_insert_main_wf(m0, key@);
                    lemma_lookup_contains(m0.t2, key@);
                    assert forall|x: int, y: int|
                        0 <= x < y < self.table2.entries@.len() implies #[trigger] inline_keys(
                        self.table2.entries@)[x] != #[trigger] inline_keys(
                        self.table2.entries@)[y] by {
                        assert(inline_keys(self.table2.entries@)[x] == self.model().t2[x].0);
                        assert(inline_keys(self.table2.entries@)[y] == self.model().t2[y].0);
                    }
                    assert(self.table2.wf(16));
                }
                Ok(EntryPlace::InTable2(i))
            },
            Err(i) => {
                proof {
                    let pi = self.table2.entries@[i as int].key.packed@;
                    lemma_well_packed_unpack(pi);
                    lemma_unpack_packing(probe, key@);
                    assert(self.model().t2[i as int].0 == key@);
                    assert(contains(m0, key@));
                    assert(self.model() =~= m0);
                    lemma_lookup_at(m0.t2, key@, i as int);
                }
                Err(EntryPlace::InTable2(i))
            },
        }
    }

    /// Inserts an inline key of class `Inline3`.
    fn insert_class_inline3(&mut self, key: &[u8]) -> (r: Result<EntryPlace, EntryPlace>)
        requires
            old(self).wf(),
            old(self).model().key_size + key@.len() <= usize::MAX,
            len_of(old(self).model()) < usize::MAX,
            spec_classify(key@) == KeyClass::Inline3,
        ensures
            final(self).wf(),
            final(self).model() == model_insert_main(old(self).model(), key@),
            old(self).spec_arena().is_prefix_of(final(self).spec_arena()),
            (r is Err) ==> final(self).spec_arena() == old(self).spec_arena(),
            (r is Ok) <==> !contains(old(self).model(), key@),
            ({
                let p = match r {
                    Ok(p) => p,
                    Err(p) => p,
                };
                &&& final(self).place_valid(p)
                &&& final(self).place_key(p) == key@
                &&& final(self).place_val(p) == match value_of(old(self).model(), key@) {
                    Some(v) => v,
                    None => None::<V>,
                }
            }),
            forall|p: EntryPlace| #[trigger]
                old(self).place_valid(p) ==> final(self).place_valid(p) && final(self).place_key(p)
                    == old(self).place_key(p) && final(self).place_val(p) == old(self).place_val(p),
    {
        let ghost m0 = old(self).model();
        proof {
            lemma_len_of_parts(m0);
        }
        self.table3.check_grow();
        let p = pack_key(key, 24);
        let ghost probe = p.packed@;
        match self.table3.insert(p) {
            Ok(i) => {
                self.key_size = self.key_size + key.len();
                proof {
                    lemma_inline_absent(old(self).table3.entries@, 24, probe, key@);
                    assert(!contains(m0, key@));
                    lemma_unpack_packing(probe, key@);
                    assert(self.model().t3 =~= m0.t3.push((key@, None)));
                    assert(self.model() =~= model_insert_main(m0, key@));
                    lemma_insert_main_wf(m0, key@);
                    lemma_lookup_contains(m0.t3, key@);
                    assert forall|x: int, y: int|
                        0 <= x < y < self.table3.entries@.len() implies #[trigger] inline_keys(
                        self.table3.entries@)[x] != #[trigger] inline_keys(
                        self.table3.entries@)[y] by {
                        assert(inline_keys(self.table3.entries@)[x] == self.model().t3[x].0);
                        assert(inline_keys(self.table3.entries@)[y] == self.model().t3[y].0);
                    }
                    assert(self.table3.wf(24));
                }
                Ok(EntryPlace::InTable3(i))
            },
            Err(i) => {
                proof {
                    let pi = self.table3.entries@[i as int].key.packed@;
                    lemma_well_packed_unpack(pi);
                    lemma_unpack_packing(probe, key@);
                    assert(self.model().t3[i as int].0 == key@);
                    assert(contains(m0, key@));
                    assert(self.model() =~= m0);
                    lemma_lookup_at(m0.t3, key@, i as int);
                }
                Err(EntryPlace::InTable3(i))
            },
        }
    }

    /// Inserts a fallback key, copying it into the arena when it is new.
    #[verifier::rlimit(50)]
    fn insert_class_fallback(&mut self, key: &[u8], h: u64) -> (r: Result<EntryPlace, EntryPlace>)
        requires
            old(self).wf(),
            old(self).model().key_size + key@.len() <= usize::MAX,
            len_of(old(self).model()) < usize::MAX,
            spec_classify(key@) == KeyClass::Fallback,
            h == spec_hash_bytes(key@),
        ensures
            final(self).wf(),
            final(self).model() == model_insert_main(old(self).model(), key@),
            old(self).spec_arena().is_prefix_of(final(self).spec_arena()),
            (r is Err) ==> final(self).spec_arena() == old(self).spec_arena(),
            (r is Ok) <==> !contains(old(self).model(), key@),
            ({
                let p = match r {
                    Ok(p) => p,
                    Err(p) => p,
                };
                &&& final(self).place_valid(p)
                &&& final(self).place_key(p) == key@
                &&& final(self).place_val(p) == match value_of(old(self).model(), key@) {
                    Some(v) => v,
                    None => None::<V>,
                }
            }),
            forall|p: EntryPlace| #[trigger]
                old(self).place_valid(p) ==> final(self).place_valid(p) && final(self).place_key(p)
                    == old(self).place_key(p) && final(self).place_val(p) == old(self).place_val(p),
    {
        let ghost m0 = old(self).model();
        proof {
            lemma_len_of_parts(m0);
        }
        self.table4.check_grow();
        let ghost t4_pre = self.table4;
        match self.table4.insert(&mut self.arena, key, h) {
            Ok(i) => {
                self.key_size = self.key_size + key.len();
                proof {
                    let a0 = old(self).spec_arena();
                    let a1 = self.spec_arena();
                    assert(a1 == a0.push(key@));
                    let e0 = t4_pre.entries@;
                    let e1 = self.table4.entries@;
                    let k0 = fb_keys(e0, a0);
                    let k1 = fb_keys(e1, a1);
                    assert(k1 == k0.push(key@));
                    assert(forall|j: int|
                        0 <= j < m0.t4.len() ==> (#[trigger] m0.t4[j]) == (k0[j], e0[j].val));
                    assert(e1.len() == e0.len() + 1 && forall|j: int|
                        0 <= j < e0.len() ==> e1[j] == e0[j]);
                    assert(e1.last().val is None);
                    assert(forall|j: int|
                        0 <= j < e1.len() ==> (#[trigger] self.model().t4[j]) == (k1[j], e1[j].val));
                    assert(!contains(m0, key@));
                    assert(self.model().t4 =~= m0.t4.push((key@, None)));
                    assert(a0 =~= a1.subrange(0, a0.len() as int));
                    lemma_tails_arena_grow(old(self).tails, self.tails, a0, a1);
                    assert(self.model().tails == m0.tails);
                    assert(self.model() =~= model_insert_main(m0, key@));
                    lemma_insert_main_wf(m0, key@);
                    lemma_lookup_contains(m0.t4, key@);
                }
                Ok(EntryPlace::InTable4(i))
            },
            Err(i) => {
                proof {
                    assert(self.model().t4[i as int].0 == key@);
                    assert(contains(m0, key@));
                    assert(self.model() =~= m0);
                    lemma_lookup_at(m0.t4, key@, i as int);
                }
                Err(EntryPlace::InTable4(i))
            },
        }
    }
}

impl<V> UnsizedHashtable<V> {
    /// Appends a fresh tail record for a non-empty key, copying its bytes
    /// into the arena.
    fn insert_tail(&mut self, key: &[u8], h: u64) -> (p: EntryPlace)
        requires
            old(self).wf(),
            old(self).model().tails is Some,
            key@.len() > 0,
            h == spec_hash_bytes(key@),
        ensures
            final(self).wf(),
            final(self).model() == model_insert(old(self).model(), key@),
            old(self).spec_arena().is_prefix_of(final(self).spec_arena()),
            final(self).place_valid(p),
            final(self).place_key(p) == key@,
            final(self).place_val(p) is None,
            forall|q: EntryPlace| #[trigger]
                old(self).place_valid(q) ==> final(self).place_valid(q) && final(self).place_key(q)
                    == old(self).place_key(q) && final(self).place_val(q) == old(self).place_val(q),
    {
        let ghost m0 = old(self).model();
        let ghost t_pre = old(self).tails->0;
        let i = match &mut self.tails {
            Some(t) => t.insert(&mut self.arena, key, h),
            None => unreached(),
        };
        proof {
            let a0 = old(self).spec_arena();
            let a1 = self.spec_arena();
            assert(a1 == a0.push(key@));
            assert(a0 =~= a1.subrange(0, a0.len() as int));
            let e0 = t_pre.entries@;
            let e1 = self.tails->0.entries@;
            let k0 = fb_keys(e0, a0);
            let k1 = fb_keys(e1, a1);
            assert(k1 == k0.push(key@));
            assert(e1.len() == e0.len() + 1 && forall|j: int|
                0 <= j < e0.len() ==> e1[j] == e0[j]);
            assert(e1.last().val is None);
            assert(forall|j: int|
                0 <= j < tail_seq(m0).len() ==> (#[trigger] tail_seq(m0)[j]) == (k0[j], e0[j].val));
            assert(forall|j: int|
                0 <= j < e1.len() ==> (#[trigger] fallback_model(e1, a1)[j]) == (k1[j], e1[j].val));
            assert(fallback_model(e1, a1) =~= tail_seq(m0).push((key@, None)));
            crate::table_fallback::lemma_fb_arena_grow(self.table4.entries@, a0, a1);
            assert(self.model().t4 =~= m0.t4);
            assert(self.model() =~= model_insert(m0, key@));
            lemma_insert_tail_wf(m0, key@);
        }
        EntryPlace::InTail(i)
    }

    /// Inserts `key`: `Ok` with a reference to a fresh entry whose value is
    /// unwritten, or `Err` with a reference to the entry already holding the
    /// key, whose state is then unchanged. In tail mode a non-empty key
    /// always gets a fresh tail record. The key bytes are copied; the caller
    /// keeps ownership.
    pub fn insert_and_entry(&mut self, key: &[u8]) -> (r: Result<
        UnsizedHashtableEntryMutRef,
        UnsizedHashtableEntryMutRef,
    >)
        requires
            old(self).wf(),
            old(self).model().key_size + key@.len() <= usize::MAX,
            len_of(old(self).model()) < usize::MAX,
        ensures
            final(self).wf(),
            final(self).model() == model_insert(old(self).model(), key@),
            old(self).spec_arena().is_prefix_of(final(self).spec_arena()),
            (r is Err) ==> final(self).spec_arena() == old(self).spec_arena(),
            (r is Ok) == model_insert_is_new(old(self).model(), key@),
            ({
                let e = match r {
                    Ok(e) => e,
                    Err(e) => e,
                };
                &&& final(self).place_valid(e.place)
                &&& final(self).place_key(e.place) == key@
                &&& (r is Ok ==> final(self).place_val(e.place) is None)
                &&& (r is Err ==> value_of(old(self).model(), key@) == Some(
                    final(self).place_val(e.place),
                ))
            }),
            forall|q: EntryPlace| #[trigger]
                old(self).place_valid(q) ==> final(self).place_valid(q) && final(self).place_key(q)
                    == old(self).place_key(q) && final(self).place_val(q) == old(self).place_val(q),
    {
        let in_tail_mode = self.tails.is_some();
        if in_tail_mode && key.len() > 0 {
            let h = fast_hash(key);
            let p = self.insert_tail(key, h);
            Ok(UnsizedHashtableEntryMutRef { place: p })
        } else {
            proof {
                if contains(old(self).model(), key@) {
                    lemma_lookup_contains(
                        class_seq(old(self).model(), spec_classify(key@)),
                        key@,
                    );
                }
            }
            match self.insert_main(key, None) {
                Ok(p) => Ok(UnsizedHashtableEntryMutRef { place: p }),
                Err(p) => Err(UnsizedHashtableEntryMutRef { place: p }),
            }
        }
    }

    /// As `insert_and_entry`, with the key's hash supplied by the caller,
    /// who must have computed it with this table's hash function. The
    /// contract is word for word that of `insert_and_entry`: the resulting
    /// state is a function of the key alone, so a correct precomputed hash
    /// changes nothing observable.
    pub fn insert_and_entry_with_hash(&mut self, key: &[u8], hash: u64) -> (r: Result<
        UnsizedHashtableEntryMutRef,
        UnsizedHashtableEntryMutRef,
    >)
        requires
            old(self).wf(),
            hash == spec_hash_bytes(key@),
            old(self).model().key_size + key@.len() <= usize::MAX,
            len_of(old(self).model()) < usize::MAX,
        ensures
            final(self).wf(),
            final(self).model() == model_insert(old(self).model(), key@),
            old(self).spec_arena().is_prefix_of(final(self).spec_arena()),
            (r is Err) ==> final(self).spec_arena() == old(self).spec_arena(),
            (r is Ok) == model_insert_is_new(old(self).model(), key@),
            ({
                let e = match r {
                    Ok(e) => e,
                    Err(e) => e,
                };
                &&& final(self).place_valid(e.place)
                &&& final(self).place_key(e.place) == key@
                &&& (r is Ok ==> final(self).place_val(e.place) is None)
                &&& (r is Err ==> value_of(old(self).model(), key@) == Some(
                    final(self).place_val(e.place),
                ))
            }),
            forall|q: EntryPlace| #[trigger]
                old(self).place_valid(q) ==> final(self).place_valid(q) && final(self).place_key(q)
                    == old(self).place_key(q) && final(self).place_val(q) == old(self).place_val(q),
    {
        let in_tail_mode = self.tails.is_some();
        if in_tail_mode && key.len() > 0 {
            let p = self.insert_tail(key, hash);
            Ok(UnsizedHashtableEntryMutRef { place: p })
        } else {
            proof {
                if contains(old(self).model(), key@) {
                    lemma_lookup_contains(
                        class_seq(old(self).model(), spec_classify(key@)),
                        key@,
                    );
                }
            }
            match self.insert_main(key, Some(hash)) {
                Ok(p) => Ok(UnsizedHashtableEntryMutRef { place: p }),
                Err(p) => Err(UnsizedHashtableEntryMutRef { place: p }),
            }
        }
    }

    /// As `insert_and_entry`. A borrowing insert is meant for callers whose
    /// key storage outlives the table; since every insert here copies the
    /// key anyway, the two entry points coincide.
    pub fn insert_and_entry_borrowing(&mut self, key: &[u8]) -> (r: Result<
        UnsizedHashtableEntryMutRef,
        UnsizedHashtableEntryMutRef,
    >)
        requires
            old(self).wf(),
            old(self).model().key_size + key@.len() <= usize::MAX,
            len_of(old(self).model()) < usize::MAX,
        ensures
            final(self).wf(),
            final(self).model() == model_insert(old(self).model(), key@),
            old(self).spec_arena().is_prefix_of(final(self).spec_arena()),
            (r is Err) ==> final(self).spec_arena() == old(self).spec_arena(),
            (r is Ok) == model_insert_is_new(old(self).model(), key@),
            ({
                let e = match r {
                    Ok(e) => e,
                    Err(e) => e,
                };
                &&& final(self).place_valid(e.place)
                &&& final(self).place_key(e.place) == key@
                &&& (r is Ok ==> final(self).place_val(e.place) is None)
                &&& (r is Err ==> value_of(old(self).model(), key@) == Some(
                    final(self).place_val(e.place),
                ))
            }),
            forall|q: EntryPlace| #[trigger]
                old(self).place_valid(q) ==> final(self).place_valid(q) && final(self).place_key(q)
                    == old(self).place_key(q) && final(self).place_val(q) == old(self).place_val(q),
    {
        self.insert_and_entry(key)
    }

    /// As `insert_and_entry`; kept as the entry point whose result the
    /// caller treats as a plain slot reference.
    pub fn insert(&mut self, key: &[u8]) -> (r: Result<
        UnsizedHashtableEntryMutRef,
        UnsizedHashtableEntryMutRef,
    >)
        requires
            old(self).wf(),
            old(self).model().key_size + key@.len() <= usize::MAX,
            len_of(old(self).model()) < usize::MAX,
        ensures
            final(self).wf(),
            final(self).model() == model_insert(old(self).model(), key@),
            old(self).spec_arena().is_prefix_of(final(self).spec_arena()),
            (r is Err) ==> final(self).spec_arena() == old(self).spec_arena(),
            (r is Ok) == model_insert_is_new(old(self).model(), key@),
            ({
                let e = match r {
                    Ok(e) => e,
                    Err(e) => e,
                };
                &&& final(self).place_valid(e.place)
                &&& final(self).place_key(e.place) == key@
                &&& (r is Ok ==> final(self).place_val(e.place) is None)
                &&& (r is Err ==> value_of(old(self).model(), key@) == Some(
                    final(self).place_val(e.place),
                ))
            }),
            forall|q: EntryPlace| #[trigger]
                old(self).place_valid(q) ==> final(self).place_valid(q) && final(self).place_key(q)
                    == old(self).place_key(q) && final(self).place_val(q) == old(self).place_val(q),
    {
        self.insert_and_entry(key)
    }

    /// As `insert`, for callers that own their key storage. See
    /// `insert_and_entry_borrowing`.
    pub fn insert_borrowing(&mut self, key: &[u8]) -> (r: Result<
        UnsizedHashtableEntryMutRef,
        UnsizedHashtableEntryMutRef,
    >)
        requires
            old(self).wf(),
            old(self).model().key_size + key@.len() <= usize::MAX,
            len_of(old(self).model()) < usize::MAX,
        ensures
            final(self).wf(),
            final(self).model() == model_insert(old(self).model(), key@),
            old(self).spec_arena().is_prefix_of(final(self).spec_arena()),
            (r is Err) ==> final(self).spec_arena() == old(self).spec_arena(),
            (r is Ok) == model_insert_is_new(old(self).model(), key@),
            ({
                let e = match r {
                    Ok(e) => e,
                    Err(e) => e,
                };
                &&& final(self).place_valid(e.place)
                &&& final(self).place_key(e.place) == key@
                &&& (r is Ok ==> final(self).place_val(e.place) is None)
                &&& (r is Err ==> value_of(old(self).model(), key@) == Some(
                    final(self).place_val(e.place),
                ))
            }),
            forall|q: EntryPlace| #[trigger]
                old(self).place_valid(q) ==> final(self).place_valid(q) && final(self).place_key(q)
                    == old(self).place_key(q) && final(self).place_val(q) == old(self).place_val(q),
    {
        self.insert_and_entry(key)
    }
}

impl<V> UnsizedHashtable<V> {
    /// Looks the key up in the sub-table owning it; the tail list is never
    /// consulted.
    fn find_place(&self, key: &[u8]) -> (r: Option<EntryPlace>)
        requires
            self.wf(),
        ensures
            match r {
                Some(p) => {
                    &&& contains(self.model(), key@)
                    &&& !(p is InTail)
                    &&& self.place_valid(p)
                    &&& self.place_key(p) == key@
                    &&& value_of(self.model(), key@) == Some(self.place_val(p))
                },
                None => !contains(self.model(), key@),
            },
    {
        let ghost m = self.model();
        match classify(key) {
            KeyClass::Empty => {
                if self.table0.occupied {
                    proof {
                        assert(key@ =~= Seq::<u8>::empty());
                        assert(t0_seq(m)[0].0 == key@);
                    }
                    Some(EntryPlace::InTable0)
                } else {
                    None
                }
            },
            KeyClass::Inline1 => {
                let p = pack_key(key, 8);
                let ghost probe = p.packed@;
                match self.table1.find(&p) {
                    Some(i) => {
                        proof {
                            lemma_unpack_packing(probe, key@);
                            assert(m.t1[i as int].0 == key@);
                            lemma_lookup_at(m.t1, key@, i as int);
                        }
                        Some(EntryPlace::InTable1(i))
                    },
                    None => {
                        proof {
                            lemma_inline_absent(self.table1.entries@, 8, probe, key@);
                        }
                        None
                    },
                }
            },
            KeyClass::Inline2 => {
                let p = pack_key(key, 16);
                let ghost probe = p.packed@;
                match self.table2.find(&p) {
                    Some(i) => {
                        proof {
                            lemma_unpack_packing(probe, key@);
                            assert(m.t2[i as int].0 == key@);
                            lemma_lookup_at(m.t2, key@, i as int);
                        }
                        Some(EntryPlace::InTable2(i))
                    },
                    None => {
                        proof {
                            lemma_inline_absent(self.table2.entries@, 16, probe, key@);
                        }
                        None
                    },
                }
            },
            KeyClass::Inline3 => {
                let p = pack_key(key, 24);
                let ghost probe = p.packed@;
                match self.table3.find(&p) {
                    Some(i) => {
                        proof {
                            lemma_unpack_packing(probe, key@);
                            assert(m.t3[i as int].0 == key@);
                            lemma_lookup_at(m.t3, key@, i as int);
                        }
                        Some(EntryPlace::InTable3(i))
                    },
                    None => {
                        proof {
                            lemma_inline_absent(self.table3.entries@, 24, probe, key@);
                        }
                        None
                    },
                }
            },
            KeyClass::Fallback => {
                let h = fast_hash(key);
                match self.table4.find(&self.arena, key, h) {
                    Some(i) => {
                        proof {
                            assert(m.t4[i as int] == (
                                fb_keys(self.table4.entries@, self.arena@)[i as int],
                                self.table4.entries@[i as int].val,
                            ));
                            lemma_lookup_at(m.t4, key@, i as int);
                        }
                        Some(EntryPlace::InTable4(i))
                    },
                    None => {
                        proof {
                            assert(forall|j: int|
                                0 <= j < m.t4.len() ==> (#[trigger] m.t4[j]).0 == fb_keys(
                                    self.table4.entries@,
                                    self.arena@,
                                )[j]);
                        }
                        None
                    },
                }
            },
        }
    }

    /// A shared reference to the entry holding `key`, if present.
    pub fn entry(&self, key: &[u8]) -> (r: Option<UnsizedHashtableEntryRef>)
        requires
            self.wf(),
        ensures
            match r {
                Some(e) => {
                    &&& contains(self.model(), key@)
                    &&& !(e.place is InTail)
                    &&& self.place_valid(e.place)
                    &&& self.place_key(e.place) == key@
                    &&& value_of(self.model(), key@) == Some(self.place_val(e.place))
                },
                None => !contains(self.model(), key@),
            },
    {
        match self.find_place(key) {
            Some(p) => Some(UnsizedHashtableEntryRef { place: p }),
            None => None,
        }
    }

    /// A mutable reference to the entry holding `key`, if present.
    pub fn entry_mut(&mut self, key: &[u8]) -> (r: Option<UnsizedHashtableEntryMutRef>)
        requires
            old(self).wf(),
        ensures
            *final(self) == *old(self),
            match r {
                Some(e) => {
                    &&& contains(old(self).model(), key@)
                    &&& !(e.place is InTail)
                    &&& old(self).place_valid(e.place)
                    &&& old(self).place_key(e.place) == key@
                    &&& value_of(old(self).model(), key@) == Some(old(self).place_val(e.place))
                },
                None => !contains(old(self).model(), key@),
            },
    {
        match self.find_place(key) {
            Some(p) => Some(UnsizedHashtableEntryMutRef { place: p }),
            None => None,
        }
    }

    /// The value stored for `key`, if the key is present. The caller must
    /// have written the slot of a present key.
    pub fn get(&self, key: &[u8]) -> (r: Option<&V>)
        requires
            self.wf(),
            contains(self.model(), key@) ==> value_of(self.model(), key@)->0 is Some,
        ensures
            match r {
                Some(v) => value_of(self.model(), key@) == Some(Some(*v)),
                None => !contains(self.model(), key@),
            },
    {
        match self.find_place(key) {
            Some(p) => {
                let e = UnsizedHashtableEntryRef { place: p };
                Some(e.get(self))
            },
            None => None,
        }
    }

    /// An iterator over all entries: the empty key, the inline tables, the
    /// fallback table, then the tail list.
    pub fn iter(&self) -> (it: UnsizedHashtableIter)
        ensures
            it.pos == 0,
    {
        UnsizedHashtableIter { pos: 0 }
    }

    /// As `iter`, yielding mutable entry references.
    pub fn iter_mut(&mut self) -> (it: UnsizedHashtableIterMut)
        ensures
            *final(self) == *old(self),
            it.pos == 0,
    {
        UnsizedHashtableIterMut { pos: 0 }
    }
}

/// An iterator over the table's entries, by position in iteration order:
/// the empty key, the inline tables, the fallback table, then the tail
/// list. It holds only a position; `next` reads the table it came from.
pub struct UnsizedHashtableIter {
    /// The position of the next entry in iteration order.
    pub pos: usize,
}

/// As `UnsizedHashtableIter`, yielding mutable entry references.
pub struct UnsizedHashtableIterMut {
    /// The position of the next entry in iteration order.
    pub pos: usize,
}

/// The place that position `pos` of the iteration order denotes: the
/// sub-tables in order, then the tail list. Iteration is deterministic:
/// which entry a position yields is a function of the table state alone.
pub open spec fn place_of_pos<V>(m: TableModel<V>, pos: int) -> EntryPlace {
    if pos < seg_offset(m, KeyClass::Inline1) {
        EntryPlace::InTable0
    } else if pos < seg_offset(m, KeyClass::Inline2) {
        EntryPlace::InTable1((pos - seg_offset(m, KeyClass::Inline1)) as usize)
    } else if pos < seg_offset(m, KeyClass::Inline3) {
        EntryPlace::InTable2((pos - seg_offset(m, KeyClass::Inline2)) as usize)
    } else if pos < seg_offset(m, KeyClass::Fallback) {
        EntryPlace::InTable3((pos - seg_offset(m, KeyClass::Inline3)) as usize)
    } else if pos < main_entries(m).len() {
        EntryPlace::InTable4((pos - seg_offset(m, KeyClass::Fallback)) as usize)
    } else {
        EntryPlace::InTail((pos - main_entries(m).len()) as usize)
    }
}

/// Yields the place of the entry at position `pos` of the iteration order,
/// if any.
fn place_at<V>(t: &UnsizedHashtable<V>, pos: usize) -> (r: Option<EntryPlace>)
    requires
        t.wf(),
    ensures
        ({
            let all = all_entries(t.model());
            match r {
                Some(p) => {
                    &&& pos < all.len()
                    &&& p == place_of_pos(t.model(), pos as int)
                    &&& t.place_valid(p)
                    &&& t.place_key(p) == all[pos as int].0
                    &&& t.place_val(p) == all[pos as int].1
                },
                None => pos >= all.len(),
            }
        }),
{
    let ghost m = t.model();
    let ghost all = all_entries(m);
    proof {
        lemma_len_of_parts(m);
    }
    let l0 = t.table0.len();
    if pos < l0 {
        proof {
            assert(all[pos as int] == t0_seq(m)[pos as int]);
        }
        return Some(EntryPlace::InTable0);
    }
    let l1 = t.table1.len();
    if pos - l0 < l1 {
        let i = pos - l0;
        proof {
            assert(all[pos as int] == m.t1[i as int]);
        }
        return Some(EntryPlace::InTable1(i));
    }
    let l2 = t.table2.len();
    if pos - l0 - l1 < l2 {
        let i = pos - l0 - l1;
        proof {
            assert(all[pos as int] == m.t2[i as int]);
        }
        return Some(EntryPlace::InTable2(i));
    }
    let l3 = t.table3.len();
    if pos - l0 - l1 - l2 < l3 {
        let i = pos - l0 - l1 - l2;
        proof {
            assert(all[pos as int] == m.t3[i as int]);
        }
        return Some(EntryPlace::InTable3(i));
    }
    let l4 = t.table4.len();
    if pos - l0 - l1 - l2 - l3 < l4 {
        let i = pos - l0 - l1 - l2 - l3;
        proof {
            assert(all[pos as int] == m.t4[i as int]);
        }
        return Some(EntryPlace::InTable4(i));
    }
    let main = l0 + l1 + l2 + l3 + l4;
    match &t.tails {
        Some(tl) => {
            if pos - main < tl.entries.len() {
                let i = pos - main;
                proof {
                    assert(all[pos as int] == tail_seq(m)[i as int]);
                }
                Some(EntryPlace::InTail(i))
            } else {
                None
            }
        },
        None => {
            proof {
                assert(all =~= main_entries(m));
            }
            None
        },
    }
}

impl UnsizedHashtableIter {
    /// The entry at the current position, advancing past it; `None` once
    /// every entry has been yielded. Entries come out in iteration order:
    /// position `pos` holds the entry `all_entries(t.model())[pos]`.
    pub fn next<V>(&mut self, t: &UnsizedHashtable<V>) -> (r: Option<UnsizedHashtableEntryRef>)
        requires
            t.wf(),
            old(self).pos < usize::MAX,
        ensures
            ({
                let all = all_entries(t.model());
                if old(self).pos < all.len() {
                    &&& r is Some
                    &&& final(self).pos == old(self).pos + 1
                    &&& r->0.place == place_of_pos(t.model(), old(self).pos as int)
                    &&& t.place_valid(r->0.place)
                    &&& t.place_key(r->0.place) == all[old(self).pos as int].0
                    &&& t.place_val(r->0.place) == all[old(self).pos as int].1
                } else {
                    r is None && final(self).pos == old(self).pos
                }
            }),
    {
        match place_at(t, self.pos) {
            Some(p) => {
                self.pos = self.pos + 1;
                Some(UnsizedHashtableEntryRef { place: p })
            },
            None => None,
        }
    }
}

impl UnsizedHashtableIterMut {
    /// The entry at the current position, advancing past it; `None` once
    /// every entry has been yielded.
    pub fn next<V>(&mut self, t: &UnsizedHashtable<V>) -> (r: Option<UnsizedHashtableEntryMutRef>)
        requires
            t.wf(),
            old(self).pos < usize::MAX,
        ensures
            ({
                let all = all_entries(t.model());
                if old(self).pos < all.len() {
                    &&& r is Some
                    &&& final(self).pos == old(self).pos + 1
                    &&& r->0.place == place_of_pos(t.model(), old(self).pos as int)
                    &&& t.place_valid(r->0.place)
                    &&& t.place_key(r->0.place) == all[old(self).pos as int].0
                    &&& t.place_val(r->0.place) == all[old(self).pos as int].1
                } else {
                    r is None && final(self).pos == old(self).pos
                }
            }),
    {
        match place_at(t, self.pos) {
            Some(p) => {
                self.pos = self.pos + 1;
                Some(UnsizedHashtableEntryMutRef { place: p })
            },
            None => None,
        }
    }
}

impl UnsizedHashtableEntryRef {
    /// The key of the entry, reconstructed as owned bytes.
    pub fn key<V>(&self, t: &UnsizedHashtable<V>) -> (k: Vec<u8>)
        requires
            t.wf(),
            t.place_valid(self.place),
        ensures
            k@ == t.place_key(self.place),
    {
        entry_key(self.place, t)
    }

    /// The value of the entry, which must have been written.
    pub fn get<'a, V>(&self, t: &'a UnsizedHashtable<V>) -> (v: &'a V)
        requires
            t.wf(),
            t.place_valid(self.place),
            t.place_val(self.place) is Some,
        ensures
            t.place_val(self.place) == Some(*v),
    {
        entry_value(self.place, t)
    }
}

impl UnsizedHashtableEntryMutRef {
    /// The key of the entry, reconstructed as owned bytes.
    pub fn key<V>(&self, t: &UnsizedHashtable<V>) -> (k: Vec<u8>)
        requires
            t.wf(),
            t.place_valid(self.place),
        ensures
            k@ == t.place_key(self.place),
    {
        entry_key(self.place, t)
    }

    /// The value of the entry, which must have been written.
    pub fn get<'a, V>(&self, t: &'a UnsizedHashtable<V>) -> (v: &'a V)
        requires
            t.wf(),
            t.place_valid(self.place),
            t.place_val(self.place) is Some,
        ensures
            t.place_val(self.place) == Some(*v),
    {
        entry_value(self.place, t)
    }

    /// Writes the entry's value slot.
    pub fn write<V>(&self, t: &mut UnsizedHashtable<V>, val: V)
        requires
            old(t).wf(),
            old(t).place_valid(self.place),
        ensures
            final(t).wf(),
            final(t).model() == (match self.place {
                EntryPlace::InTail(i) => model_with_tail_value(old(t).model(), i as int, val),
                _ => model_with_value(old(t).model(), old(t).place_key(self.place), val),
            }),
            final(t).spec_arena() == old(t).spec_arena(),
            forall|q: EntryPlace| #[trigger]
                old(t).place_valid(q) ==> final(t).place_valid(q) && final(t).place_key(q) == old(
                    t,
                ).place_key(q) && final(t).place_val(q) == (if q == self.place {
                    Some(val)
                } else {
                    old(t).place_val(q)
                }),
    {
        let ghost m0 = old(t).model();
        let ghost k = old(t).place_key(self.place);
        match self.place {
            EntryPlace::InTable0 => {
                t.table0.value = Some(val);
                proof {
                    assert(k =~= Seq::<u8>::empty());
                    assert(t0_seq(m0)[0].0 == k);
                    assert(contains(m0, k));
                    assert(t.model() =~= model_with_value(m0, k, val));
                    lemma_with_value_wf(m0, k, val);
                }
            },
            EntryPlace::InTable1(i) => {
                let e = &mut t.table1.entries[i];
                e.val = Some(val);
                proof {
                    assert(spec_classify(k) == KeyClass::Inline1);
                    assert(contains(m0, k));
                    assert(t.model().t1 =~= update_seq(m0.t1, k, val));
                    assert(t.model() =~= model_with_value(m0, k, val));
                    lemma_with_value_wf(m0, k, val);
                    crate::table_inline::lemma_inline_wf_val_update(
                        old(t).table1.entries@,
                        t.table1.entries@,
                        8,
                    );
                }
            },
            EntryPlace::InTable2(i) => {
                let e = &mut t.table2.entries[i];
                e.val = Some(val);
                proof {
                    assert(spec_classify(k) == KeyClass::Inline2);
                    assert(contains(m0, k));
                    assert(t.model().t2 =~= update_seq(m0.t2, k, val));
                    assert(t.model() =~= model_with_value(m0, k, val));
                    lemma_with_value_wf(m0, k, val);
                    crate::table_inline::lemma_inline_wf_val_update(
                        old(t).table2.entries@,
                        t.table2.entries@,
                        16,
                    );
                }
            },
            EntryPlace::InTable3(i) => {
                let e = &mut t.table3.entries[i];
                e.val = Some(val);
                proof {
                    assert(spec_classify(k) == KeyClass::Inline3);
                    assert(contains(m0, k));
                    assert(t.model().t3 =~= update_seq(m0.t3, k, val));
                    assert(t.model() =~= model_with_value(m0, k, val));
                    lemma_with_value_wf(m0, k, val);
                    crate::table_inline::lemma_inline_wf_val_update(
                        old(t).table3.entries@,
                        t.table3.entries@,
                        24,
                    );
                }
            },
            EntryPlace::InTable4(i) => {
                let e = &mut t.table4.entries[i];
                e.val = Some(val);
                proof {
                    assert(spec_classify(k) == KeyClass::Fallback);
                    assert(contains(m0, k));
                    assert(t.model().t4 =~= update_seq(m0.t4, k, val));
                    assert(t.model() =~= model_with_value(m0, k, val));
                    lemma_with_value_wf(m0, k, val);
                    crate::table_fallback::lemma_fb_wf_val_update(
                        old(t).table4.entries@,
                        t.table4.entries@,
                        t.arena@,
                    );
                }
            },
            EntryPlace::InTail(i) => {
                match &mut t.tails {
                    Some(tl) => {
                        let e = &mut tl.entries[i];
                        e.val = Some(val);
                    },
                    None => unreached(),
                }
                proof {
                    assert(tail_seq(t.model()) =~= tail_seq(m0).update(
                        i as int,
                        (tail_seq(m0)[i as int].0, Some(val)),
                    ));
                    assert(t.model() =~= model_with_tail_value(m0, i as int, val));
                    assert(wf_model(t.model())) by {
                        assert(main_entries(t.model()) =~= main_entries(m0));
                    }
                }
            },
        }
    }
}

/// Reconstructs the key at a valid place as owned bytes.
fn entry_key<V>(p: EntryPlace, t: &UnsizedHashtable<V>) -> (k: Vec<u8>)
    requires
        t.wf(),
        t.place_valid(p),
    ensures
        k@ == t.place_key(p),
{
    match p {
        EntryPlace::InTable0 => {
            let k: Vec<u8> = Vec::new();
            proof {
                assert(k@ =~= Seq::<u8>::empty());
            }
            k
        },
        EntryPlace::InTable1(i) => unpack_key(&t.table1.entries[i].key),
        EntryPlace::InTable2(i) => unpack_key(&t.table2.entries[i].key),
        EntryPlace::InTable3(i) => unpack_key(&t.table3.entries[i].key),
        EntryPlace::InTable4(i) => t.arena.chunk_copy(t.table4.entries[i].key.key_idx),
        EntryPlace::InTail(i) => match &t.tails {
            Some(tl) => t.arena.chunk_copy(tl.entries[i].key.key_idx),
            None => unreached(),
        },
    }
}

/// The written value at a valid place.
fn entry_value<'a, V>(p: EntryPlace, t: &'a UnsizedHashtable<V>) -> (v: &'a V)
    requires
        t.wf(),
        t.place_valid(p),
        t.place_val(p) is Some,
    ensures
        t.place_val(p) == Some(*v),
{
    match p {
        EntryPlace::InTable0 => match &t.table0.value {
            Some(v) => v,
            None => unreached(),
        },
        EntryPlace::InTable1(i) => match &t.table1.entries[i].val {
            Some(v) => v,
            None => unreached(),
        },
        EntryPlace::InTable2(i) => match &t.table2.entries[i].val {
            Some(v) => v,
            None => unreached(),
        },
        EntryPlace::InTable3(i) => match &t.table3.entries[i].val {
            Some(v) => v,
            None => unreached(),
        },
        EntryPlace::InTable4(i) => match &t.table4.entries[i].val {
            Some(v) => v,
            None => unreached(),
        },
        EntryPlace::InTail(i) => match &t.tails {
            Some(tl) => match &tl.entries[i].val {
                Some(v) => v,
                None => unreached(),
            },
            None => unreached(),
        },
    }
}

impl UnsizedHashtable<()> {
    /// Set usage: inserts the key with a unit value; true if the key is
    /// newly stored.
    pub fn set_insert(&mut self, key: &[u8]) -> (newly: bool)
        requires
            old(self).wf(),
            old(self).model().key_size + key@.len() <= usize::MAX,
            len_of(old(self).model()) < usize::MAX,
        ensures
            final(self).wf(),
            final(self).model() == model_insert(old(self).model(), key@),
            newly == model_insert_is_new(old(self).model(), key@),
    {
        match self.insert_and_entry(key) {
            Ok(_) => true,
            Err(_) => false,
        }
    }

    /// Set usage: folds the keys of `other` into this table, inserting into
    /// the sub-tables directly — tail mode, and the tail lists of both
    /// tables, are ignored, as is deliberate in set merging.
    pub fn set_merge(&mut self, other: &UnsizedHashtable<()>)
        requires
            old(self).wf(),
            other.wf(),
            old(self).model().key_size + other.model().key_size <= usize::MAX,
            len_of(old(self).model()) + len_of(other.model()) <= usize::MAX,
        ensures
            final(self).wf(),
            forall|q: Seq<u8>| #[trigger]
                contains(final(self).model(), q) <==> (contains(old(self).model(), q) || contains(
                    other.model(),
                    q,
                )),
            forall|q: Seq<u8>|
                contains(old(self).model(), q) ==> #[trigger] value_of(final(self).model(), q)
                    == value_of(old(self).model(), q),
            final(self).model().tails == old(self).model().tails,
    {
        let ghost m0 = old(self).model();
        let ghost om = other.model();
        let ghost main = main_entries(om);
        let n = other.len();
        let mut pos: usize = 0;
        proof {
            assert(main.take(0) =~= Seq::<(Seq<u8>, Option<()>)>::empty());
        }
        while pos < n
            invariant
                self.wf(),
                other.wf(),
                om == other.model(),
                main == main_entries(om),
                n == len_of(om),
                pos <= n,
                m0.key_size + om.key_size <= usize::MAX,
                len_of(m0) + n <= usize::MAX,
                self.model().key_size <= m0.key_size + sum_key_lens(main.take(pos as int)),
                len_of(self.model()) <= len_of(m0) + pos,
                self.model().tails == m0.tails,
                forall|q: Seq<u8>| #[trigger]
                    contains(self.model(), q) <==> (contains(m0, q) || exists|j: int|
                        0 <= j < pos && (#[trigger] main[j]).0 == q),
                forall|q: Seq<u8>|
                    contains(m0, q) ==> #[trigger] value_of(self.model(), q) == value_of(m0, q),
            decreases n - pos,
        {
            let ghost mcur = self.model();
            let p = match place_at(other, pos) {
                Some(p) => p,
                None => unreached(),
            };
            let k = entry_key(p, other);
            proof {
                assert(all_entries(om)[pos as int] == main[pos as int]);
                lemma_sum_take_succ(main, pos as int);
                lemma_sum_take_le(main, pos + 1);
            }
            let r = self.insert_main(k.as_slice(), None);
            proof {
                lemma_insert_main_wf(mcur, k@);
                assert forall|q: Seq<u8>| #[trigger]
                    contains(self.model(), q) <==> (contains(m0, q) || exists|j: int|
                        0 <= j < pos + 1 && (#[trigger] main[j]).0 == q) by {
                    if q == k@ {
                        if !contains(mcur, q) {
                            lemma_insert_main_new(mcur, q);
                        }
                        assert(main[pos as int].0 == q);
                    } else {
                        lemma_insert_main_frame(mcur, k@, q);
                    }
                }
                assert forall|q: Seq<u8>|
                    contains(m0, q) implies #[trigger] value_of(self.model(), q) == value_of(
                    m0,
                    q,
                ) by {
                    if q != k@ {
                        lemma_insert_main_frame(mcur, k@, q);
                    }
                }
            }
            pos = pos + 1;
        }
        proof {
            assert forall|q: Seq<u8>| #[trigger]
                contains(self.model(), q) <==> (contains(m0, q) || contains(om, q)) by {
                lemma_main_membership(om, q);
                assert((exists|j: int| 0 <= j < n && (#[trigger] main[j]).0 == q) == contains_seq(
                    main,
                    q,
                ));
            }
        }
    }
}

impl<V> UnsizedHashtable<V> {
    /// The memory footprint: the table structure itself, the arena's bytes,
    /// and each sub-table's reserved entry storage; saturating at the
    /// machine limit.
    pub closed spec fn spec_bytes_len(&self) -> nat {
        (vstd::layout::size_of::<UnsizedHashtable<V>>() + crate::arena::sum_lens(self.arena@)
            + self.table1.cap * vstd::layout::size_of::<InlineEntry<V>>() + self.table2.cap
            * vstd::layout::size_of::<InlineEntry<V>>() + self.table3.cap
            * vstd::layout::size_of::<InlineEntry<V>>() + self.table4.cap
            * vstd::layout::size_of::<FallbackEntry<V>>()) as nat
    }

    /// Reports the memory footprint, saturating at the machine limit.
    pub fn bytes_len(&self) -> (n: usize)
        requires
            self.wf(),
        ensures
            self.spec_bytes_len() <= usize::MAX ==> n == self.spec_bytes_len(),
            self.spec_bytes_len() > usize::MAX ==> n == usize::MAX,
    {
        let base = core::mem::size_of::<UnsizedHashtable<V>>();
        let inline_entry = core::mem::size_of::<InlineEntry<V>>();
        let fallback_entry = core::mem::size_of::<FallbackEntry<V>>();
        let n = base.saturating_add(self.arena.allocated_bytes());
        let n = n.saturating_add(sat_mul(self.table1.capacity(), inline_entry));
        let n = n.saturating_add(sat_mul(self.table2.capacity(), inline_entry));
        let n = n.saturating_add(sat_mul(self.table3.capacity(), inline_entry));
        n.saturating_add(sat_mul(self.table4.capacity(), fallback_entry))
    }
}

impl<V> Default for UnsizedHashtable<V> {
    /// An empty table with the default capacity hint.
    fn default() -> (t: Self)
        ensures
            t.wf(),
            t.model() == empty_model::<V>(),
            t.spec_arena() == Seq::<Seq<u8>>::empty(),
            t.spec_capacity() == 1 + 4 * 128,
    {
        UnsizedHashtable::new()
    }
}

/// Multiplies, saturating at the machine limit.
fn sat_mul(a: usize, b: usize) -> (r: usize)
    ensures
        a * b <= usize::MAX ==> r == a * b,
        a * b > usize::MAX ==> r == usize::MAX,
{
    match a.checked_mul(b) {
        Some(x) => x,
        None => usize::MAX,
    }
}

/// An entry sequence whose packed images all differ from the packing of `k`
/// does not hold `k`.
proof fn lemma_inline_absent<V>(s: Seq<InlineEntry<V>>, width: nat, probe: Seq<u8>, k: Seq<u8>)
    requires
        inline_wf_seq(s, width),
        is_packing_of(probe, k),
        probe.len() == width,
        forall|j: int| 0 <= j < s.len() ==> (#[trigger] s[j]).key.packed@ != probe,
    ensures
        forall|j: int| 0 <= j < inline_model(s).len() ==> (#[trigger] inline_model(s)[j]).0 != k,
{
    assert forall|j: int|
        0 <= j < inline_model(s).len() implies (#[trigger] inline_model(s)[j]).0 != k by {
        if inline_model(s)[j].0 == k {
            let pj = s[j].key.packed@;
            lemma_well_packed_unpack(pj);
            crate::inline::lemma_packing_unique(pj, probe, k);
        }
    }
}

/// Growing the arena by appends preserves the tail list's well-formedness
/// and its model.
proof fn lemma_tails_arena_grow<V>(
    t0: Option<TailArray<V>>,
    t1: Option<TailArray<V>>,
    a0: Seq<Seq<u8>>,
    a1: Seq<Seq<u8>>,
)
    requires
        t1 == t0,
        a0.is_prefix_of(a1),
        match t0 {
            Some(t) => t.wf(a0),
            None => true,
        },
    ensures
        match t1 {
            Some(t) => t.wf(a1) && fallback_model(t.entries@, a1) == fallback_model(t.entries@, a0),
            None => true,
        },
{
    match t0 {
        Some(t) => {
            assert(fallback_model(t.entries@, a1) =~= fallback_model(t.entries@, a0));
        },
        None => {},
    }
}

/// The entry count is the sum of the sub-table entry counts.
pub proof fn lemma_len_of_parts<V>(m: TableModel<V>)
    ensures
        len_of(m) == t0_seq(m).len() + m.t1.len() + m.t2.len() + m.t3.len() + m.t4.len(),
{
}

} // verus!
