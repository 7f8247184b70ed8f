//! The logical model of the composite table.
//!
//! A `TableModel` is what the contracts of the composite table speak of: the
//! entries of each sub-table as byte-string/value-slot pairs in entry order,
//! the optional tail list, and the byte counter. A value slot is `None` until
//! the caller writes it. Lookup follows the key's class — the same routing
//! the implementation performs — and under `wf_model` that is the only place
//! the key can be.

use vstd::prelude::*;

use crate::classify::spec_classify;
use crate::classify::KeyClass;

verus! {

/// The logical state of a composite table over values of type `V`.
#[verifier::ext_equal]
pub ghost struct TableModel<V> {
    /// The empty key's slot: `None` if the empty key is absent, otherwise
    /// the (possibly unwritten) value stored for it.
    pub t0: Option<Option<V>>,
    /// Entries of inline keys of 1 to 8 bytes, in insertion order.
    pub t1: Seq<(Seq<u8>, Option<V>)>,
    /// Entries of inline keys of 9 to 16 bytes, in insertion order.
    pub t2: Seq<(Seq<u8>, Option<V>)>,
    /// Entries of inline keys of 17 to 24 bytes, in insertion order.
    pub t3: Seq<(Seq<u8>, Option<V>)>,
    /// Entries of fallback keys, in insertion order.
    pub t4: Seq<(Seq<u8>, Option<V>)>,
    /// The tail list, present exactly while tail mode is enabled.
    pub tails: Option<Seq<(Seq<u8>, Option<V>)>>,
    /// The sum of the lengths of all keys stored in the sub-tables.
    pub key_size: nat,
}

/// Whether some entry of `s` holds the key `k`.
pub open spec fn contains_seq<V>(s: Seq<(Seq<u8>, Option<V>)>, k: Seq<u8>) -> bool {
    exists|i: int| 0 <= i < s.len() && (#[trigger] s[i]).0 == k
}

/// The value slot of the first entry of `s` holding the key `k`, if any.
pub open spec fn lookup_seq<V>(s: Seq<(Seq<u8>, Option<V>)>, k: Seq<u8>) -> Option<Option<V>>
    decreases s.len(),
{
    if s.len() == 0 {
        None
    } else if s[0].0 == k {
        Some(s[0].1)
    } else {
        lookup_seq(s.drop_first(), k)
    }
}

/// The entries of the sub-table that class `c` routes to.
pub open spec fn class_seq<V>(m: TableModel<V>, c: KeyClass) -> Seq<(Seq<u8>, Option<V>)> {
    match c {
        KeyClass::Empty => t0_seq(m),
        KeyClass::Inline1 => m.t1,
        KeyClass::Inline2 => m.t2,
        KeyClass::Inline3 => m.t3,
        KeyClass::Fallback => m.t4,
    }
}

/// The empty-key slot as a zero- or one-entry sequence.
pub open spec fn t0_seq<V>(m: TableModel<V>) -> Seq<(Seq<u8>, Option<V>)> {
    match m.t0 {
        Some(v) => seq![(Seq::<u8>::empty(), v)],
        None => Seq::empty(),
    }
}

/// All sub-table entries in iteration order: the empty key first, then the
/// three inline tables, then the fallback table. The tail list is not
/// included.
pub open spec fn main_entries<V>(m: TableModel<V>) -> Seq<(Seq<u8>, Option<V>)> {
    t0_seq(m) + m.t1 + m.t2 + m.t3 + m.t4
}

/// All entries iteration yields: the sub-tables, then the tail list.
pub open spec fn all_entries<V>(m: TableModel<V>) -> Seq<(Seq<u8>, Option<V>)> {
    main_entries(m) + tail_seq(m)
}

/// The tail list's entries, or empty when tail mode is off.
pub open spec fn tail_seq<V>(m: TableModel<V>) -> Seq<(Seq<u8>, Option<V>)> {
    match m.tails {
        Some(t) => t,
        None => Seq::empty(),
    }
}

/// Whether the key `k` is stored in a sub-table. The tail list is never
/// consulted: lookups do not see tail records.
pub open spec fn contains<V>(m: TableModel<V>, k: Seq<u8>) -> bool {
    contains_seq(class_seq(m, spec_classify(k)), k)
}

/// The value slot stored for the key `k`, if `k` is stored: `Some(None)`
/// means present but not yet written.
pub open spec fn value_of<V>(m: TableModel<V>, k: Seq<u8>) -> Option<Option<V>> {
    lookup_seq(class_seq(m, spec_classify(k)), k)
}

/// The number of entries stored in the sub-tables (tail records not
/// counted).
pub open spec fn len_of<V>(m: TableModel<V>) -> nat {
    main_entries(m).len()
}

/// The sum of the key lengths of the entries of `s`.
pub open spec fn sum_key_lens<V>(s: Seq<(Seq<u8>, Option<V>)>) -> nat
    decreases s.len(),
{
    if s.len() == 0 {
        0
    } else {
        sum_key_lens(s.drop_last()) + s.last().0.len()
    }
}

/// No two entries of `s` hold the same key.
pub open spec fn distinct_keys<V>(s: Seq<(Seq<u8>, Option<V>)>) -> bool {
    forall|i: int, j: int| 0 <= i < j < s.len() ==> (#[trigger] s[i]).0 != (#[trigger] s[j]).0
}

/// The model invariant: every sub-table holds only keys of its own class,
/// holds each key at most once, tail records hold non-empty keys, and the
/// byte counter is the sum of the stored key lengths.
pub open spec fn wf_model<V>(m: TableModel<V>) -> bool {
    &&& forall|i: int|
        0 <= i < m.t1.len() ==> spec_classify((#[trigger] m.t1[i]).0) == KeyClass::Inline1
    &&& forall|i: int|
        0 <= i < m.t2.len() ==> spec_classify((#[trigger] m.t2[i]).0) == KeyClass::Inline2
    &&& forall|i: int|
        0 <= i < m.t3.len() ==> spec_classify((#[trigger] m.t3[i]).0) == KeyClass::Inline3
    &&& forall|i: int|
        0 <= i < m.t4.len() ==> spec_classify((#[trigger] m.t4[i]).0) == KeyClass::Fallback
    &&& distinct_keys(m.t1)
    &&& distinct_keys(m.t2)
    &&& distinct_keys(m.t3)
    &&& distinct_keys(m.t4)
    &&& forall|i: int| 0 <= i < tail_seq(m).len() ==> (#[trigger] tail_seq(m)[i]).0.len() > 0
    &&& m.key_size == sum_key_lens(main_entries(m))
}

/// The model of a freshly created table: nothing stored, tail mode off.
pub open spec fn empty_model<V>() -> TableModel<V> {
    TableModel {
        t0: None,
        t1: Seq::empty(),
        t2: Seq::empty(),
        t3: Seq::empty(),
        t4: Seq::empty(),
        tails: None,
        key_size: 0,
    }
}

/// Whether inserting `k` creates a new entry: always in tail mode for a
/// non-empty key (tail records are never deduplicated), otherwise exactly
/// when `k` is absent.
pub open spec fn model_insert_is_new<V>(m: TableModel<V>, k: Seq<u8>) -> bool {
    if m.tails is Some && k.len() > 0 {
        true
    } else {
        !contains(m, k)
    }
}

/// Inserting `k` into the sub-tables, bypassing the tail list: appends a
/// fresh unwritten entry to the sub-table owning `k` and counts its bytes,
/// or changes nothing if `k` is already stored.
pub open spec fn model_insert_main<V>(m: TableModel<V>, k: Seq<u8>) -> TableModel<V> {
    if contains(m, k) {
        m
    } else {
        match spec_classify(k) {
            KeyClass::Empty => TableModel { t0: Some(None), ..m },
            KeyClass::Inline1 => TableModel {
                t1: m.t1.push((k, None)),
                key_size: m.key_size + k.len(),
                ..m
            },
            KeyClass::Inline2 => TableModel {
                t2: m.t2.push((k, None)),
                key_size: m.key_size + k.len(),
                ..m
            },
            KeyClass::Inline3 => TableModel {
                t3: m.t3.push((k, None)),
                key_size: m.key_size + k.len(),
                ..m
            },
            KeyClass::Fallback => TableModel {
                t4: m.t4.push((k, None)),
                key_size: m.key_size + k.len(),
                ..m
            },
        }
    }
}

/// Inserting `k`: in tail mode a non-empty key is appended to the tail list
/// as a fresh record; otherwise the sub-tables are updated.
pub open spec fn model_insert<V>(m: TableModel<V>, k: Seq<u8>) -> TableModel<V> {
    if m.tails is Some && k.len() > 0 {
        TableModel { tails: Some(tail_seq(m).push((k, None))), ..m }
    } else {
        model_insert_main(m, k)
    }
}

/// The entries of `s` with the value of key `k` set to `v`.
pub open spec fn update_seq<V>(s: Seq<(Seq<u8>, Option<V>)>, k: Seq<u8>, v: V) -> Seq<
    (Seq<u8>, Option<V>),
> {
    Seq::new(s.len(), |i: int| if s[i].0 == k { (s[i].0, Some(v)) } else { s[i] })
}

/// The model with the value of the stored key `k` set to `v`.
pub open spec fn model_with_value<V>(m: TableModel<V>, k: Seq<u8>, v: V) -> TableModel<V> {
    match spec_classify(k) {
        KeyClass::Empty => TableModel { t0: Some(Some(v)), ..m },
        KeyClass::Inline1 => TableModel { t1: update_seq(m.t1, k, v), ..m },
        KeyClass::Inline2 => TableModel { t2: update_seq(m.t2, k, v), ..m },
        KeyClass::Inline3 => TableModel { t3: update_seq(m.t3, k, v), ..m },
        KeyClass::Fallback => TableModel { t4: update_seq(m.t4, k, v), ..m },
    }
}

/// A lookup succeeds exactly when some entry holds the key.
pub proof fn lemma_lookup_contains<V>(s: Seq<(Seq<u8>, Option<V>)>, k: Seq<u8>)
    ensures
        (lookup_seq(s, k) is Some) <==> contains_seq(s, k),
    decreases s.len(),
{
    if s.len() == 0 {
    } else if s[0].0 == k {
        assert(contains_seq(s, k));
    } else {
        lemma_lookup_contains(s.drop_first(), k);
        if contains_seq(s, k) {
            let i = choose|i: int| 0 <= i < s.len() && (#[trigger] s[i]).0 == k;
            assert(s.drop_first()[i - 1] == s[i]);
            assert(contains_seq(s.drop_first(), k));
        }
        if contains_seq(s.drop_first(), k) {
            let i = choose|i: int|
                0 <= i < s.drop_first().len() && (#[trigger] s.drop_first()[i]).0 == k;
            assert(s[i + 1] == s.drop_first()[i]);
            assert(contains_seq(s, k));
        }
    }
}

/// With distinct keys, a lookup returns the value slot of the one entry
/// holding the key.
pub proof fn lemma_lookup_at<V>(s: Seq<(Seq<u8>, Option<V>)>, k: Seq<u8>, i: int)
    requires
        distinct_keys(s),
        0 <= i < s.len(),
        s[i].0 == k,
    ensures
        lookup_seq(s, k) == Some(s[i].1),
    decreases s.len(),
{
    if i == 0 {
    } else {
        assert(s[0].0 != k);
        assert(forall|x: int, y: int|
            0 <= x < y < s.drop_first().len() ==> (#[trigger] s.drop_first()[x]).0 != (
            #[trigger] s.drop_first()[y]).0) by {
            assert(forall|x: int|
                0 <= x < s.drop_first().len() ==> #[trigger] s.drop_first()[x] == s[x + 1]);
        }
        assert(s.drop_first()[i - 1] == s[i]);
        lemma_lookup_at(s.drop_first(), k, i - 1);
    }
}

/// The sum over the five sub-tables, taken apart.
pub proof fn lemma_sum_main<V>(m: TableModel<V>)
    ensures
        sum_key_lens(main_entries(m)) == sum_key_lens(t0_seq(m)) + sum_key_lens(m.t1)
            + sum_key_lens(m.t2) + sum_key_lens(m.t3) + sum_key_lens(m.t4),
{
    lemma_sum_concat(t0_seq(m), m.t1);
    lemma_sum_concat(t0_seq(m) + m.t1, m.t2);
    lemma_sum_concat(t0_seq(m) + m.t1 + m.t2, m.t3);
    lemma_sum_concat(t0_seq(m) + m.t1 + m.t2 + m.t3, m.t4);
}

/// The sum over the empty-key slot: zero either way.
pub proof fn lemma_sum_t0<V>(m: TableModel<V>)
    ensures
        sum_key_lens(t0_seq(m)) == 0,
{
    match m.t0 {
        Some(v) => {
            let s = t0_seq(m);
            assert(s.drop_last() =~= Seq::<(Seq<u8>, Option<V>)>::empty());
            assert(sum_key_lens(Seq::<(Seq<u8>, Option<V>)>::empty()) == 0);
            assert(s.last().0.len() == 0);
            assert(sum_key_lens(s) == sum_key_lens(s.drop_last()) + s.last().0.len());
        },
        None => {},
    }
}

/// Inserting into the sub-tables preserves the model invariant, grows the
/// entry count by one exactly for a new key, and counts the new key's
/// bytes.
pub proof fn lemma_insert_main_wf<V>(m: TableModel<V>, k: Seq<u8>)
    requires
        wf_model(m),
    ensures
        wf_model(model_insert_main(m, k)),
        len_of(model_insert_main(m, k)) == len_of(m) + (if contains(m, k) {
            0int
        } else {
            1int
        }),
        model_insert_main(m, k).key_size == m.key_size + (if contains(m, k) {
            0int
        } else {
            k.len() as int
        }),
        model_insert_main(m, k).tails == m.tails,
{
    let m2 = model_insert_main(m, k);
    assert(tail_seq(m2) == tail_seq(m));
    lemma_sum_main(m);
    lemma_sum_main(m2);
    lemma_sum_t0(m);
    lemma_sum_t0(m2);
    if !contains(m, k) {
        match spec_classify(k) {
            KeyClass::Empty => {
                assert(k =~= Seq::<u8>::empty());
                if m.t0 is Some {
                    assert(t0_seq(m)[0].0 == k);
                    assert(contains_seq(t0_seq(m), k));
                    assert(false);
                }
                assert(t0_seq(m) =~= Seq::<(Seq<u8>, Option<V>)>::empty());
                assert(main_entries(m2) =~= t0_seq(m2) + m.t1 + m.t2 + m.t3 + m.t4);
            },
            KeyClass::Inline1 => {
                lemma_sum_push(m.t1, (k, None));
                assert(forall|i: int| 0 <= i < m.t1.len() ==> (#[trigger] m.t1[i]).0 != k);
            },
            KeyClass::Inline2 => {
                lemma_sum_push(m.t2, (k, None));
                assert(forall|i: int| 0 <= i < m.t2.len() ==> (#[trigger] m.t2[i]).0 != k);
            },
            KeyClass::Inline3 => {
                lemma_sum_push(m.t3, (k, None));
                assert(forall|i: int| 0 <= i < m.t3.len() ==> (#[trigger] m.t3[i]).0 != k);
            },
            KeyClass::Fallback => {
                lemma_sum_push(m.t4, (k, None));
                assert(forall|i: int| 0 <= i < m.t4.len() ==> (#[trigger] m.t4[i]).0 != k);
            },
        }
    }
}

/// Appending a tail record preserves the model invariant and leaves the
/// sub-tables, the entry count and the byte counter unchanged.
pub proof fn lemma_insert_tail_wf<V>(m: TableModel<V>, k: Seq<u8>)
    requires
        wf_model(m),
        m.tails is Some,
        k.len() > 0,
    ensures
        wf_model(model_insert(m, k)),
        len_of(model_insert(m, k)) == len_of(m),
        model_insert(m, k).key_size == m.key_size,
        main_entries(model_insert(m, k)) == main_entries(m),
{
}

/// Appending an entry adds its key length to the sum.
pub proof fn lemma_sum_push<V>(s: Seq<(Seq<u8>, Option<V>)>, e: (Seq<u8>, Option<V>))
    ensures
        sum_key_lens(s.push(e)) == sum_key_lens(s) + e.0.len(),
{
    assert(s.push(e).drop_last() =~= s);
    assert(s.push(e).last() == e);
}

/// The sum over a concatenation is the sum of the sums.
pub proof fn lemma_sum_concat<V>(a: Seq<(Seq<u8>, Option<V>)>, b: Seq<(Seq<u8>, Option<V>)>)
    ensures
        sum_key_lens(a + b) == sum_key_lens(a) + sum_key_lens(b),
    decreases b.len(),
{
    if b.len() == 0 {
        assert(a + b =~= a);
    } else {
        assert((a + b).drop_last() =~= a + b.drop_last());
        assert((a + b).last() == b.last());
        lemma_sum_concat(a, b.drop_last());
    }
}

/// Updating values does not change the keys, so the sum is unchanged.
pub proof fn lemma_sum_update_seq<V>(s: Seq<(Seq<u8>, Option<V>)>, k: Seq<u8>, v: V)
    ensures
        sum_key_lens(update_seq(s, k, v)) == sum_key_lens(s),
    decreases s.len(),
{
    if s.len() > 0 {
        assert(update_seq(s, k, v).drop_last() =~= update_seq(s.drop_last(), k, v));
        lemma_sum_update_seq(s.drop_last(), k, v);
    }
}

/// Updating the value of key `k` rewrites the value slot of the first entry
/// holding `k` and nothing else.
pub proof fn lemma_lookup_update_seq<V>(s: Seq<(Seq<u8>, Option<V>)>, k: Seq<u8>, v: V, q: Seq<u8>)
    ensures
        lookup_seq(update_seq(s, k, v), q) == (if q == k {
            match lookup_seq(s, k) {
                Some(_) => Some(Some(v)),
                None => None::<Option<V>>,
            }
        } else {
            lookup_seq(s, q)
        }),
    decreases s.len(),
{
    if s.len() > 0 {
        assert(update_seq(s, k, v).drop_first() =~= update_seq(s.drop_first(), k, v));
        lemma_lookup_update_seq(s.drop_first(), k, v, q);
    }
}

/// Writing the value of a stored key preserves the model invariant, leaves
/// every count unchanged, and changes no other key's slot.
pub proof fn lemma_with_value_wf<V>(m: TableModel<V>, k: Seq<u8>, v: V)
    requires
        wf_model(m),
        contains(m, k),
    ensures
        wf_model(model_with_value(m, k, v)),
        len_of(model_with_value(m, k, v)) == len_of(m),
        model_with_value(m, k, v).key_size == m.key_size,
        model_with_value(m, k, v).tails == m.tails,
        forall|q: Seq<u8>|
            #[trigger] value_of(model_with_value(m, k, v), q) == (if q == k {
                Some(Some(v))
            } else {
                value_of(m, q)
            }),
        forall|q: Seq<u8>| #[trigger] contains(model_with_value(m, k, v), q) == contains(m, q),
{
    let m2 = model_with_value(m, k, v);
    assert(tail_seq(m2) == tail_seq(m));
    lemma_sum_main(m);
    lemma_sum_main(m2);
    lemma_sum_t0(m);
    lemma_sum_t0(m2);
    match spec_classify(k) {
        KeyClass::Empty => {
            assert(k =~= Seq::<u8>::empty());
            assert(m.t0 is Some);
        },
        KeyClass::Inline1 => {
            lemma_sum_update_seq(m.t1, k, v);
            lemma_update_seq_keys(m.t1, k, v);
        },
        KeyClass::Inline2 => {
            lemma_sum_update_seq(m.t2, k, v);
            lemma_update_seq_keys(m.t2, k, v);
        },
        KeyClass::Inline3 => {
            lemma_sum_update_seq(m.t3, k, v);
            lemma_update_seq_keys(m.t3, k, v);
        },
        KeyClass::Fallback => {
            lemma_sum_update_seq(m.t4, k, v);
            lemma_update_seq_keys(m.t4, k, v);
        },
    }
    assert forall|q: Seq<u8>|
        #[trigger] value_of(m2, q) == (if q == k {
            Some(Some(v))
        } else {
            value_of(m, q)
        }) by {
        if spec_classify(q) == spec_classify(k) {
            match spec_classify(k) {
                KeyClass::Empty => {
                    assert(q =~= Seq::<u8>::empty());
                    assert(q == k);
                },
                _ => {
                    lemma_lookup_update_seq(class_seq(m, spec_classify(k)), k, v, q);
                    if q == k {
                        lemma_lookup_contains(class_seq(m, spec_classify(k)), k);
                    }
                },
            }
        }
    }
    assert forall|q: Seq<u8>| #[trigger] contains(m2, q) == contains(m, q) by {
        let c = spec_classify(q);
        let s0 = class_seq(m, c);
        let s1 = class_seq(m2, c);
        assert(s1.len() == s0.len() && forall|i: int|
            0 <= i < s0.len() ==> (#[trigger] s1[i]).0 == s0[i].0) by {
            if c == spec_classify(k) {
                match c {
                    KeyClass::Empty => {},
                    _ => {
                        lemma_update_seq_keys(class_seq(m, c), k, v);
                    },
                }
            }
        }
        if contains_seq(s0, q) {
            let i = choose|i: int| 0 <= i < s0.len() && (#[trigger] s0[i]).0 == q;
            assert(s1[i].0 == q);
        }
        if contains_seq(s1, q) {
            let i = choose|i: int| 0 <= i < s1.len() && (#[trigger] s1[i]).0 == q;
            assert(s0[i].0 == q);
        }
    }
}

/// Updating values leaves every key in place, and so every class and the
/// distinctness of keys.
pub proof fn lemma_update_seq_keys<V>(s: Seq<(Seq<u8>, Option<V>)>, k: Seq<u8>, v: V)
    ensures
        update_seq(s, k, v).len() == s.len(),
        forall|i: int| 0 <= i < s.len() ==> (#[trigger] update_seq(s, k, v)[i]).0 == s[i].0,
{
}

/// Appending an entry changes no earlier lookup; a missing key is found in
/// the new entry exactly when it is that entry's key.
pub proof fn lemma_lookup_push<V>(
    s: Seq<(Seq<u8>, Option<V>)>,
    e: (Seq<u8>, Option<V>),
    q: Seq<u8>,
)
    ensures
        lookup_seq(s.push(e), q) == (if lookup_seq(s, q) is Some {
            lookup_seq(s, q)
        } else if e.0 == q {
            Some(e.1)
        } else {
            None::<Option<V>>
        }),
    decreases s.len(),
{
    if s.len() == 0 {
        assert(s.push(e)[0] == e);
        if e.0 != q {
            assert(s.push(e).drop_first() =~= Seq::<(Seq<u8>, Option<V>)>::empty());
            assert(lookup_seq(Seq::<(Seq<u8>, Option<V>)>::empty(), q) is None);
        }
    } else {
        assert(s.push(e)[0] == s[0]);
        assert(s.push(e).drop_first() =~= s.drop_first().push(e));
        lemma_lookup_push(s.drop_first(), e, q);
    }
}

/// An insert leaves every other key's presence and slot untouched.
pub proof fn lemma_insert_main_frame<V>(m: TableModel<V>, k: Seq<u8>, q: Seq<u8>)
    requires
        wf_model(m),
        q != k,
    ensures
        contains(model_insert_main(m, k), q) == contains(m, q),
        value_of(model_insert_main(m, k), q) == value_of(m, q),
{
    let m2 = model_insert_main(m, k);
    if !contains(m, k) {
        let ck = spec_classify(k);
        let cq = spec_classify(q);
        if cq == ck {
            match ck {
                KeyClass::Empty => {
                    assert(k =~= Seq::<u8>::empty());
                    assert(q =~= Seq::<u8>::empty());
                    assert(false);
                },
                _ => {
                    lemma_lookup_push(class_seq(m, ck), (k, None), q);
                    lemma_lookup_contains(class_seq(m, ck), q);
                    lemma_lookup_contains(class_seq(m2, cq), q);
                },
            }
        } else {
            assert(class_seq(m2, cq) == class_seq(m, cq));
        }
    }
}

/// A fresh insert stores the key with an unwritten slot.
pub proof fn lemma_insert_main_new<V>(m: TableModel<V>, k: Seq<u8>)
    requires
        wf_model(m),
        !contains(m, k),
    ensures
        contains(model_insert_main(m, k), k),
        value_of(model_insert_main(m, k), k) == Some(None::<V>),
{
    let m2 = model_insert_main(m, k);
    let ck = spec_classify(k);
    match ck {
        KeyClass::Empty => {
            assert(k =~= Seq::<u8>::empty());
            assert(t0_seq(m2)[0].0 == k);
        },
        _ => {
            lemma_lookup_push(class_seq(m, ck), (k, None), k);
            lemma_lookup_contains(class_seq(m, ck), k);
            lemma_lookup_contains(class_seq(m2, ck), k);
            assert(class_seq(m2, ck) == class_seq(m, ck).push((k, None)));
        },
    }
}

/// The number of entries before the segment of class `c` in iteration
/// order.
pub open spec fn seg_offset<V>(m: TableModel<V>, c: KeyClass) -> int {
    match c {
        KeyClass::Empty => 0,
        KeyClass::Inline1 => t0_seq(m).len() as int,
        KeyClass::Inline2 => t0_seq(m).len() + m.t1.len() as int,
        KeyClass::Inline3 => t0_seq(m).len() + m.t1.len() + m.t2.len() as int,
        KeyClass::Fallback => t0_seq(m).len() + m.t1.len() + m.t2.len() + m.t3.len() as int,
    }
}

/// The class whose segment holds position `i` of the iteration order.
pub open spec fn seg_class<V>(m: TableModel<V>, i: int) -> KeyClass {
    if i < seg_offset(m, KeyClass::Inline1) {
        KeyClass::Empty
    } else if i < seg_offset(m, KeyClass::Inline2) {
        KeyClass::Inline1
    } else if i < seg_offset(m, KeyClass::Inline3) {
        KeyClass::Inline2
    } else if i < seg_offset(m, KeyClass::Fallback) {
        KeyClass::Inline3
    } else {
        KeyClass::Fallback
    }
}

/// Each position of the iteration order reads its segment's sub-table, and
/// under the model invariant the key found there belongs to that segment's
/// class.
pub proof fn lemma_main_index<V>(m: TableModel<V>, i: int)
    requires
        0 <= i < main_entries(m).len(),
    ensures
        0 <= i - seg_offset(m, seg_class(m, i)) < class_seq(m, seg_class(m, i)).len(),
        main_entries(m)[i] == class_seq(m, seg_class(m, i))[i - seg_offset(m, seg_class(m, i))],
        wf_model(m) ==> spec_classify(main_entries(m)[i].0) == seg_class(m, i),
{
    if wf_model(m) && seg_class(m, i) == KeyClass::Empty {
        assert(t0_seq(m)[0].0 =~= Seq::<u8>::empty());
    }
}

/// The converse: each sub-table position appears in the iteration order at
/// its segment's offset.
pub proof fn lemma_class_to_main<V>(m: TableModel<V>, c: KeyClass, w: int)
    requires
        0 <= w < class_seq(m, c).len(),
    ensures
        0 <= w + seg_offset(m, c) < main_entries(m).len(),
        main_entries(m)[w + seg_offset(m, c)] == class_seq(m, c)[w],
{
}

/// Partition exactness: no key is stored twice anywhere across the
/// sub-tables, each sub-table holds only keys of its own class, and the
/// entry count is the sum of the sub-table counts.
pub proof fn lemma_partition_exactness<V>(m: TableModel<V>)
    requires
        wf_model(m),
    ensures
        distinct_keys(main_entries(m)),
        len_of(m) == t0_seq(m).len() + m.t1.len() + m.t2.len() + m.t3.len() + m.t4.len(),
        forall|i: int|
            0 <= i < main_entries(m).len() ==> spec_classify((#[trigger] main_entries(m)[i]).0)
                == seg_class(m, i),
{
    assert forall|i: int| 0 <= i < main_entries(m).len() implies spec_classify(
        (#[trigger] main_entries(m)[i]).0,
    ) == seg_class(m, i) by {
        lemma_main_index(m, i);
    }
    assert forall|i: int, j: int|
        0 <= i < j < main_entries(m).len() implies (#[trigger] main_entries(m)[i]).0 != (
    #[trigger] main_entries(m)[j]).0 by {
        lemma_main_index(m, i);
        lemma_main_index(m, j);
        if seg_class(m, i) == seg_class(m, j) {
            match seg_class(m, i) {
                KeyClass::Empty => {
                    assert(t0_seq(m).len() <= 1);
                },
                _ => {},
            }
        }
    }
}

/// Membership in the iteration order is exactly presence in the table.
pub proof fn lemma_main_membership<V>(m: TableModel<V>, q: Seq<u8>)
    requires
        wf_model(m),
    ensures
        contains(m, q) <==> contains_seq(main_entries(m), q),
{
    if contains(m, q) {
        let c = spec_classify(q);
        let w = choose|w: int| 0 <= w < class_seq(m, c).len() && (#[trigger] class_seq(m, c)[w]).0
            == q;
        lemma_class_to_main(m, c, w);
        assert(main_entries(m)[w + seg_offset(m, c)].0 == q);
        assert(contains_seq(main_entries(m), q));
    }
    if contains_seq(main_entries(m), q) {
        let i = choose|i: int| 0 <= i < main_entries(m).len() && (#[trigger] main_entries(m)[i]).0
            == q;
        lemma_main_index(m, i);
        assert(class_seq(m, seg_class(m, i))[i - seg_offset(m, seg_class(m, i))].0 == q);
        assert(contains(m, q));
    }
}

/// Iteration completeness when tail mode is off: iteration yields exactly
/// one entry per stored key.
pub proof fn lemma_iteration_complete<V>(m: TableModel<V>)
    requires
        wf_model(m),
        m.tails is None,
    ensures
        all_entries(m) == main_entries(m),
        distinct_keys(all_entries(m)),
        forall|q: Seq<u8>| #[trigger] contains(m, q) <==> contains_seq(all_entries(m), q),
{
    assert(all_entries(m) =~= main_entries(m));
    lemma_partition_exactness(m);
    assert forall|q: Seq<u8>| #[trigger] contains(m, q) <==> contains_seq(all_entries(m), q) by {
        lemma_main_membership(m, q);
    }
}

/// Duplicate semantics when tail mode is off: the first insert of a key
/// creates its entry, and every later insert of the same key changes
/// nothing and leads back to the same slot.
pub proof fn lemma_duplicate_semantics<V>(m: TableModel<V>, k: Seq<u8>)
    requires
        wf_model(m),
        m.tails is None,
    ensures
        model_insert_is_new(m, k) == !contains(m, k),
        !contains(m, k) ==> contains(model_insert(m, k), k) && value_of(model_insert(m, k), k)
            == Some(None::<V>),
        contains(m, k) ==> model_insert(m, k) == m,
{
    if !contains(m, k) {
        lemma_insert_main_new(m, k);
    }
}

/// Stability: an insert moves no stored entry — each sub-table keeps its
/// entries at their indices, in particular every fallback key stays where
/// its arena bytes are.
pub proof fn lemma_insert_stability<V>(m: TableModel<V>, k: Seq<u8>)
    requires
        wf_model(m),
    ensures
        forall|i: int| 0 <= i < m.t1.len() ==> #[trigger] model_insert(m, k).t1[i] == m.t1[i],
        forall|i: int| 0 <= i < m.t2.len() ==> #[trigger] model_insert(m, k).t2[i] == m.t2[i],
        forall|i: int| 0 <= i < m.t3.len() ==> #[trigger] model_insert(m, k).t3[i] == m.t3[i],
        forall|i: int| 0 <= i < m.t4.len() ==> #[trigger] model_insert(m, k).t4[i] == m.t4[i],
{
}

/// The byte-counter law: the counter is exactly the sum of the lengths of
/// the stored keys, each stored key counted once.
pub proof fn lemma_key_size_law<V>(m: TableModel<V>)
    requires
        wf_model(m),
    ensures
        m.key_size == sum_key_lens(main_entries(m)),
        distinct_keys(main_entries(m)),
{
    lemma_partition_exactness(m);
}

/// Trailing-NUL routing: a non-empty key ending in a NUL byte is stored in
/// the fallback table and in no inline table.
pub proof fn lemma_trailing_nul_insert<V>(m: TableModel<V>, k: Seq<u8>)
    requires
        wf_model(m),
        m.tails is None,
        k.len() >= 1,
        k.last() == 0,
        !contains(m, k),
    ensures
        model_insert(m, k).t4 == m.t4.push((k, None)),
        model_insert(m, k).t1 == m.t1,
        model_insert(m, k).t2 == m.t2,
        model_insert(m, k).t3 == m.t3,
        model_insert(m, k).t0 == m.t0,
{
    crate::classify::lemma_trailing_nul_routes_to_fallback(k);
}

/// A prefix sum never exceeds the whole sum.
pub proof fn lemma_sum_take_le<V>(s: Seq<(Seq<u8>, Option<V>)>, i: int)
    requires
        0 <= i <= s.len(),
    ensures
        sum_key_lens(s.take(i)) <= sum_key_lens(s),
{
    assert(s =~= s.take(i) + s.skip(i));
    lemma_sum_concat(s.take(i), s.skip(i));
}

/// Extending a prefix by one entry adds that entry's key length.
pub proof fn lemma_sum_take_succ<V>(s: Seq<(Seq<u8>, Option<V>)>, i: int)
    requires
        0 <= i < s.len(),
    ensures
        sum_key_lens(s.take(i + 1)) == sum_key_lens(s.take(i)) + s[i].0.len(),
{
    assert(s.take(i + 1).drop_last() =~= s.take(i));
    assert(s.take(i + 1).last() == s[i]);
}

/// The model with the value of tail record `i` set to `v`.
pub open spec fn model_with_tail_value<V>(m: TableModel<V>, i: int, v: V) -> TableModel<V> {
    TableModel {
        tails: Some(tail_seq(m).update(i, (tail_seq(m)[i].0, Some(v)))),
        ..m
    }
}

} // verus!
