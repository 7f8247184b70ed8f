//! Inline keys: short keys packed into a fixed-width little-endian word
//! image, padded with zeros.
//!
//! An inline key of width 8, 16 or 24 bytes stores the key bytes followed by
//! zero padding. No explicit length field is kept: since a stored key never
//! ends in a zero byte (such keys are routed to the fallback table), the key
//! length is recovered by scanning the padded image from the top for the
//! highest non-zero byte. The scan never has to look below the final word,
//! because the width overshoots the key length by less than 8 bytes.

use vstd::prelude::*;

use crate::classify::spec_classify;
use crate::classify::KeyClass;

verus! {

/// A key packed into a fixed-width zero-padded byte image.
pub struct InlineKey {
    /// The key bytes followed by zero padding, 8, 16 or 24 bytes in all.
    pub packed: Vec<u8>,
}

/// The packing width of an inline class.
pub open spec fn inline_width(c: KeyClass) -> nat {
    match c {
        KeyClass::Inline1 => 8,
        KeyClass::Inline2 => 16,
        KeyClass::Inline3 => 24,
        _ => 0,
    }
}

/// `p` is the packed image of the key `k`: the key bytes, then zeros, with
/// less than a word of padding, and a non-zero final key byte. These three
/// facts make the packing lossless.
pub open spec fn is_packing_of(p: Seq<u8>, k: Seq<u8>) -> bool {
    &&& 1 <= k.len() <= p.len()
    &&& p.len() < k.len() + 8
    &&& k.last() != 0
    &&& forall|i: int| 0 <= i < k.len() ==> p[i] == k[i]
    &&& forall|i: int| k.len() <= i < p.len() ==> p[i] == 0
}

/// The index of the highest non-zero byte of `p` at or below `i`, or -1 if
/// all of them are zero.
pub open spec fn last_nonzero(p: Seq<u8>, i: int) -> int
    decreases i + 1,
{
    if i < 0 {
        -1
    } else if p[i] != 0 {
        i
    } else {
        last_nonzero(p, i - 1)
    }
}

/// The key recovered from a packed image: the prefix up to and including the
/// highest non-zero byte.
pub open spec fn spec_unpack(p: Seq<u8>) -> Seq<u8> {
    p.take(last_nonzero(p, p.len() - 1) + 1)
}

/// A stored packed image: one of the three widths, with a non-zero byte
/// somewhere in its final word (the image of a non-empty key).
pub open spec fn well_packed(p: Seq<u8>) -> bool {
    &&& (p.len() == 8 || p.len() == 16 || p.len() == 24)
    &&& exists|i: int| p.len() - 8 <= i < p.len() && p[i] != 0
}

/// The scan result at `j`: it points at a non-zero byte (if any byte at or
/// below `j` is non-zero), and everything strictly above it up to `j` is zero.
proof fn lemma_last_nonzero_props(p: Seq<u8>, j: int)
    requires
        -1 <= j < p.len(),
    ensures
        -1 <= last_nonzero(p, j) <= j,
        last_nonzero(p, j) >= 0 ==> p[last_nonzero(p, j)] != 0,
        forall|i: int| last_nonzero(p, j) < i <= j ==> p[i] == 0,
    decreases j + 1,
{
    if j >= 0 && p[j] == 0 {
        lemma_last_nonzero_props(p, j - 1);
    }
}

/// If some byte at or below `j` is non-zero, the scan finds one at least that
/// high.
proof fn lemma_last_nonzero_at_least(p: Seq<u8>, j: int, w: int)
    requires
        0 <= w <= j < p.len(),
        p[w] != 0,
    ensures
        last_nonzero(p, j) >= w,
    decreases j + 1,
{
    if j > w && p[j] == 0 {
        lemma_last_nonzero_at_least(p, j - 1, w);
    }
}

/// Unpacking inverts packing: the key recovered from a packed image is the
/// key that was packed.
pub proof fn lemma_unpack_packing(p: Seq<u8>, k: Seq<u8>)
    requires
        is_packing_of(p, k),
    ensures
        spec_unpack(p) == k,
{
    lemma_last_nonzero_props(p, p.len() - 1);
    lemma_last_nonzero_at_least(p, p.len() - 1, k.len() - 1);
    let m = last_nonzero(p, p.len() - 1);
    if m >= k.len() {
        assert(p[m] == 0);
        assert(false);
    }
    assert(p.take(m + 1) =~= k);
}

/// Two keys with the same packed image are the same key: packing is
/// injective on its domain.
pub proof fn lemma_packing_injective(p: Seq<u8>, k1: Seq<u8>, k2: Seq<u8>)
    requires
        is_packing_of(p, k1),
        is_packing_of(p, k2),
    ensures
        k1 == k2,
{
    lemma_unpack_packing(p, k1);
    lemma_unpack_packing(p, k2);
}

/// A key has exactly one packed image of a given width.
pub proof fn lemma_packing_unique(p1: Seq<u8>, p2: Seq<u8>, k: Seq<u8>)
    requires
        is_packing_of(p1, k),
        is_packing_of(p2, k),
        p1.len() == p2.len(),
    ensures
        p1 == p2,
{
    assert(p1 =~= p2);
}

/// A well-packed image is the packing of the key it unpacks to, and that key
/// is classified to the inline class of the image's width.
pub proof fn lemma_well_packed_unpack(p: Seq<u8>)
    requires
        well_packed(p),
    ensures
        is_packing_of(p, spec_unpack(p)),
        spec_unpack(p).len() > p.len() - 8,
        inline_width(spec_classify(spec_unpack(p))) == p.len(),
{
    lemma_last_nonzero_props(p, p.len() - 1);
    let w = choose|i: int| p.len() - 8 <= i < p.len() && p[i] != 0;
    lemma_last_nonzero_at_least(p, p.len() - 1, w);
    let m = last_nonzero(p, p.len() - 1);
    let k = p.take(m + 1);
    assert(k.last() == p[m]);
    assert(forall|i: int| 0 <= i < k.len() ==> p[i] == k[i]);
}

/// Packs the key into a zero-padded image of the given width.
pub fn pack_key(key: &[u8], width: usize) -> (p: InlineKey)
    requires
        1 <= key@.len() <= width,
        width < key@.len() + 8,
        key@.last() != 0,
    ensures
        p.packed@.len() == width,
        is_packing_of(p.packed@, key@),
        well_packed(p.packed@) || !(width == 8 || width == 16 || width == 24),
{
    let n = key.len();
    let mut v: Vec<u8> = Vec::new();
    let mut i: usize = 0;
    while i < n
        invariant
            i <= n,
            n == key@.len(),
            v@ =~= key@.take(i as int),
        decreases n - i,
    {
        v.push(key[i]);
        i = i + 1;
    }
    proof {
        assert(v@ =~= key@);
    }
    while v.len() < width
        invariant
            n == key@.len(),
            n <= v@.len() <= width,
            forall|j: int| 0 <= j < n ==> v@[j] == key@[j],
            forall|j: int| n <= j < v@.len() ==> v@[j] == 0,
        decreases width - v@.len(),
    {
        v.push(0);
    }
    proof {
        if width == 8 || width == 16 || width == 24 {
            assert(v@[n - 1] != 0);
            assert(width - 8 <= n - 1 < width);
        }
    }
    InlineKey { packed: v }
}

/// Recovers the key bytes from a stored packed image, by scanning the final
/// word from the top for its highest non-zero byte.
pub fn unpack_key(p: &InlineKey) -> (k: Vec<u8>)
    requires
        well_packed(p.packed@),
    ensures
        k@ == spec_unpack(p.packed@),
        is_packing_of(p.packed@, k@),
{
    let n = p.packed.len();
    let ghost m = last_nonzero(p.packed@, n - 1);
    proof {
        lemma_well_packed_unpack(p.packed@);
        lemma_last_nonzero_props(p.packed@, n - 1);
        let w = choose|j: int| n - 8 <= j < n && p.packed@[j] != 0;
        lemma_last_nonzero_at_least(p.packed@, n - 1, w);
    }
    let mut i: usize = n - 1;
    while p.packed[i] == 0
        invariant
            0 <= m <= i <= n - 1,
            n == p.packed@.len(),
            well_packed(p.packed@),
            m == last_nonzero(p.packed@, n - 1),
            m == last_nonzero(p.packed@, i as int),
        decreases i,
    {
        proof {
            lemma_last_nonzero_props(p.packed@, i as int);
            assert(m < i);
        }
        i = i - 1;
    }
    proof {
        assert(m == i);
    }
    let len = i + 1;
    let mut k: Vec<u8> = Vec::new();
    let mut t: usize = 0;
    while t < len
        invariant
            t <= len,
            len <= n == p.packed@.len(),
            k@ =~= p.packed@.take(t as int),
        decreases len - t,
    {
        k.push(p.packed[t]);
        t = t + 1;
    }
    proof {
        assert(k@ =~= p.packed@.take(len as int));
    }
    k
}

/// Compares two packed images byte for byte.
pub fn inline_eq(a: &InlineKey, b: &InlineKey) -> (r: bool)
    ensures
        r <==> a.packed@ == b.packed@,
{
    if a.packed.len() != b.packed.len() {
        return false;
    }
    let n = a.packed.len();
    let mut i: usize = 0;
    while i < n
        invariant
            i <= n,
            n == a.packed@.len() == b.packed@.len(),
            forall|j: int| 0 <= j < i ==> a.packed@[j] == b.packed@[j],
        decreases n - i,
    {
        if a.packed[i] != b.packed[i] {
            return false;
        }
        i = i + 1;
    }
    proof {
        assert(a.packed@ =~= b.packed@);
    }
    true
}

} // verus!
