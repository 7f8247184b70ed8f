//! Routing of a key to the sub-table that owns it.
//!
//! Every key is owned by exactly one sub-table, selected by its byte length
//! and its last byte: the empty key has a dedicated one-slot table; keys whose
//! last byte is a NUL go to the fallback table whatever their length, because
//! the inline packing recovers the key length from the position of the highest
//! non-zero byte and a trailing NUL would make that recovery ambiguous; other
//! keys of at most 24 bytes are packed inline into 1, 2 or 3 words; longer
//! keys go to the fallback table.

use vstd::prelude::*;

verus! {

/// The sub-table that owns a key.
#[derive(Clone, Copy, Debug, PartialEq, Eq, Structural)]
pub enum KeyClass {
    /// The one-slot table for the empty key.
    Empty,
    /// Inline keys of 1 to 8 bytes.
    Inline1,
    /// Inline keys of 9 to 16 bytes.
    Inline2,
    /// Inline keys of 17 to 24 bytes.
    Inline3,
    /// Keys of 25 bytes or more, and any non-empty key ending in a NUL byte.
    Fallback,
}

/// The class that owns the key `k`.
pub open spec fn spec_classify(k: Seq<u8>) -> KeyClass {
    if k.len() == 0 {
        KeyClass::Empty
    } else if k.last() == 0 {
        KeyClass::Fallback
    } else if k.len() <= 8 {
        KeyClass::Inline1
    } else if k.len() <= 16 {
        KeyClass::Inline2
    } else if k.len() <= 24 {
        KeyClass::Inline3
    } else {
        KeyClass::Fallback
    }
}

/// Decides which sub-table owns the key.
pub fn classify(key: &[u8]) -> (c: KeyClass)
    ensures
        c == spec_classify(key@),
{
    let n = key.len();
    if n == 0 {
        KeyClass::Empty
    } else if key[n - 1] == 0 {
        KeyClass::Fallback
    } else if n <= 8 {
        KeyClass::Inline1
    } else if n <= 16 {
        KeyClass::Inline2
    } else if n <= 24 {
        KeyClass::Inline3
    } else {
        KeyClass::Fallback
    }
}

/// Any non-empty key whose last byte is a NUL is owned by the fallback table,
/// never by an inline table.
pub proof fn lemma_trailing_nul_routes_to_fallback(k: Seq<u8>)
    requires
        k.len() >= 1,
        k.last() == 0,
    ensures
        spec_classify(k) == KeyClass::Fallback,
{
}

} // verus!
