//! A hash table for variable-length byte-string keys, specialized by key
//! length: keys are dispatched over five sub-tables (an empty-key slot,
//! three inline tables packing short keys into fixed-width zero-padded
//! words, and a fallback table whose key bytes live in an arena), with a
//! unified entry and iterator abstraction on top. Around it stand the
//! serializers that render struct and array columns, and the decision core
//! of an asynchronous pipeline transformer.

use vstd::prelude::*;

mod arena;
pub mod array_serializer;
pub mod async_transform;
pub mod classify;
pub mod fast_hash;
pub mod inline;
pub mod model;
pub mod struct_serializer;
mod table_empty;
mod table_fallback;
mod table_inline;
mod tail_array;
pub mod unsized_hashtable;

pub use unsized_hashtable::EntryPlace;
pub use unsized_hashtable::UnsizedHashtable;
pub use unsized_hashtable::UnsizedHashtableEntryMutRef;
pub use unsized_hashtable::UnsizedHashtableEntryRef;
pub use unsized_hashtable::UnsizedHashtableIter;
pub use unsized_hashtable::UnsizedHashtableIterMut;

verus! {

} // verus!
