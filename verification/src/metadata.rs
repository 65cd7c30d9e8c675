//! Metadata attached to tokens and collections.

use vstd::prelude::*;

verus! {

/// A metadata value: one of six shapes, two of which nest.
#[derive(Debug, PartialEq, Eq)]
pub enum Value {
    /// Binary data.
    Blob(Vec<u8>),
    /// Text.
    Text(String),
    /// A natural number.
    Nat(u64),
    /// A signed integer.
    Int(i64),
    /// A sequence of values.
    Array(Vec<Value>),
    /// Named values, in the order they were given.
    Dict(Vec<(String, Value)>),
}

/// One named metadata value. The metadata of a token or of a collection is
/// an ordered sequence of entries.
#[derive(Debug, PartialEq, Eq)]
pub struct MetadataEntry {
    pub key: String,
    pub value: Value,
}

impl MetadataEntry {
    /// Whether the entry is a text value under the given key.
    pub open spec fn is_text(&self, key: Seq<char>, text: Seq<char>) -> bool {
        &&& self.key@ == key
        &&& self.value matches Value::Text(t) && t@ == text
    }

    /// An entry that holds a text.
    pub fn text(key: String, text: String) -> (entry: MetadataEntry)
        ensures
            entry.is_text(key@, text@),
            entry.key == key,
            entry.value == Value::Text(text),
    {
        MetadataEntry { key, value: Value::Text(text) }
    }
}

} // verus!
