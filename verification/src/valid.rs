//! The documents of the format: those that a text can write.
//!
//! A document can hold more than the text format has: a key that is no
//! name, an array inside an array. Such a document is never read from a
//! text, and what is written for it is not read back as it was.
use vstd::prelude::*;
use crate::cfua::{Entry, Value};
use crate::parser::is_lower;
use crate::token::is_valid_plain;
use crate::write::{is_element, is_flat};

verus! {

/// `k` is a name, of a key or of a section: lower-case letters and
/// hyphens, with letters in the first two places.
pub open spec fn is_name(k: Seq<char>) -> bool {
    &&& k.len() > 0
    &&& is_lower(k[0])
    &&& k.len() > 1 ==> is_lower(k[1])
    &&& forall|i: int| 2 <= i < k.len() ==> is_lower(#[trigger] k[i]) || k[i] == '-'
}

/// `value` is an element of the format: a string, an integer, a boolean,
/// or a float whose token writes a float.
pub open spec fn is_valid_element(value: Value) -> bool {
    value is Text || is_valid_plain(value)
}

/// `value` is a value of the format: a section marker, a string, an
/// integer, a boolean, a float whose token writes a float, or an array of
/// elements of the format.
pub open spec fn is_valid_value(value: Value) -> bool {
    match value {
        Value::Array(items) => forall|j: int|
            0 <= j < items.len() ==> is_valid_element(#[trigger] items[j]),
        Value::Section => true,
        Value::Text(_) => true,
        _ => is_valid_plain(value),
    }
}

/// `entry` is a pair of the format: its key is a name and its value is a
/// value of the format.
pub open spec fn is_valid_entry(entry: Entry) -> bool {
    is_name(entry.0) && is_valid_value(entry.1)
}

/// `entries` is a document of the format: each of its pairs is one.
pub open spec fn is_valid_document(entries: Seq<Entry>) -> bool {
    forall|i: int| 0 <= i < entries.len() ==> is_valid_entry(#[trigger] entries[i])
}

/// A document of the format holds no array and no section inside an
/// array.
pub proof fn lemma_valid_is_flat(entries: Seq<Entry>)
    requires
        is_valid_document(entries),
    ensures
        is_flat(entries),
{
    assert forall|i: int, j: int|
        0 <= i < entries.len() && entries[i].1 is Array && 0 <= j < entries[i].1->Array_0.len()
        implies is_element(#[trigger] entries[i].1->Array_0[j]) by {
        assert(is_valid_entry(entries[i]));
    }
}

} // verus!
