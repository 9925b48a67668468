//! The schema-less value that a query returns.

use vstd::prelude::*;
use core::cmp::Ordering;
use crate::compare::lex_order;

verus! {

/// A fetched value: a scalar, an ordered array, or a map (an object) held as
/// its entries. A well-formed map lists its keys once each, in ascending
/// order (see `well_formed`).
pub enum Value {
    Null,
    Bool(bool),
    Number(i128),
    String(String),
    Array(Vec<Value>),
    Object(Vec<(String, Value)>),
}

/// The keys of `entries` rise strictly in lexicographic order, so that each
/// occurs once and a mapping has a single form.
pub open spec fn keys_ascending(entries: Seq<(String, Value)>) -> bool {
    forall|i: int| 0 <= i < entries.len() - 1 ==> #[trigger] key_rises(entries, i)
}

/// The key after position `i` is above the key at `i`.
pub open spec fn key_rises(entries: Seq<(String, Value)>, i: int) -> bool {
    lex_order(entries[i].0@, entries[i + 1].0@) == Ordering::Less
}

/// Every map inside `v`, `v` included, has strictly ascending keys.
pub open spec fn well_formed(v: Value) -> bool
    decreases v,
{
    match v {
        Value::Array(items) => forall|i: int|
            0 <= i < items@.len() ==> well_formed(#[trigger] items@[i]),
        Value::Object(entries) => keys_ascending(entries@) && forall|i: int|
            0 <= i < entries@.len() ==> well_formed(#[trigger] entries@[i].1),
        _ => true,
    }
}

/// `j` is the first position of an entry whose key is `key`.
pub open spec fn is_first_key(entries: Seq<(String, Value)>, key: Seq<char>, j: int) -> bool {
    &&& 0 <= j < entries.len()
    &&& entries[j].0@ == key
    &&& forall|k: int| 0 <= k < j ==> (#[trigger] entries[k]).0@ != key
}

pub open spec fn has_key(entries: Seq<(String, Value)>, key: Seq<char>) -> bool {
    exists|j: int| 0 <= j < entries.len() && (#[trigger] entries[j]).0@ == key
}

/// The value stored under the first occurrence of `key`.
pub open spec fn key_lookup(entries: Seq<(String, Value)>, key: Seq<char>) -> Value {
    entries[choose|j: int| is_first_key(entries, key, j)].1
}

/// Of two first positions of a key, both are the same.
pub proof fn lemma_first_key_unique(entries: Seq<(String, Value)>, key: Seq<char>, i: int, j: int)
    requires
        is_first_key(entries, key, i),
        is_first_key(entries, key, j),
    ensures
        i == j,
{
    if i < j {
        assert(entries[i].0@ != key);
    } else if j < i {
        assert(entries[j].0@ != key);
    }
}

} // verus!
