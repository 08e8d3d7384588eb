//! The insertion-ordered map that set replay keeps its bookkeeping in.
//!
//! The map is `indexmap::IndexMap`. Nothing here is proved: each function states what
//! the map's documentation says of the method it calls.

use vstd::prelude::*;
use indexmap::IndexMap;

verus! {

/// Makes `indexmap::IndexMap` known as a type whose inside is not looked into.
#[verifier::external_type_specification]
#[verifier::external_body]
#[verifier::reject_recursive_types(K)]
#[verifier::reject_recursive_types(V)]
#[verifier::reject_recursive_types(S)]
pub struct ExIndexMap<K, V, S>(IndexMap<K, V, S>);

/// One entry of a ledger: a message, and the position of the record that holds it in
/// the set, or `None` for a tombstone.
pub type Slot = (Seq<char>, Option<usize>);

/// The entries of a ledger in the order in which the map keeps them: the order in
/// which their keys were first inserted.
pub uninterp spec fn ledger_entries(m: IndexMap<String, Option<usize>>) -> Seq<Slot>;

/// The keys of `entries`, in order.
pub open spec fn keys_of(entries: Seq<Slot>) -> Seq<Seq<char>> {
    Seq::new(entries.len(), |i: int| entries[i].0)
}

/// The values of `entries`, in order.
pub open spec fn values_of(entries: Seq<Slot>) -> Seq<Option<usize>> {
    Seq::new(entries.len(), |i: int| entries[i].1)
}

/// Calls `IndexMap::new`: the new map has no entries.
#[verifier::external_body]
pub(crate) fn ledger_new() -> (m: IndexMap<String, Option<usize>>)
    ensures
        ledger_entries(m) == Seq::<Slot>::empty(),
{
    IndexMap::new()
}

/// Calls `IndexMap::get`: the value stored under `key`, if the map holds the key.
#[verifier::external_body]
pub(crate) fn ledger_get(m: &IndexMap<String, Option<usize>>, key: &str) -> (r: Option<
    Option<usize>,
>)
    ensures
        match r {
            Some(v) => exists|i: int|
                0 <= i < ledger_entries(*m).len() && #[trigger] ledger_entries(*m)[i] == (
                    key@,
                    v,
                ),
            None => !keys_of(ledger_entries(*m)).contains(key@),
        },
{
    m.get(key).copied()
}

/// Calls `IndexMap::insert`: a key that the map holds keeps its place and takes the
/// new value; a new key goes last. No key occurs twice in a map.
#[verifier::external_body]
pub(crate) fn ledger_insert(
    m: &mut IndexMap<String, Option<usize>>,
    key: String,
    value: Option<usize>,
)
    ensures
        keys_of(ledger_entries(*final(m))).no_duplicates(),
        match keys_of(ledger_entries(*old(m))).index_of_first(key@) {
            Some(i) => ledger_entries(*final(m)) == ledger_entries(*old(m)).update(
                i,
                (key@, value),
            ),
            None => ledger_entries(*final(m)) == ledger_entries(*old(m)).push((key@, value)),
        },
{
    m.insert(key, value);
}

/// Calls `IndexMap::shift_remove`: the entry of `key` leaves and those behind it move
/// up, in their order; a map without the key stays as it is. No key occurs twice in a
/// map.
#[verifier::external_body]
pub(crate) fn ledger_shift_remove(m: &mut IndexMap<String, Option<usize>>, key: &str)
    ensures
        keys_of(ledger_entries(*final(m))).no_duplicates(),
        match keys_of(ledger_entries(*old(m))).index_of_first(key@) {
            Some(i) => ledger_entries(*final(m)) == ledger_entries(*old(m)).remove(i),
            None => ledger_entries(*final(m)) == ledger_entries(*old(m)),
        },
{
    m.shift_remove(key);
}

/// Calls `IndexMap::into_values`: the values of the map, in the order of its entries.
#[verifier::external_body]
pub(crate) fn ledger_into_values(m: IndexMap<String, Option<usize>>) -> (r: Vec<Option<usize>>)
    ensures
        r@ == values_of(ledger_entries(m)),
{
    m.into_values().collect()
}

} // verus!
