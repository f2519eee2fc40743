//! The target store: the shared map from target strings to their state.
//! It is kept in a `dashmap::DashMap`, as the health loop's collaborators
//! expect; the map itself is outside code, so its handful of operations
//! are trusted against dashmap's documentation and source, and everything
//! built on them is verified against the named contents.

use vstd::prelude::*;
use dashmap::DashMap;
use crate::target::{TargetInfo, TargetView};

verus! {

#[verifier::external_type_specification]
#[verifier::external_body]
#[verifier::reject_recursive_types(K)]
#[verifier::reject_recursive_types(V)]
#[verifier::reject_recursive_types(S)]
pub struct ExDashMap<K, V, S>(DashMap<K, V, S>);

/// The store's concrete shape: target string to target state.
pub type TargetMap = DashMap<String, TargetInfo>;

/// What the store holds: its entries, keyed by the target string.
pub uninterp spec fn store_contents(m: DashMap<String, TargetInfo>) -> Map<Seq<char>, TargetView>;

/// Relies on dashmap::DashMap::new: a fresh map has no entries.
#[verifier::external_body]
pub fn store_new() -> (r: TargetMap)
    ensures
        forall|k: Seq<char>| !(#[trigger] store_contents(r).contains_key(k)),
{
    DashMap::new()
}

/// Relies on dashmap::DashMap::insert: afterwards the key maps to the
/// value; other keys are untouched.
#[verifier::external_body]
pub fn store_insert(m: &mut TargetMap, key: &str, value: TargetInfo)
    ensures
        store_contents(*final(m)) == store_contents(*old(m)).insert(key@, value@),
{
    m.insert(key.to_string(), value);
}

/// Relies on dashmap::DashMap::get: returns the value the key maps to, if
/// any. The store is read through a shared borrow, so nothing mutates it
/// during the call.
#[verifier::external_body]
pub fn store_get(m: &TargetMap, key: &str) -> (r: Option<TargetInfo>)
    ensures
        match r {
            Some(t) => store_contents(*m).contains_key(key@) && t@ == store_contents(*m)[key@],
            None => !store_contents(*m).contains_key(key@),
        },
{
    m.get(key).map(|v| v.value().clone_ti())
}

/// Relies on dashmap::DashMap::iter: while no other thread mutates the
/// map — here it is held exclusively — the iterator yields every entry
/// exactly once, in no promised order.
#[verifier::external_body]
pub fn store_entries(m: &TargetMap) -> (r: Vec<(String, TargetInfo)>)
    ensures
        forall|i: int|
            0 <= i < r@.len() ==> store_contents(*m).contains_key((#[trigger] r@[i]).0@)
                && r@[i].1@ == store_contents(*m)[r@[i].0@],
        forall|i: int, j: int| 0 <= i < j < r@.len() ==> (#[trigger] r@[i]).0@ != (
        #[trigger] r@[j]).0@,
        forall|k: Seq<char>|
            store_contents(*m).contains_key(k) ==> exists|i: int|
                0 <= i < r@.len() && (#[trigger] r@[i]).0@ == k,
{
    m.iter().map(|e| (e.key().clone(), e.value().clone_ti())).collect()
}

} // verus!
