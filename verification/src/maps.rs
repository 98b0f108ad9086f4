//! Hash maps keyed by 64-bit identifiers.
//!
//! A map with std's default hasher is specified already, except for `get_mut`.
//! For one with the hasher of `rustc_hash`, the methods in use are specified here.

use rustc_hash::FxHashMap;
use std::collections::HashMap;
use vstd::prelude::*;

verus! {

/// `rustc_hash::FxHasher`, carried as the hasher of an `FxHashMap`.
#[verifier::external_type_specification]
#[verifier::external_body]
pub struct ExFxHasher(rustc_hash::FxHasher);

/// `std::hash::BuildHasherDefault`, carried as the hasher builder of an `FxHashMap`.
#[verifier::external_type_specification]
#[verifier::external_body]
#[verifier::reject_recursive_types(H)]
pub struct ExBuildHasherDefault<H>(std::hash::BuildHasherDefault<H>);

/// `HashMap::get_mut` with the default hasher: a mutable reference to the value
/// under the key, where there is one. What is written through it is the value
/// under that key afterwards; nothing else changes.
#[verifier::external_body]
pub(crate) fn map_get_mut<V>(m: &mut HashMap<u64, V>, k: u64) -> (r: Option<&mut V>)
    ensures
        match r {
            Some(v) => old(m)@.contains_key(k) && *v == old(m)@[k] && final(m)@ == old(m)@.insert(
                k,
                *final(v),
            ),
            None => !old(m)@.contains_key(k) && final(m)@ == old(m)@,
        },
{
    m.get_mut(&k)
}

/// `FxHashMap::default`: a map without entries.
#[verifier::external_body]
pub(crate) fn fx_new<V>() -> (m: FxHashMap<u64, V>)
    ensures
        (m@ == Map::<u64, V>::empty()),
{
    FxHashMap::default()
}

/// `FxHashMap::contains_key`: whether there is an entry under the key.
#[verifier::external_body]
pub(crate) fn fx_contains_key<V>(m: &FxHashMap<u64, V>, k: u64) -> (r: bool)
    ensures
        r == m@.contains_key(k),
{
    m.contains_key(&k)
}

/// `FxHashMap::insert`: the value is the entry under the key afterwards; the
/// other entries stay. The former entry under the key is dropped.
#[verifier::external_body]
pub(crate) fn fx_insert<V>(m: &mut FxHashMap<u64, V>, k: u64, v: V)
    ensures
        final(m)@ == old(m)@.insert(k, v),
{
    m.insert(k, v);
}

/// `FxHashMap::remove`: the entry under the key is gone, and handed out where
/// there was one; the other entries stay.
#[verifier::external_body]
pub(crate) fn fx_remove<V>(m: &mut FxHashMap<u64, V>, k: u64) -> (r: Option<V>)
    ensures
        final(m)@ == old(m)@.remove(k),
        match r {
            Some(v) => old(m)@.contains_key(k) && v == old(m)@[k],
            None => !old(m)@.contains_key(k),
        },
{
    m.remove(&k)
}

/// `FxHashMap::get`: a reference to the entry under the key, where there is one.
#[verifier::external_body]
pub(crate) fn fx_get<V>(m: &FxHashMap<u64, V>, k: u64) -> (r: Option<&V>)
    ensures
        match r {
            Some(v) => m@.contains_key(k) && *v == m@[k],
            None => !m@.contains_key(k),
        },
{
    m.get(&k)
}

/// `FxHashMap::get_mut`: a mutable reference to the entry under the key, where
/// there is one. What is written through it is the entry under that key
/// afterwards; nothing else changes.
#[verifier::external_body]
pub(crate) fn fx_get_mut<V>(m: &mut FxHashMap<u64, V>, k: u64) -> (r: Option<&mut V>)
    ensures
        match r {
            Some(v) => old(m)@.contains_key(k) && *v == old(m)@[k] && final(m)@ == old(m)@.insert(
                k,
                *final(v),
            ),
            None => !old(m)@.contains_key(k) && final(m)@ == old(m)@,
        },
{
    m.get_mut(&k)
}

/// `FxHashMap::keys`, collected: every key once, in an order that is left open.
#[verifier::external_body]
pub(crate) fn fx_keys<V>(m: &FxHashMap<u64, V>) -> (r: Vec<u64>)
    ensures
        r@.no_duplicates(),
        r@.to_set() == m@.dom(),
{
    m.keys().copied().collect()
}

} // verus!
