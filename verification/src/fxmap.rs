//! The order-id index of the book: an `FxHashMap` from `rustc_hash`, used
//! through a few trusted wrappers whose contracts speak of the map's view.
use std::collections::HashMap;
use vstd::prelude::*;
use rustc_hash::FxBuildHasher;
use crate::types::Side;

verus! {

#[verifier::external_type_specification]
#[verifier::external_body]
pub struct ExFxBuildHasher(FxBuildHasher);

/// Where a resting order is: its side, its price and its arena slot.
pub type Location = (Side, u64, u32);

/// The index type: `rustc_hash::FxHashMap<u64, Location>`.
pub type LocationMap = HashMap<u64, Location, FxBuildHasher>;

/// `HashMap::with_capacity_and_hasher` with an `FxBuildHasher`.
/// Trusted to return an empty map (the capacity is only a sizing hint).
#[verifier::external_body]
pub fn fx_with_capacity(cap: usize) -> (r: LocationMap)
    ensures
        r@.dom().is_empty(),
{
    HashMap::with_capacity_and_hasher(cap, FxBuildHasher::default())
}

/// `HashMap::get` on the index, its result copied out.
/// Trusted to return the value stored under `k`, if any.
#[verifier::external_body]
pub fn fx_get(m: &LocationMap, k: u64) -> (r: Option<Location>)
    ensures
        r == (if m@.contains_key(k) {
            Some(m@[k])
        } else {
            None
        }),
{
    m.get(&k).copied()
}

/// `HashMap::insert` on the index.
/// Trusted to store `v` under `k`, replacing and returning any earlier value.
#[verifier::external_body]
pub fn fx_insert(m: &mut LocationMap, k: u64, v: Location) -> (r: Option<Location>)
    ensures
        final(m)@ == old(m)@.insert(k, v),
        r == (if old(m)@.contains_key(k) {
            Some(old(m)@[k])
        } else {
            None
        }),
{
    m.insert(k, v)
}

/// `HashMap::remove` on the index.
/// Trusted to drop the entry under `k` and return its value, if any.
#[verifier::external_body]
pub fn fx_remove(m: &mut LocationMap, k: u64) -> (r: Option<Location>)
    ensures
        final(m)@ == old(m)@.remove(k),
        r == (if old(m)@.contains_key(k) {
            Some(old(m)@[k])
        } else {
            None
        }),
{
    m.remove(&k)
}

/// `HashMap::len` on the index.
/// Trusted to return the number of keys in the map.
#[verifier::external_body]
pub fn fx_len(m: &LocationMap) -> (r: usize)
    ensures
        r == m@.len(),
{
    m.len()
}

} // verus!
