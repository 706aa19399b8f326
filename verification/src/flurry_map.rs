//! The calls into `flurry`'s lock-free map.
//!
//! The map is shared by reference and other workers change it between any
//! two calls. So none of these calls promises anything about what comes
//! back; what is done with the result is verified for every result. Every
//! call pins a guard of the map itself for as long as it runs, which is the
//! guard that the map asks for.

use vstd::prelude::*;
use std::sync::Arc;
use crate::storage::Storage;

verus! {

/// `flurry::HashMap`, whose inside is not looked into.
#[verifier::external_type_specification]
#[verifier::external_body]
#[verifier::reject_recursive_types(K)]
#[verifier::reject_recursive_types(V)]
#[verifier::reject_recursive_types(S)]
pub struct ExFlurryMap<K, V, S>(flurry::HashMap<K, V, S>);

/// `flurry::DefaultHashBuilder`, the hasher that a `flurry::HashMap` has
/// where none is named.
#[verifier::external_type_specification]
#[verifier::external_body]
pub struct ExFlurryHashBuilder(flurry::DefaultHashBuilder);

/// A map from a slot index to the payload in the slot and the generation
/// id of the handle that owns it.
pub type LockFreeSlotMap = flurry::HashMap<u32, (Arc<Storage>, u32)>;

/// `HashMap::new`: a map that allocates at its first insertion. Nothing is
/// claimed of the map.
#[verifier::external_body]
pub(crate) fn lock_free_map_new() -> (map: LockFreeSlotMap) {
    flurry::HashMap::new()
}

/// `HashMap::len`: the number of entries that the map counts at the moment
/// of the call.
#[verifier::external_body]
pub(crate) fn lock_free_map_len(map: &LockFreeSlotMap) -> (len: usize) {
    map.len()
}

/// `HashMap::guard` and `HashMap::remove`: takes the entry of `index` out
/// of the map, if there is one.
#[verifier::external_body]
pub(crate) fn lock_free_map_remove(map: &LockFreeSlotMap, index: u32) {
    let guard = map.guard();
    map.remove(&index, &guard);
}

/// `HashMap::guard` and `HashMap::insert`: puts the payload and the
/// generation id into the map under `index`, in place of what was there.
#[verifier::external_body]
pub(crate) fn lock_free_map_insert(
    map: &LockFreeSlotMap,
    index: u32,
    payload: Arc<Storage>,
    generation: u32,
) {
    let guard = map.guard();
    map.insert(index, (payload, generation), &guard);
}

/// `HashMap::guard` and `HashMap::get`: the entry of `index` at the moment
/// of the call, if there is one: a reference to the payload that the map
/// holds, and the generation id. Nothing is claimed of the result.
#[verifier::external_body]
pub(crate) fn lock_free_map_get(map: &LockFreeSlotMap, index: u32) -> (entry: Option<
    (Arc<Storage>, u32),
>) {
    let guard = map.guard();
    match map.get(&index, &guard) {
        Some(entry) => Some((entry.0.clone(), entry.1)),
        None => None,
    }
}

/// `HashMap::guard` and `HashMap::iter`: the payloads that the map hands
/// out when it is walked, in the order in which they come. Nothing is
/// claimed of them.
#[verifier::external_body]
pub(crate) fn lock_free_map_payloads(map: &LockFreeSlotMap) -> (payloads: Vec<Arc<Storage>>) {
    let guard = map.guard();
    let mut payloads = Vec::new();
    for (_index, entry) in map.iter(&guard) {
        payloads.push(entry.0.clone());
    }
    payloads
}

} // verus!
