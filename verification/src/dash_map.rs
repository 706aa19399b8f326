//! The calls into `dashmap`'s concurrent map.
//!
//! The map is shared by reference and other workers change it between any
//! two calls. So none of these calls promises anything about what comes
//! back; what is done with the result is verified for every result.

use vstd::prelude::*;
use std::sync::Arc;
use crate::storage::Storage;

verus! {

/// `dashmap::DashMap`, whose inside is not looked into.
#[verifier::external_type_specification]
#[verifier::external_body]
#[verifier::reject_recursive_types(K)]
#[verifier::reject_recursive_types(V)]
#[verifier::reject_recursive_types(S)]
pub struct ExDashMap<K, V, S>(dashmap::DashMap<K, V, S>);

/// A map from a slot index to the payload in the slot and the generation
/// id of the handle that owns it.
pub type SlotMap = dashmap::DashMap<u32, (Arc<Storage>, u32)>;

/// The largest starting capacity that a map is asked for. A map grows
/// beyond it on demand.
pub const STARTING_CAPACITY_LIMIT: usize = 0x100_0000;

/// `DashMap::with_capacity`: a map with room for `capacity` entries to
/// start with. Nothing is claimed of the map. The call rounds the capacity
/// up to a multiple of its number of shards and sets aside tables of that
/// size; the bound keeps these sizes from overflowing on every target.
#[verifier::external_body]
pub(crate) fn slot_map_with_capacity(capacity: usize) -> (map: SlotMap)
    requires
        capacity <= STARTING_CAPACITY_LIMIT,
{
    dashmap::DashMap::with_capacity(capacity)
}

/// `DashMap::len`: the number of entries at the moment of the call.
#[verifier::external_body]
pub(crate) fn slot_map_len(map: &SlotMap) -> (len: usize) {
    map.len()
}

/// `DashMap::remove`: takes the entry of `index` out of the map, if there
/// is one.
#[verifier::external_body]
pub(crate) fn slot_map_remove(map: &SlotMap, index: u32) {
    map.remove(&index);
}

/// `DashMap::insert`: puts the payload and the generation id into the map
/// under `index`, in place of what was there.
#[verifier::external_body]
pub(crate) fn slot_map_insert(map: &SlotMap, index: u32, payload: Arc<Storage>, generation: u32) {
    map.insert(index, (payload, generation));
}

/// `DashMap::get`: the entry of `index` at the moment of the call, if there
/// is one: a reference to the payload that the map holds, and the
/// generation id. Nothing is claimed of the result.
#[verifier::external_body]
pub(crate) fn slot_map_get(map: &SlotMap, index: u32) -> (entry: Option<(Arc<Storage>, u32)>) {
    match map.get(&index) {
        Some(entry) => Some((entry.value().0.clone(), entry.value().1)),
        None => None,
    }
}

/// `DashMap::iter`: the payloads that the map hands out when it is walked,
/// in the order in which they come. Nothing is claimed of them.
#[verifier::external_body]
pub(crate) fn slot_map_payloads(map: &SlotMap) -> (payloads: Vec<Arc<Storage>>) {
    let mut payloads = Vec::new();
    for entry in map.iter() {
        payloads.push(entry.value().0.clone());
    }
    payloads
}

} // verus!
