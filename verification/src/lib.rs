//! A fixed-capacity object store with generation-stamped handles.
//!
//! A write puts a payload into a slot of an arena and returns a handle: the
//! slot's index and a generation id that no other handle carries. Once the
//! arena is full, a write reclaims the slot that was written longest ago,
//! and the handle that owned it goes stale: reading it finds nothing, never
//! the new payload. A worker can keep a small cache in front of a shared
//! store; the cache is found by handle, generation included, so it keeps
//! answering for a handle after the store has reclaimed its slot.
//!
//! - `handle`: handles and the counter that stamps them.
//! - `eviction_list`: the order in which slots are reclaimed.
//! - `storage`, `pseudo_rand`: payloads, and synthetic ones.
//! - `store`, `arc_store`: the arena, with borrowed and with shared reads.
//! - `cache`: the per-worker cache and the read through it.
//! - `ledger`: what reads can be held to across writes and caches.
//! - `scenario` and the strategy modules: one interface over the ways of
//!   sharing a store among workers, behind a lock or in a concurrent map.
//! - `accounting`, `report`: byte counts and how they are shown.

pub mod accounting;
pub mod handle;
pub mod pseudo_rand;
pub mod storage;
pub mod eviction_list;
pub mod store;
pub mod cache;
pub mod arc_store;
pub mod ledger;
pub mod scenario;
pub mod shared_store;
pub mod mutex_vector;
pub mod rwlock_vector;
pub mod mutex_arc_vector;
pub mod rwlock_arc_vector;
pub mod moka_cache;
pub mod dash_map;
pub mod flurry_map;
pub mod next_index;
pub mod map_store;
pub mod double_moka;
pub mod dashmap_moka;
pub mod flurry_moka;
pub mod report;
