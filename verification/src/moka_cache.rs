//! The calls into `moka`'s concurrent cache.
//!
//! A cache is shared by reference and changes under every holder's hands:
//! other workers insert into it, and it drops entries on its own when it is
//! over its capacity. So none of these calls promises anything about what
//! a cache holds or hands out; what is done with the result is verified for
//! every result. The one thing that is fixed when a cache is made, and is
//! claimed, is the number of entries that it is made to keep.

use vstd::prelude::*;
use std::sync::Arc;
use crate::storage::Storage;

verus! {

/// `moka::sync::Cache`, whose inside is not looked into.
#[verifier::external_type_specification]
#[verifier::external_body]
#[verifier::reject_recursive_types(K)]
#[verifier::reject_recursive_types(V)]
#[verifier::reject_recursive_types(S)]
pub struct ExMokaCache<K, V, S>(moka::sync::Cache<K, V, S>);

/// A cache of payloads by a handle's hash.
pub type PayloadCache = moka::sync::Cache<u64, Arc<Storage>>;

/// The number of entries that a cache was made to keep: the `max_capacity`
/// that `CacheBuilder::max_capacity` was given, which `Cache::policy` gives
/// back for as long as the cache lives. It says nothing of what the cache
/// holds.
pub uninterp spec fn cache_limit(cache: PayloadCache) -> u64;

/// `Cache::builder`, `CacheBuilder::max_capacity` and `CacheBuilder::build`:
/// a cache that is made to keep up to `max_capacity` entries. Of what the
/// cache holds nothing is claimed. `build` panics only where a time to live
/// or a time to idle of more than a thousand years was set; none is set
/// here.
#[verifier::external_body]
pub(crate) fn cache_with_max_capacity(max_capacity: u64) -> (cache: PayloadCache)
    ensures
        cache_limit(cache) == max_capacity,
{
    moka::sync::Cache::builder().max_capacity(max_capacity).build()
}

/// `Cache::get`: a clone of the value that the cache holds for `key` at the
/// moment of the call, if it holds one. Nothing is claimed of the result.
#[verifier::external_body]
pub(crate) fn cache_get(cache: &PayloadCache, key: u64) -> (found: Option<Arc<Storage>>) {
    cache.get(&key)
}

/// `Cache::insert`: puts `value` into the cache under `key`. Nothing is
/// claimed: the cache may drop the entry again at any time.
#[verifier::external_body]
pub(crate) fn cache_insert(cache: &PayloadCache, key: u64, value: Arc<Storage>) {
    cache.insert(key, value);
}

/// `Cache::run_pending_tasks`: lets the cache catch up on its housekeeping.
#[verifier::external_body]
pub(crate) fn cache_run_pending_tasks(cache: &PayloadCache) {
    cache.run_pending_tasks();
}

/// `Cache::iter`: the values that the cache hands out when it is walked, in
/// the order in which they come. Nothing is claimed of them.
#[verifier::external_body]
pub(crate) fn cache_values(cache: &PayloadCache) -> (values: Vec<Arc<Storage>>) {
    let mut values = Vec::new();
    for (_key, value) in cache.iter() {
        values.push(value);
    }
    values
}

} // verus!
