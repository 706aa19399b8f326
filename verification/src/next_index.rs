//! The source of slot indices that were never used before.

use vstd::prelude::*;
use std::sync::atomic::AtomicU32;
use std::sync::atomic::Ordering;

verus! {

/// Takes the next unused slot index. The counter is shared, so which index
/// comes back depends on what the other workers have taken.
pub fn fresh_index(next_index: &AtomicU32) -> (index: u32) {
    next_index.fetch_add(1, Ordering::Relaxed)
}

} // verus!
