//! The interface that every storage strategy offers, and the configuration
//! that a strategy is built from.

use vstd::prelude::*;
use crate::handle::{GenerationCounter, Handle};
use crate::storage::Storage;

verus! {

/// The storage strategies that can be selected.
#[derive(Debug, Clone, Copy, PartialEq, Eq, Structural)]
pub enum ScenarioType {
    MutexVector,
    RwLockVector,
    MutexArcVector,
    RwLockArcVector,
    DoubleMoka,
    DashMapMoka,
    PapayaMoka,
    FlurryMoka,
}

impl Default for ScenarioType {
    fn default() -> (scenario: Self)
        ensures
            scenario == ScenarioType::MutexVector,
    {
        ScenarioType::MutexVector
    }
}

/// The configuration of a run.
#[derive(Debug, Clone, Copy)]
pub struct Args {
    /// Smallest payload length.
    pub min: u32,
    /// Largest payload length.
    pub max: u32,
    /// Number of workers.
    pub threads: u32,
    /// Number of writes, over all workers.
    pub events: u32,
    pub scenario: ScenarioType,
    /// Slots of the shared store.
    pub capacity: usize,
    /// Slots of each worker's cache.
    pub cache_capacity: usize,
    /// Reads that follow each write.
    pub read_write_ratio: u32,
}

impl Args {
    /// Both arenas have at least one slot, and no more slots than a handle's
    /// index can name.
    pub open spec fn capacities_valid(&self) -> bool {
        &&& 0 < self.capacity <= u32::MAX
        &&& 0 < self.cache_capacity <= u32::MAX
    }
}

/// Why a write could not be done. Only strategies whose bookkeeping is
/// spread over a lock and a concurrent map can fail in these ways, and only
/// where workers race; a caller is to stop there.
#[derive(Debug, Clone, Copy, PartialEq, Eq, Structural)]
pub enum WriteError {
    /// The map was full, and the eviction list had no slot to give up.
    ListEmpty,
    /// The slot chosen for the write was still in the eviction list.
    SlotHeld,
}

/// One storage strategy: a shared store, and the part that each worker keeps
/// for itself.
///
/// The shared part is made once by `create_global`, around the counter that
/// stamps its handles, and handed to every operation that needs it; a
/// worker's part is made by `new`.
pub trait Scenario: Sized {
    /// The part that all workers share.
    type Global;

    /// The worker's part is in a state that its operations can start from.
    /// A strategy whose worker has no such condition need not say so.
    open spec fn wf(&self) -> bool {
        true
    }

    /// The shared part, with the counter that is to stamp its handles.
    /// Shared parts that are to issue handles that differ from one to the
    /// other are given counters that start apart.
    fn create_global(args: &Args, counter: GenerationCounter) -> Self::Global
        requires
            args.capacities_valid(),
    ;

    fn new(args: &Args) -> (worker: Self)
        requires
            args.capacities_valid(),
        ensures
            worker.wf(),
    ;

    /// Stores `storage` in the shared store.
    fn write(&mut self, global: &Self::Global, storage: &Storage) -> (written: Result<
        Handle<Storage>,
        WriteError,
    >)
        requires
            old(self).wf(),
        ensures
            final(self).wf(),
    ;

    /// Reads what `handle` refers to.
    fn read(&mut self, global: &Self::Global, handle: Handle<Storage>) -> (found: Option<&Storage>)
        requires
            old(self).wf(),
        ensures
            final(self).wf(),
    ;

    /// The bytes held by this worker's part.
    fn memory_usage(&self) -> usize;

    /// The bytes held by the shared part.
    fn global_memory_usage(global: &Self::Global) -> usize;
}

} // verus!
