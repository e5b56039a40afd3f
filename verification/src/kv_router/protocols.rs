//! The values that travel between workers, the indexer and the scheduler.
use vstd::prelude::*;

verus! {

/// Identifies a worker instance.
pub type WorkerId = u64;

/// Identifies a data-parallel rank inside a worker.
pub type DpRank = u32;

/// A rolling hash of a block and everything before it.
pub type SequenceHash = u64;

/// A worker together with one of its data-parallel ranks.
#[derive(Clone, Copy, Debug, PartialEq, Eq, Structural, PartialOrd, Ord, Hash)]
pub struct WorkerWithDpRank {
    pub worker_id: WorkerId,
    pub dp_rank: DpRank,
}

impl WorkerWithDpRank {
    pub fn new(worker_id: WorkerId, dp_rank: DpRank) -> (worker: Self)
        ensures
            worker == (WorkerWithDpRank { worker_id, dp_rank }),
    {
        WorkerWithDpRank { worker_id, dp_rank }
    }

    /// The worker at rank zero.
    pub fn from_worker_id(worker_id: WorkerId) -> (worker: Self)
        ensures
            worker == (WorkerWithDpRank { worker_id, dp_rank: 0 }),
    {
        WorkerWithDpRank { worker_id, dp_rank: 0 }
    }

    /// Workers are ordered by id, then by rank.
    pub open spec fn precedes(self, other: Self) -> bool {
        self.worker_id < other.worker_id || (self.worker_id == other.worker_id && self.dp_rank
            < other.dp_rank)
    }
}

/// The hash of the tokens of one block, without its prefix.
#[derive(Clone, Copy, Debug, PartialEq, Eq, Structural, PartialOrd, Ord, Hash)]
pub struct LocalBlockHash(pub u64);

/// The hash under which a worker's engine knows a block.
#[derive(Clone, Copy, Debug, PartialEq, Eq, Structural, PartialOrd, Ord, Hash)]
pub struct ExternalSequenceBlockHash(pub u64);

impl From<u64> for ExternalSequenceBlockHash {
    fn from(value: u64) -> (hash: Self) {
        ExternalSequenceBlockHash(value)
    }
}

impl vstd::std_specs::convert::FromSpecImpl<u64> for ExternalSequenceBlockHash {
    open spec fn obeys_from_spec() -> bool {
        true
    }

    open spec fn from_spec(value: u64) -> Self {
        ExternalSequenceBlockHash(value)
    }
}

/// One block of a store event.
#[derive(Clone, Copy, Debug, PartialEq, Eq, Structural)]
pub struct KvCacheStoredBlockData {
    pub block_hash: ExternalSequenceBlockHash,
    pub tokens_hash: LocalBlockHash,
}

/// A run of blocks stored below `parent_hash`, or at the start of a sequence.
#[derive(Clone, Debug, PartialEq)]
pub struct KvCacheStoreData {
    pub parent_hash: Option<ExternalSequenceBlockHash>,
    pub blocks: Vec<KvCacheStoredBlockData>,
}

/// Blocks that a worker evicted.
#[derive(Clone, Debug, PartialEq)]
pub struct KvCacheRemoveData {
    pub block_hashes: Vec<ExternalSequenceBlockHash>,
}

#[derive(Clone, Debug, PartialEq)]
pub enum KvCacheEventData {
    Stored(KvCacheStoreData),
    Removed(KvCacheRemoveData),
    Cleared,
}

/// A change in the KV cache of one rank of a worker.
#[derive(Clone, Debug, PartialEq)]
pub struct KvCacheEvent {
    pub event_id: u64,
    pub data: KvCacheEventData,
    pub dp_rank: DpRank,
}

} // verus!
