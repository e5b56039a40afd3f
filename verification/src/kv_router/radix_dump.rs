//! Writing a radix tree down as the store events that rebuild it.
use crate::kv_router::protocols::{
    ExternalSequenceBlockHash, KvCacheEventData, KvCacheStoredBlockData, LocalBlockHash,
    WorkerWithDpRank,
};
use crate::kv_router::radix_state::TreeState;
use crate::kv_router::radix_tree::RouterEvent;
use crate::kv_router::worker_map::lists_in_order;
use crate::seqs::{lemma_increasing_unique, lemma_list_exists, lists_increasing};
use vstd::prelude::*;

verus! {

/// A block as it is met on the way down: the block above it and the token hash between them.
pub struct Visit {
    pub block: int,
    pub above: int,
    pub tokens: u64,
}

/// One block of one worker, with the hash of the block above it.
pub struct StoredAt {
    pub worker: WorkerWithDpRank,
    pub parent_hash: Option<ExternalSequenceBlockHash>,
    pub block: KvCacheStoredBlockData,
}

/// The members of a set of hashes, in increasing order.
pub open spec fn hashes_in_order(hashes: Set<u64>) -> Seq<u64> {
    choose|list: Seq<u64>| lists_increasing(list, hashes)
}

/// The members of a set of workers, in worker order.
pub open spec fn workers_in_order(workers: Set<WorkerWithDpRank>) -> Seq<WorkerWithDpRank> {
    choose|list: Seq<WorkerWithDpRank>| lists_in_order(list, workers)
}

pub proof fn lemma_hashes_in_order(list: Seq<u64>, hashes: Set<u64>)
    requires
        lists_increasing(list, hashes),
    ensures
        list == hashes_in_order(hashes),
        lists_increasing(hashes_in_order(hashes), hashes),
{
    lemma_increasing_unique(list, hashes_in_order(hashes), |hash: u64| hash as int);
}

pub proof fn lemma_workers_in_order(list: Seq<WorkerWithDpRank>, workers: Set<WorkerWithDpRank>)
    requires
        lists_in_order(list, workers),
    ensures
        list == workers_in_order(workers),
        lists_in_order(workers_in_order(workers), workers),
{
    let key = |worker: WorkerWithDpRank| worker.worker_id * 0x1_0000_0000 + worker.dp_rank;
    let other = workers_in_order(workers);
    assert forall|i: int, j: int| #![trigger list[i], list[j]] 0 <= i < j < list.len() implies key(
        list[i],
    ) < key(list[j]) by {
        assert(list[i].precedes(list[j]));
    }
    assert forall|i: int, j: int| #![trigger other[i], other[j]]
        0 <= i < j < other.len() implies key(other[i]) < key(other[j]) by {
        assert(other[i].precedes(other[j]));
    }
    assert forall|member: WorkerWithDpRank| #[trigger]
        list.contains(member) <==> other.contains(member) by {
        assert(list.contains(member) <==> workers.contains(member));
        assert(other.contains(member) <==> workers.contains(member));
    }
    lemma_increasing_unique(list, other, key);
}

/// Finitely many hashes can be listed in order.
pub proof fn lemma_hashes_listed(hashes: Set<u64>)
    requires
        hashes.finite(),
    ensures
        lists_increasing(hashes_in_order(hashes), hashes),
{
    let key = |hash: u64| hash as int;
    let list = lemma_list_exists(hashes, key);
    assert forall|i: int, j: int| 0 <= i < j < list.len() implies list[i] < list[j] by {
        assert(key(list[i]) < key(list[j]));
    }
    assert(lists_increasing(list, hashes));
}

/// Finitely many workers can be listed in order.
pub proof fn lemma_workers_listed(workers: Set<WorkerWithDpRank>)
    requires
        workers.finite(),
    ensures
        lists_in_order(workers_in_order(workers), workers),
{
    let key = |worker: WorkerWithDpRank| worker.worker_id * 0x1_0000_0000 + worker.dp_rank;
    let list = lemma_list_exists(workers, key);
    assert forall|i: int, j: int| 0 <= i < j < list.len() implies (#[trigger] list[i]).precedes(
        #[trigger] list[j],
    ) by {
        assert(key(list[i]) < key(list[j]));
    }
    assert(lists_in_order(list, workers));
}

impl TreeState {
    /// The children of a block, by increasing token hash.
    pub open spec fn below(self, block: int) -> Seq<Visit> {
        hashes_in_order(self.blocks[block].children.dom()).map_values(
            |tokens: u64|
                Visit { block: self.blocks[block].children[tokens] as int, above: block, tokens },
        )
    }

    /// The children of all visited blocks, in turn.
    pub open spec fn below_all(self, visits: Seq<Visit>) -> Seq<Visit>
        decreases visits.len(),
    {
        if visits.len() == 0 {
            Seq::empty()
        } else {
            self.below_all(visits.drop_last()) + self.below(visits.last().block)
        }
    }

    /// The blocks `depth` steps below the children of the root.
    pub open spec fn level(self, depth: nat) -> Seq<Visit>
        decreases depth,
    {
        if depth == 0 {
            self.below(0)
        } else {
            self.below_all(self.level((depth - 1) as nat))
        }
    }

    /// The blocks of the first levels, level by level.
    pub open spec fn levels(self, depth: nat) -> Seq<Visit>
        decreases depth,
    {
        if depth == 0 {
            Seq::empty()
        } else {
            self.levels((depth - 1) as nat) + self.level((depth - 1) as nat)
        }
    }

    /// Every way down from the root ends.
    pub open spec fn finite_depth(self) -> bool {
        exists|depth: nat| (#[trigger] self.level(depth)).len() == 0
    }

    /// All blocks below the root, level by level, once for every way that leads to them.
    pub open spec fn all_visits(self) -> Seq<Visit> {
        self.levels(choose|depth: nat| (#[trigger] self.level(depth)).len() == 0)
    }

    /// What the holders of a visited block store, in worker order.
    pub open spec fn records_at(self, visit: Visit) -> Seq<StoredAt> {
        let held = self.blocks[visit.block].workers;
        let above = self.blocks[visit.above].workers;
        workers_in_order(held.dom()).map_values(
            |worker: WorkerWithDpRank|
                StoredAt {
                    worker,
                    parent_hash: if above.contains_key(worker) {
                        Some(above[worker])
                    } else {
                        None
                    },
                    block: KvCacheStoredBlockData {
                        block_hash: held[worker],
                        tokens_hash: LocalBlockHash(visit.tokens),
                    },
                },
        )
    }

    pub open spec fn records(self, visits: Seq<Visit>) -> Seq<StoredAt>
        decreases visits.len(),
    {
        if visits.len() == 0 {
            Seq::empty()
        } else {
            self.records(visits.drop_last()) + self.records_at(visits.last())
        }
    }

    /// The whole tree as single stored blocks, those above before those below.
    pub open spec fn dump(self) -> Seq<StoredAt> {
        self.records(self.all_visits())
    }
}

/// Whether an event stores exactly the given block.
pub open spec fn stores(event: RouterEvent, event_id: int, stored: StoredAt) -> bool {
    &&& event.worker_id == stored.worker.worker_id
    &&& event.event.dp_rank == stored.worker.dp_rank
    &&& event.event.event_id == event_id
    &&& event.event.data matches KvCacheEventData::Stored(data) && data.parent_hash
        == stored.parent_hash && data.blocks@ == seq![stored.block]
}

/// Once a level is empty, so are all deeper ones.
pub proof fn lemma_levels_end(tree: TreeState, depth: nat, deeper: nat)
    requires
        tree.level(depth).len() == 0,
        depth <= deeper,
    ensures
        tree.level(deeper).len() == 0,
        tree.levels(deeper) == tree.levels(depth),
    decreases deeper,
{
    if depth < deeper {
        lemma_levels_end(tree, depth, (deeper - 1) as nat);
        assert(tree.levels(deeper) =~= tree.levels((deeper - 1) as nat));
    }
}

/// All visits are those of the levels above any empty one.
pub proof fn lemma_all_visits(tree: TreeState, depth: nat)
    requires
        tree.level(depth).len() == 0,
    ensures
        tree.all_visits() == tree.levels(depth),
{
    let chosen = choose|depth: nat| (#[trigger] tree.level(depth)).len() == 0;
    if chosen <= depth {
        lemma_levels_end(tree, chosen, depth);
    } else {
        lemma_levels_end(tree, depth, chosen);
    }
}

pub proof fn lemma_records_concat(tree: TreeState, first: Seq<Visit>, second: Seq<Visit>)
    ensures
        tree.records(first + second) == tree.records(first) + tree.records(second),
    decreases second.len(),
{
    if second.len() == 0 {
        assert(first + second =~= first);
        assert(tree.records(first) + tree.records(second) =~= tree.records(first));
    } else {
        lemma_records_concat(tree, first, second.drop_last());
        assert((first + second).drop_last() =~= first + second.drop_last());
        assert(tree.records(first + second) =~= tree.records(first) + tree.records(second));
    }
}

} // verus!
