//! What holds of an index that believes routed blocks to be cached for a time.
use crate::kv_router::approx::{pruned_count, timers_with, BlockEntry, PruneConfig};
use crate::kv_router::indexer::{drop_entries, routed_run};
use crate::kv_router::protocols::{LocalBlockHash, SequenceHash, WorkerWithDpRank};
use crate::kv_router::radix_laws::{law_stored_run_is_matched, lemma_drop_only_takes, run_tokens};
use crate::kv_router::radix_state::{
    lemma_drop_valid, lemma_matched_blocks, lemma_with_worker_valid, TreeState, WorkerState,
};
use vstd::prelude::*;

verus! {

/// A request that was routed to a worker and stored is matched as a whole, and the worker holds
/// every block of it.
pub proof fn law_routed_request_is_matched(
    tree: TreeState,
    worker: WorkerWithDpRank,
    local_hashes: Seq<LocalBlockHash>,
    sequence_hashes: Seq<SequenceHash>,
)
    requires
        tree.valid(),
        local_hashes.len() == sequence_hashes.len(),
        tree.blocks.len() + local_hashes.len() <= usize::MAX,
        tree.track(worker).store(worker, None, routed_run(local_hashes, sequence_hashes)).1 is Ok,
    ensures
        ({
            let after = tree.track(worker).store(
                worker,
                None,
                routed_run(local_hashes, sequence_hashes),
            ).0;
            let found = after.matched(0, local_hashes, false);
            &&& found.len() == local_hashes.len()
            &&& after.held_among(found, worker) == local_hashes.len()
        }),
{
    let run = routed_run(local_hashes, sequence_hashes);
    let state = tree.track(worker).of_worker(worker);
    let after = tree.track(worker).store(worker, None, run).0;
    assert(run_tokens(run) =~= local_hashes);
    law_stored_run_is_matched(state, worker, 0, run, Set::empty(), after.lookup);
}

/// The tree once one entry is dropped.
spec fn without_entry(tree: TreeState, entry: BlockEntry) -> TreeState {
    let known = tree.track(entry.worker);
    known.with_worker(
        entry.worker,
        known.of_worker(entry.worker).drop_blocks(entry.worker, seq![entry.key]).0,
    )
}

/// Dropping one entry takes its hash from the worker's table, and the block from the worker.
proof fn lemma_without_entry(tree: TreeState, entry: BlockEntry)
    requires
        tree.valid(),
    ensures
        ({
            let after = without_entry(tree, entry);
            &&& after.valid()
            &&& after.blocks.len() == tree.blocks.len()
            &&& after.lookup == tree.track(entry.worker).lookup.insert(
                entry.worker,
                tree.track(entry.worker).lookup[entry.worker].remove(entry.key.0),
            )
            &&& forall|block: int, holder: WorkerWithDpRank|
                0 <= block < tree.blocks.len()
                    && #[trigger] after.blocks[block].workers.contains_key(holder)
                    ==> tree.blocks[block].workers.contains_key(holder)
            &&& tree.lookup.contains_key(entry.worker) && tree.lookup[entry.worker].contains_key(
                entry.key.0,
            ) ==> !after.blocks[tree.lookup[entry.worker][entry.key.0] as int].workers.contains_key(
                entry.worker,
            )
        }),
{
    let known = tree.track(entry.worker);
    let state = known.of_worker(entry.worker);
    let hashes = seq![entry.key];
    reveal_with_fuel(WorkerState::drop_blocks, 2);
    assert(hashes.skip(1) =~= Seq::empty());
    let dropped = state.drop_blocks(entry.worker, hashes).0;
    assert(known.valid());
    assert(state.valid());
    lemma_drop_valid(state, entry.worker, hashes);
    lemma_drop_only_takes(state, entry.worker, hashes);
    lemma_with_worker_valid(known, entry.worker, dropped);
    if state.table.contains_key(entry.key.0) {
        assert(dropped == state.drop_block(entry.worker, entry.key.0));
    } else {
        assert(state.table.remove(entry.key.0) =~= state.table);
    }
}

/// A block that is given up is no longer in its worker's table, and the worker no longer holds it.
pub proof fn law_given_up_blocks_are_gone(
    tree: TreeState,
    entries: Seq<BlockEntry>,
    entry: BlockEntry,
)
    requires
        tree.valid(),
        entries.contains(entry),
    ensures
        ({
            let after = drop_entries(tree, entries);
            &&& after.lookup.contains_key(entry.worker)
            &&& !after.lookup[entry.worker].contains_key(entry.key.0)
            &&& tree.lookup.contains_key(entry.worker) && tree.lookup[entry.worker].contains_key(
                entry.key.0,
            ) ==> !after.blocks[tree.lookup[entry.worker][entry.key.0] as int].workers.contains_key(
                entry.worker,
            )
        }),
    decreases entries.len(),
{
    let shorter = entries.drop_last();
    let last = entries.last();
    let before = drop_entries(tree, shorter);
    lemma_only_dropped(tree, shorter);
    lemma_without_entry(before, last);
    if tree.lookup.contains_key(entry.worker) && tree.lookup[entry.worker].contains_key(
        entry.key.0,
    ) {
        assert(0 < tree.lookup[entry.worker][entry.key.0] < tree.blocks.len());
    }
    let i = choose|i: int| 0 <= i < entries.len() && entries[i] == entry;
    if i < shorter.len() {
        assert(shorter[i] == entry);
        law_given_up_blocks_are_gone(tree, shorter, entry);
    } else if tree.lookup.contains_key(entry.worker) && tree.lookup[entry.worker].contains_key(
        entry.key.0,
    ) && !before.lookup[entry.worker].contains_key(entry.key.0) {
        lemma_missing_was_dropped(tree, shorter, entry);
    }
}

/// Giving blocks up adds nothing: the tree stays valid, tables only lose entries and keep the
/// others as they were, and nobody comes to hold a block.
proof fn lemma_only_dropped(tree: TreeState, entries: Seq<BlockEntry>)
    requires
        tree.valid(),
    ensures
        ({
            let after = drop_entries(tree, entries);
            &&& after.valid()
            &&& after.blocks.len() == tree.blocks.len()
            &&& forall|worker: WorkerWithDpRank| #[trigger]
                tree.lookup.contains_key(worker) ==> after.lookup.contains_key(worker)
            &&& forall|worker: WorkerWithDpRank, hash: u64|
                after.lookup.contains_key(worker) && #[trigger] after.lookup[worker].contains_key(
                    hash,
                ) ==> tree.lookup.contains_key(worker) && tree.lookup[worker].contains_key(hash)
                    && after.lookup[worker][hash] == tree.lookup[worker][hash]
            &&& forall|block: int, holder: WorkerWithDpRank|
                0 <= block < tree.blocks.len()
                    && #[trigger] after.blocks[block].workers.contains_key(holder)
                    ==> tree.blocks[block].workers.contains_key(holder)
        }),
    decreases entries.len(),
{
    if entries.len() > 0 {
        let before = drop_entries(tree, entries.drop_last());
        lemma_only_dropped(tree, entries.drop_last());
        lemma_without_entry(before, entries.last());
        let after = drop_entries(tree, entries);
        assert(after == without_entry(before, entries.last()));
        assert forall|worker: WorkerWithDpRank, hash: u64|
            after.lookup.contains_key(worker) && #[trigger] after.lookup[worker].contains_key(
                hash,
            ) implies tree.lookup.contains_key(worker) && tree.lookup[worker].contains_key(hash)
            && after.lookup[worker][hash] == tree.lookup[worker][hash] by {
            assert(before.lookup.contains_key(worker));
            assert(before.lookup[worker].contains_key(hash));
        }
        assert forall|block: int, holder: WorkerWithDpRank|
            0 <= block < tree.blocks.len() && #[trigger] after.blocks[block].workers.contains_key(
                holder,
            ) implies tree.blocks[block].workers.contains_key(holder) by {
            assert(before.blocks[block].workers.contains_key(holder));
        }
    }
}

/// An entry that is missing from a table afterwards was among those given up.
proof fn lemma_missing_was_dropped(tree: TreeState, entries: Seq<BlockEntry>, entry: BlockEntry)
    requires
        tree.valid(),
        tree.lookup.contains_key(entry.worker),
        tree.lookup[entry.worker].contains_key(entry.key.0),
        !drop_entries(tree, entries).lookup[entry.worker].contains_key(entry.key.0),
    ensures
        !drop_entries(tree, entries).blocks[tree.lookup[entry.worker][entry.key.0] as int].workers.contains_key(
            entry.worker,
        ),
    decreases entries.len(),
{
    let block = tree.lookup[entry.worker][entry.key.0] as int;
    assert(0 < block < tree.blocks.len());
    if entries.len() > 0 {
        let before = drop_entries(tree, entries.drop_last());
        lemma_only_dropped(tree, entries.drop_last());
        lemma_without_entry(before, entries.last());
        if !before.lookup[entry.worker].contains_key(entry.key.0) {
            lemma_missing_was_dropped(tree, entries.drop_last(), entry);
        } else {
            assert(entries.last().worker == entry.worker);
            assert(before.lookup[entry.worker][entry.key.0] == block);
        }
    }
}

/// Once all blocks that a worker is believed to hold have expired, it holds none, so that no match
/// counts for it.
pub proof fn law_expired_workers_are_not_matched(
    tree: TreeState,
    entries: Seq<BlockEntry>,
    worker: WorkerWithDpRank,
    sequence: Seq<LocalBlockHash>,
    early_exit: bool,
)
    requires
        tree.valid(),
        tree.indexed(worker),
        forall|hash: u64|
            tree.lookup.contains_key(worker) && #[trigger] tree.lookup[worker].contains_key(hash)
                ==> exists|i: int|
                0 <= i < entries.len() && (#[trigger] entries[i]).worker == worker
                    && entries[i].key.0 == hash,
    ensures
        ({
            let after = drop_entries(tree, entries);
            after.held_among(after.matched(0, sequence, early_exit), worker) == 0
        }),
{
    let after = drop_entries(tree, entries);
    lemma_only_dropped(tree, entries);
    assert forall|block: int| 0 <= block < after.blocks.len() implies !(
    #[trigger] after.blocks[block]).workers.contains_key(worker) by {
        if after.blocks[block].workers.contains_key(worker) {
            assert(tree.blocks[block].workers.contains_key(worker));
            assert(tree.knows(worker, block));
            let hash = choose|hash: u64| #[trigger]
                tree.lookup[worker].contains_key(hash) && tree.lookup[worker][hash] == block;
            let i = choose|i: int|
                0 <= i < entries.len() && (#[trigger] entries[i]).worker == worker
                    && entries[i].key.0 == hash;
            assert(entries.contains(entries[i]));
            law_given_up_blocks_are_gone(tree, entries, entries[i]);
        }
    }
    let found = after.matched(0, sequence, early_exit);
    lemma_matched_blocks(after, 0, sequence, early_exit);
    lemma_none_held(after, found, worker);
}

/// Of blocks that a worker does not hold, none is counted for it.
pub proof fn lemma_none_held(tree: TreeState, blocks: Seq<int>, worker: WorkerWithDpRank)
    requires
        forall|i: int|
            0 <= i < blocks.len() ==> !tree.blocks[#[trigger] blocks[i]].workers.contains_key(
                worker,
            ),
    ensures
        tree.held_among(blocks, worker) == 0,
    decreases blocks.len(),
{
    if blocks.len() > 0 {
        let shorter = blocks.drop_last();
        assert forall|i: int| 0 <= i < shorter.len() implies !tree.blocks[
            #[trigger] shorter[i]].workers.contains_key(worker) by {
            assert(shorter[i] == blocks[i]);
        }
        lemma_none_held(tree, shorter, worker);
        assert(!tree.blocks[blocks[blocks.len() - 1]].workers.contains_key(worker));
    }
}

/// Starting the timer of a key anew keeps it alive for a whole lifetime from then on, whatever was
/// left of its old one.
pub proof fn law_restarted_timers_live_on(
    timers: Map<BlockEntry, u64>,
    keys: Seq<BlockEntry>,
    key: BlockEntry,
    now: u64,
    ttl: u64,
    later: u64,
)
    requires
        keys.contains(key),
        now + ttl <= u64::MAX,
        later < now + ttl,
    ensures
        timers_with(timers, keys, (now + ttl) as u64).contains_key(key),
        timers_with(timers, keys, (now + ttl) as u64)[key] > later,
{
}

/// A tree within its limit is not pruned. One beyond it comes down to the target size, as long as
/// there are timers enough.
pub proof fn law_pruning_reaches_the_target(config: PruneConfig, size: int, timers: int)
    requires
        config.target_size <= config.max_tree_size,
        0 <= timers,
    ensures
        size <= config.max_tree_size ==> pruned_count(config, size, timers) == 0,
        size > config.max_tree_size && timers >= size - config.target_size ==> size - pruned_count(
            config,
            size,
            timers,
        ) == config.target_size,
{
}

} // verus!
