//! What holds of radix trees across events and queries.
use crate::kv_router::protocols::{
    ExternalSequenceBlockHash, KvCacheEventData, KvCacheStoredBlockData, LocalBlockHash, WorkerId,
    WorkerWithDpRank,
};
use crate::kv_router::radix_state::{
    lemma_held_among, lemma_held_among_first, lemma_hold_valid, lemma_link_valid,
    lemma_matched_blocks, lemma_use_blocks, BlockState, TreeState, WorkerState,
};
use vstd::prelude::*;

verus! {

/// Everything linked and held stays so, apart from what `worker` holds blocks under.
pub open spec fn grows(
    before: Seq<BlockState>,
    after: Seq<BlockState>,
    worker: WorkerWithDpRank,
) -> bool {
    &&& before.len() <= after.len()
    &&& forall|block: int, tokens: u64|
        #![trigger after[block].children.contains_key(tokens)]
        #![trigger before[block].children.contains_key(tokens)]
        0 <= block < before.len() && before[block].children.contains_key(tokens)
            ==> after[block].children.contains_key(tokens) && after[block].children[tokens]
            == before[block].children[tokens]
    &&& forall|block: int, holder: WorkerWithDpRank|
        #![trigger after[block].workers.contains_key(holder)]
        #![trigger before[block].workers.contains_key(holder)]
        0 <= block < before.len() && before[block].workers.contains_key(holder)
            ==> after[block].workers.contains_key(holder)
    &&& forall|block: int, holder: WorkerWithDpRank|
        #![trigger after[block].workers[holder]]
        #![trigger after[block].workers.contains_key(holder)]
        0 <= block < after.len() && holder != worker && after[block].workers.contains_key(holder)
            ==> block < before.len() && before[block].workers.contains_key(holder)
            && after[block].workers[holder] == before[block].workers[holder]
}

proof fn lemma_step_grows(
    state: WorkerState,
    worker: WorkerWithDpRank,
    parent: int,
    stored: KvCacheStoredBlockData,
)
    requires
        state.valid(),
        0 <= parent < state.blocks.len() < usize::MAX,
    ensures
        ({
            let child = state.child_for(parent, stored) as int;
            let linked = state.link(parent, stored);
            let held = linked.hold(worker, child, stored.block_hash);
            &&& linked.valid()
            &&& held.valid()
            &&& linked.blocks.len() <= state.blocks.len() + 1
            &&& 0 < child < held.blocks.len()
            &&& held.blocks.len() == linked.blocks.len()
            &&& grows(state.blocks, linked.blocks, worker)
            &&& grows(state.blocks, held.blocks, worker)
            &&& held.blocks[parent].children.contains_key(stored.tokens_hash.0)
            &&& held.blocks[parent].children[stored.tokens_hash.0] == child
            &&& held.blocks[child].workers.contains_key(worker)
        }),
{
    lemma_link_valid(state, parent, stored);
    let child = state.child_for(parent, stored) as int;
    let linked = state.link(parent, stored);
    lemma_hold_valid(linked, worker, child, stored.block_hash);
    let held = linked.hold(worker, child, stored.block_hash);
    assert forall|block: int| 0 <= block < state.blocks.len() implies (
    #[trigger] held.blocks[block]).children == linked.blocks[block].children by {
    }
}

proof fn lemma_grows_transitive(
    first: Seq<BlockState>,
    second: Seq<BlockState>,
    third: Seq<BlockState>,
    worker: WorkerWithDpRank,
)
    requires
        grows(first, second, worker),
        grows(second, third, worker),
    ensures
        grows(first, third, worker),
{
    assert forall|block: int, tokens: u64|
        #![trigger third[block].children.contains_key(tokens)]
        #![trigger first[block].children.contains_key(tokens)]
        0 <= block < first.len() && first[block].children.contains_key(
            tokens,
        ) implies third[block].children.contains_key(tokens) && third[block].children[tokens]
        == first[block].children[tokens] by {
        assert(second[block].children.contains_key(tokens));
    }
    assert forall|block: int, holder: WorkerWithDpRank|
        #![trigger third[block].workers.contains_key(holder)]
        #![trigger first[block].workers.contains_key(holder)]
        0 <= block < first.len() && first[block].workers.contains_key(
            holder,
        ) implies third[block].workers.contains_key(holder) by {
        assert(second[block].workers.contains_key(holder));
    }
    assert forall|block: int, holder: WorkerWithDpRank|
        #![trigger third[block].workers[holder]]
        #![trigger third[block].workers.contains_key(holder)]
        0 <= block < third.len() && holder != worker && third[block].workers.contains_key(
            holder,
        ) implies block < first.len() && first[block].workers.contains_key(holder)
        && third[block].workers[holder] == first[block].workers[holder] by {
        assert(third[block].workers[holder] == second[block].workers[holder]);
    }
}

/// Storing a run only adds: links and holders stay, and no other worker gains or loses a block.
pub proof fn law_store_only_adds(
    state: WorkerState,
    worker: WorkerWithDpRank,
    parent: int,
    run: Seq<KvCacheStoredBlockData>,
    above: Set<int>,
)
    requires
        state.valid(),
        0 <= parent < state.blocks.len(),
        state.blocks.len() + run.len() <= usize::MAX,
    ensures
        grows(state.blocks, state.store(worker, parent, run, above).0.blocks, worker),
    decreases run.len(),
{
    if run.len() > 0 {
        lemma_step_grows(state, worker, parent, run[0]);
        let child = state.child_for(parent, run[0]) as int;
        let linked = state.link(parent, run[0]);
        let chain = above.insert(parent);
        if !chain.contains(child) {
            let held = linked.hold(worker, child, run[0].block_hash);
            law_store_only_adds(held, worker, child, run.skip(1), chain);
            lemma_grows_transitive(
                state.blocks,
                held.blocks,
                held.store(worker, child, run.skip(1), chain).0.blocks,
                worker,
            );
        }
    }
}

/// The token hashes of a run.
pub open spec fn run_tokens(run: Seq<KvCacheStoredBlockData>) -> Seq<LocalBlockHash> {
    run.map_values(|stored: KvCacheStoredBlockData| stored.tokens_hash)
}

/// What was stored is found: after a run was stored in full, looking up its tokens from the block
/// that it was stored below matches every block of it, and the worker holds each of them.
pub proof fn law_stored_run_is_matched(
    state: WorkerState,
    worker: WorkerWithDpRank,
    parent: int,
    run: Seq<KvCacheStoredBlockData>,
    above: Set<int>,
    lookup: Map<WorkerWithDpRank, Map<u64, usize>>,
)
    requires
        state.valid(),
        0 <= parent < state.blocks.len(),
        state.blocks.len() + run.len() <= usize::MAX,
        state.store(worker, parent, run, above).1,
    ensures
        ({
            let after = TreeState {
                blocks: state.store(worker, parent, run, above).0.blocks,
                lookup,
            };
            let found = after.matched(parent, run_tokens(run), false);
            &&& found.len() == run.len()
            &&& forall|i: int|
                0 <= i < found.len() ==> after.blocks[#[trigger] found[i]].workers.contains_key(
                    worker,
                )
            &&& after.held_among(found, worker) == run.len()
        }),
    decreases run.len(),
{
    let after = TreeState { blocks: state.store(worker, parent, run, above).0.blocks, lookup };
    let found = after.matched(parent, run_tokens(run), false);
    if run.len() > 0 {
        lemma_step_grows(state, worker, parent, run[0]);
        let child = state.child_for(parent, run[0]) as int;
        let held = state.link(parent, run[0]).hold(worker, child, run[0].block_hash);
        let chain = above.insert(parent);
        let rest = run.skip(1);
        law_stored_run_is_matched(held, worker, child, rest, chain, lookup);
        law_store_only_adds(held, worker, child, rest, chain);
        assert(held.blocks[parent].children.contains_key(run[0].tokens_hash.0));
        assert(after.blocks[parent].children.contains_key(run[0].tokens_hash.0));
        assert(held.blocks[child].workers.contains_key(worker));
        assert(after.blocks[child].workers.contains_key(worker));
        assert(run_tokens(run).skip(1) =~= run_tokens(rest));
        assert(found =~= seq![child] + after.matched(child, run_tokens(rest), false));
    }
    lemma_all_held(after, found, worker);
}

pub proof fn lemma_all_held(tree: TreeState, blocks: Seq<int>, worker: WorkerWithDpRank)
    requires
        forall|i: int|
            0 <= i < blocks.len() ==> tree.blocks[#[trigger] blocks[i]].workers.contains_key(worker),
    ensures
        tree.held_among(blocks, worker) == blocks.len(),
    decreases blocks.len(),
{
    if blocks.len() > 0 {
        let shorter = blocks.drop_last();
        assert forall|i: int| 0 <= i < shorter.len() implies tree.blocks[
            #[trigger] shorter[i]].workers.contains_key(worker) by {
            assert(shorter[i] == blocks[i]);
        }
        lemma_all_held(tree, shorter, worker);
        assert(tree.blocks[blocks[blocks.len() - 1]].workers.contains_key(worker));
    }
}

/// Whatever a cache event does, and whether or not it fails, every worker that holds a block is
/// known afterwards if that was so before.
pub proof fn law_apply_keeps_holders_known(
    tree: TreeState,
    worker: WorkerWithDpRank,
    data: KvCacheEventData,
)
    requires
        tree.valid(),
        tree.holders_tracked(),
        data matches KvCacheEventData::Stored(store) ==> tree.blocks.len() + store.blocks@.len()
            <= usize::MAX,
    ensures
        tree.apply(worker, data).0.holders_tracked(),
        tree.apply(worker, data).0.lookup.contains_key(worker),
{
    let known = tree.track(worker);
    let after = tree.apply(worker, data).0;
    assert(known.lookup.contains_key(worker));
    match data {
        KvCacheEventData::Stored(store) => {
            match known.store_parent(worker, store.parent_hash) {
                None => {},
                Some(parent) => {
                    let state = known.of_worker(worker);
                    assert(0 <= parent < state.blocks.len());
                    law_store_only_adds(state, worker, parent, store.blocks@, Set::empty());
                    assert forall|block: int, holder: WorkerWithDpRank|
                        0 <= block < after.blocks.len()
                            && #[trigger] after.blocks[block].workers.contains_key(
                            holder,
                        ) implies after.lookup.contains_key(holder) by {
                        if holder != worker {
                            assert(tree.blocks[block].workers.contains_key(holder));
                        }
                    }
                },
            }
        },
        KvCacheEventData::Removed(remove) => {
            lemma_drop_only_takes(known.of_worker(worker), worker, remove.block_hashes@);
            assert forall|block: int, holder: WorkerWithDpRank|
                0 <= block < after.blocks.len() && #[trigger] after.blocks[block].workers.contains_key(
                    holder,
                ) implies after.lookup.contains_key(holder) by {
                assert(tree.blocks[block].workers.contains_key(holder));
            }
        },
        KvCacheEventData::Cleared => {
            assert forall|block: int, holder: WorkerWithDpRank|
                0 <= block < after.blocks.len() && #[trigger] after.blocks[block].workers.contains_key(
                    holder,
                ) implies after.lookup.contains_key(holder) by {
                assert(tree.blocks[block].workers.contains_key(holder));
            }
        },
    }
}

/// Dropping blocks takes `worker` off blocks and nobody else.
pub open spec fn only_takes(
    before: Seq<BlockState>,
    after: Seq<BlockState>,
    worker: WorkerWithDpRank,
) -> bool {
    &&& before.len() == after.len()
    &&& forall|block: int, holder: WorkerWithDpRank|
        #![trigger after[block].workers.contains_key(holder)]
        0 <= block < before.len() && after[block].workers.contains_key(holder)
            ==> before[block].workers.contains_key(holder)
    &&& forall|block: int, holder: WorkerWithDpRank|
        #![trigger before[block].workers.contains_key(holder)]
        0 <= block < before.len() && holder != worker && before[block].workers.contains_key(holder)
            ==> after[block].workers.contains_key(holder) && after[block].workers[holder]
            == before[block].workers[holder]
}

pub proof fn lemma_drop_only_takes(
    state: WorkerState,
    worker: WorkerWithDpRank,
    hashes: Seq<ExternalSequenceBlockHash>,
)
    requires
        state.valid(),
    ensures
        only_takes(state.blocks, state.drop_blocks(worker, hashes).0.blocks, worker),
    decreases hashes.len(),
{
    if hashes.len() > 0 && state.table.contains_key(hashes[0].0) {
        let hash = hashes[0].0;
        let block = state.table[hash] as int;
        crate::kv_router::radix_state::lemma_without_valid(state.blocks, block, set![worker]);
        let next = state.drop_block(worker, hash);
        lemma_drop_only_takes(next, worker, hashes.skip(1));
        let after = next.drop_blocks(worker, hashes.skip(1)).0;
        assert forall|block: int, holder: WorkerWithDpRank|
            #![trigger after.blocks[block].workers.contains_key(holder)]
            0 <= block < state.blocks.len() && after.blocks[block].workers.contains_key(
                holder,
            ) implies state.blocks[block].workers.contains_key(holder) by {
            assert(next.blocks[block].workers.contains_key(holder));
        }
        assert forall|block: int, holder: WorkerWithDpRank|
            #![trigger state.blocks[block].workers.contains_key(holder)]
            0 <= block < state.blocks.len() && holder != worker
                && state.blocks[block].workers.contains_key(
                holder,
            ) implies after.blocks[block].workers.contains_key(holder)
            && after.blocks[block].workers[holder] == state.blocks[block].workers[holder] by {
            assert(next.blocks[block].workers.contains_key(holder));
        }
    }
}

/// Dropping blocks in full takes exactly the named hashes out of the worker's table, and no
/// other worker off any block.
pub proof fn law_dropped_blocks_are_unknown(
    state: WorkerState,
    worker: WorkerWithDpRank,
    hashes: Seq<ExternalSequenceBlockHash>,
)
    requires
        state.valid(),
        state.drop_blocks(worker, hashes).1,
    ensures
        state.drop_blocks(worker, hashes).0.table == state.table.remove_keys(
            Set::new(|hash: u64| hashes.contains(ExternalSequenceBlockHash(hash))),
        ),
        only_takes(state.blocks, state.drop_blocks(worker, hashes).0.blocks, worker),
    decreases hashes.len(),
{
    lemma_drop_only_takes(state, worker, hashes);
    let named = Set::new(|hash: u64| hashes.contains(ExternalSequenceBlockHash(hash)));
    if hashes.len() == 0 {
        assert(state.table.remove_keys(named) =~= state.table);
    } else {
        let hash = hashes[0].0;
        crate::kv_router::radix_state::lemma_without_valid(
            state.blocks,
            state.table[hash] as int,
            set![worker],
        );
        let rest = hashes.skip(1);
        law_dropped_blocks_are_unknown(state.drop_block(worker, hash), worker, rest);
        let fewer = Set::new(|hash: u64| rest.contains(ExternalSequenceBlockHash(hash)));
        assert forall|other: u64| named.contains(other) <==> fewer.contains(other) || other
            == hash by {
            let wanted = ExternalSequenceBlockHash(other);
            if hashes.contains(wanted) && other != hash {
                let i = choose|i: int| 0 <= i < hashes.len() && hashes[i] == wanted;
                assert(rest[i - 1] == wanted);
            }
            if rest.contains(wanted) {
                let i = choose|i: int| 0 <= i < rest.len() && rest[i] == wanted;
                assert(hashes[i + 1] == wanted);
            }
            assert(hashes[0] == ExternalSequenceBlockHash(hash));
        }
        assert(state.table.remove(hash).remove_keys(fewer) =~= state.table.remove_keys(named));
    }
}

/// A removed worker leaves no trace where its tables named all blocks that it held: no rank of it
/// is known or holds a block, and every other worker keeps its table and its blocks.
pub proof fn law_removed_worker_leaves_no_trace(tree: TreeState, worker_id: WorkerId)
    requires
        tree.valid(),
        tree.holders_tracked(),
        forall|worker: WorkerWithDpRank|
            worker.worker_id == worker_id ==> #[trigger] tree.indexed(worker),
    ensures
        ({
            let after = tree.forget(worker_id, false);
            &&& after.holders_tracked()
            &&& forall|worker: WorkerWithDpRank|
                worker.worker_id == worker_id ==> !#[trigger] after.lookup.contains_key(worker)
            &&& forall|block: int, worker: WorkerWithDpRank|
                #![trigger after.blocks[block].workers.contains_key(worker)]
                0 <= block < after.blocks.len() && worker.worker_id == worker_id
                    ==> !after.blocks[block].workers.contains_key(worker)
            &&& forall|worker: WorkerWithDpRank|
                worker.worker_id != worker_id && #[trigger] tree.lookup.contains_key(worker)
                    ==> after.lookup.contains_key(worker) && after.lookup[worker]
                    == tree.lookup[worker]
            &&& forall|block: int, worker: WorkerWithDpRank|
                #![trigger tree.blocks[block].workers.contains_key(worker)]
                0 <= block < tree.blocks.len() && worker.worker_id != worker_id
                    && tree.blocks[block].workers.contains_key(worker)
                    ==> after.blocks[block].workers.contains_key(worker)
                    && after.blocks[block].workers[worker] == tree.blocks[block].workers[worker]
        }),
{
    let after = tree.forget(worker_id, false);
    assert forall|block: int, worker: WorkerWithDpRank|
        0 <= block < after.blocks.len() && worker.worker_id == worker_id implies
        !#[trigger] after.blocks[block].workers.contains_key(worker) by {
        assert(tree.indexed(worker));
        if tree.blocks[block].workers.contains_key(worker) {
            assert(tree.knows(worker, block));
            assert(tree.ranks_at(worker_id, block).contains(worker));
        }
    }
    assert forall|block: int, worker: WorkerWithDpRank|
        0 <= block < after.blocks.len() && #[trigger] after.blocks[block].workers.contains_key(
            worker,
        ) implies after.lookup.contains_key(worker) by {
        assert(tree.blocks[block].workers.contains_key(worker));
    }
    assert forall|block: int, worker: WorkerWithDpRank|
        #![trigger tree.blocks[block].workers.contains_key(worker)]
        0 <= block < tree.blocks.len() && worker.worker_id != worker_id
            && tree.blocks[block].workers.contains_key(
            worker,
        ) implies after.blocks[block].workers.contains_key(worker)
        && after.blocks[block].workers[worker] == tree.blocks[block].workers[worker] by {
        assert(!tree.ranks_at(worker_id, block).contains(worker));
    }
}

/// A cleared worker stays known, each of its ranks with an empty table; the tables of other
/// workers do not change, and every holder stays known.
pub proof fn law_cleared_worker_stays_known(tree: TreeState, worker_id: WorkerId)
    requires
        tree.valid(),
        tree.holders_tracked(),
    ensures
        ({
            let after = tree.forget(worker_id, true);
            &&& after.holders_tracked()
            &&& after.lookup.dom() == tree.lookup.dom()
            &&& forall|worker: WorkerWithDpRank| #[trigger]
                tree.lookup.contains_key(worker) ==> after.lookup[worker] == if worker.worker_id
                    == worker_id {
                    Map::empty()
                } else {
                    tree.lookup[worker]
                }
        }),
{
    let after = tree.forget(worker_id, true);
    assert(after.lookup.dom() =~= tree.lookup.dom());
    assert forall|block: int, worker: WorkerWithDpRank|
        0 <= block < after.blocks.len() && #[trigger] after.blocks[block].workers.contains_key(
            worker,
        ) implies after.lookup.contains_key(worker) by {
        assert(tree.blocks[block].workers.contains_key(worker));
    }
}

/// Looking something up changes neither what is matched later nor who holds what.
pub proof fn law_match_changes_no_match(
    tree: TreeState,
    sequence: Seq<LocalBlockHash>,
    early_exit: bool,
    now: u64,
    window: Option<u64>,
    later: Seq<LocalBlockHash>,
    later_exit: bool,
)
    requires
        tree.valid(),
    ensures
        ({
            let after = tree.after_match(sequence, early_exit, now, window);
            &&& after.lookup == tree.lookup
            &&& after.matched(0, later, later_exit) == tree.matched(0, later, later_exit)
            &&& forall|blocks: Seq<int>, worker: WorkerWithDpRank|
                (forall|i: int| 0 <= i < blocks.len() ==> 0 <= #[trigger] blocks[i]
                    < tree.blocks.len()) ==> #[trigger] after.held_among(blocks, worker)
                    == tree.held_among(blocks, worker)
            &&& tree.holders_tracked() ==> after.holders_tracked()
        }),
{
    let after = tree.after_match(sequence, early_exit, now, window);
    lemma_matched_blocks(tree, 0, sequence, early_exit);
    match window {
        None => {},
        Some(window) => {
            lemma_use_blocks(tree.blocks, tree.matched(0, sequence, early_exit), now, window);
        },
    }
    assert forall|block: int| 0 <= block < tree.blocks.len() implies {
        &&& (#[trigger] after.blocks[block]).children == tree.blocks[block].children
        &&& after.blocks[block].workers == tree.blocks[block].workers
    } by {
    }
    lemma_same_links_same_match(tree, after, 0, later, later_exit);
    assert forall|blocks: Seq<int>, worker: WorkerWithDpRank|
        (forall|i: int| 0 <= i < blocks.len() ==> 0 <= #[trigger] blocks[i]
            < tree.blocks.len()) implies #[trigger] after.held_among(blocks, worker)
        == tree.held_among(blocks, worker) by {
        lemma_same_holders_same_count(tree, after, blocks, worker);
    }
    if tree.holders_tracked() {
        assert forall|block: int, worker: WorkerWithDpRank|
            0 <= block < after.blocks.len() && #[trigger] after.blocks[block].workers.contains_key(
                worker,
            ) implies after.lookup.contains_key(worker) by {
            assert(tree.blocks[block].workers.contains_key(worker));
        }
    }
}

proof fn lemma_same_links_same_match(
    tree: TreeState,
    after: TreeState,
    at: int,
    sequence: Seq<LocalBlockHash>,
    early_exit: bool,
)
    requires
        tree.valid(),
        after.blocks.len() == tree.blocks.len(),
        forall|block: int|
            0 <= block < tree.blocks.len() ==> {
                &&& (#[trigger] after.blocks[block]).children == tree.blocks[block].children
                &&& after.blocks[block].workers == tree.blocks[block].workers
            },
        0 <= at < tree.blocks.len(),
    ensures
        after.matched(at, sequence, early_exit) == tree.matched(at, sequence, early_exit),
    decreases sequence.len(),
{
    assert(after.blocks[at].children == tree.blocks[at].children);
    if sequence.len() > 0 && tree.blocks[at].children.contains_key(sequence[0].0) {
        let next = tree.blocks[at].children[sequence[0].0] as int;
        assert(after.blocks[next].workers == tree.blocks[next].workers);
        lemma_same_links_same_match(tree, after, next, sequence.skip(1), early_exit);
    }
}

proof fn lemma_same_holders_same_count(
    tree: TreeState,
    after: TreeState,
    blocks: Seq<int>,
    worker: WorkerWithDpRank,
)
    requires
        after.blocks.len() == tree.blocks.len(),
        forall|block: int|
            0 <= block < tree.blocks.len() ==> (#[trigger] after.blocks[block]).workers
                == tree.blocks[block].workers,
        forall|i: int| 0 <= i < blocks.len() ==> 0 <= #[trigger] blocks[i] < tree.blocks.len(),
    ensures
        after.held_among(blocks, worker) == tree.held_among(blocks, worker),
    decreases blocks.len(),
{
    if blocks.len() > 0 {
        assert(0 <= blocks[blocks.len() - 1] < tree.blocks.len());
        assert(after.blocks[blocks.last()].workers == tree.blocks[blocks.last()].workers);
        let shorter = blocks.drop_last();
        assert forall|i: int| 0 <= i < shorter.len() implies 0 <= #[trigger] shorter[i]
            < tree.blocks.len() by {
            assert(shorter[i] == blocks[i]);
        }
        lemma_same_holders_same_count(tree, after, shorter, worker);
    }
}

/// An early exit only ends a match sooner.
pub proof fn lemma_early_exit_is_prefix(tree: TreeState, at: int, sequence: Seq<LocalBlockHash>)
    ensures
        tree.matched(at, sequence, true).is_prefix_of(tree.matched(at, sequence, false)),
    decreases sequence.len(),
{
    if sequence.len() > 0 && tree.blocks[at].children.contains_key(sequence[0].0) {
        let next = tree.blocks[at].children[sequence[0].0] as int;
        lemma_early_exit_is_prefix(tree, next, sequence.skip(1));
    }
}

/// A shorter sequence only ends a match sooner.
proof fn lemma_shorter_is_prefix(
    tree: TreeState,
    at: int,
    sequence: Seq<LocalBlockHash>,
    len: int,
)
    requires
        0 <= len <= sequence.len(),
    ensures
        tree.matched(at, sequence.take(len), false).is_prefix_of(
            tree.matched(at, sequence, false),
        ),
    decreases sequence.len(),
{
    let shorter = sequence.take(len);
    if len > 0 && tree.blocks[at].children.contains_key(sequence[0].0) {
        let next = tree.blocks[at].children[sequence[0].0] as int;
        lemma_shorter_is_prefix(tree, next, sequence.skip(1), len - 1);
        assert(shorter.skip(1) =~= sequence.skip(1).take(len - 1));
    }
}

/// No worker scores more than the sequence has blocks, and neither an early exit nor a shorter
/// sequence gives it a larger score.
pub proof fn law_scores_grow_with_the_sequence(
    tree: TreeState,
    sequence: Seq<LocalBlockHash>,
    len: int,
    worker: WorkerWithDpRank,
)
    requires
        tree.valid(),
        0 <= len <= sequence.len(),
    ensures
        tree.held_among(tree.matched(0, sequence, true), worker) <= tree.held_among(
            tree.matched(0, sequence, false),
            worker,
        ),
        tree.held_among(tree.matched(0, sequence, false), worker) <= sequence.len(),
        tree.held_among(tree.matched(0, sequence.take(len), false), worker) <= tree.held_among(
            tree.matched(0, sequence, false),
            worker,
        ),
{
    let whole = tree.matched(0, sequence, false);
    let early = tree.matched(0, sequence, true);
    let shorter = tree.matched(0, sequence.take(len), false);
    lemma_early_exit_is_prefix(tree, 0, sequence);
    lemma_shorter_is_prefix(tree, 0, sequence, len);
    assert(whole.take(early.len() as int) =~= early);
    assert(whole.take(shorter.len() as int) =~= shorter);
    lemma_held_among_first(tree, whole, early.len() as int, worker);
    lemma_held_among_first(tree, whole, shorter.len() as int, worker);
    lemma_held_among(tree, whole, worker);
    lemma_matched_blocks(tree, 0, sequence, false);
}

/// A match that is repeated gives the same scores and sizes.
pub proof fn law_repeated_match_scores_the_same(
    tree: TreeState,
    sequence: Seq<LocalBlockHash>,
    early_exit: bool,
    now: u64,
    window: Option<u64>,
    scores: Map<WorkerWithDpRank, u32>,
    sizes: Map<WorkerWithDpRank, usize>,
    scores_again: Map<WorkerWithDpRank, u32>,
    sizes_again: Map<WorkerWithDpRank, usize>,
)
    requires
        tree.valid(),
        tree.scores_of(tree.matched(0, sequence, early_exit), scores, sizes),
        ({
            let after = tree.after_match(sequence, early_exit, now, window);
            after.scores_of(after.matched(0, sequence, early_exit), scores_again, sizes_again)
        }),
    ensures
        scores_again == scores,
        sizes_again == sizes,
{
    let after = tree.after_match(sequence, early_exit, now, window);
    let found = tree.matched(0, sequence, early_exit);
    law_match_changes_no_match(tree, sequence, early_exit, now, window, sequence, early_exit);
    lemma_matched_blocks(tree, 0, sequence, early_exit);
    assert forall|worker: WorkerWithDpRank|
        scores_again.contains_key(worker) <==> scores.contains_key(worker) by {
        assert(after.held_among(found, worker) == tree.held_among(found, worker));
    }
    assert forall|worker: WorkerWithDpRank| #[trigger]
        scores.contains_key(worker) implies scores_again[worker] == scores[worker] by {
        assert(scores_again.contains_key(worker));
        assert(after.held_among(found, worker) == tree.held_among(found, worker));
    }
    assert(scores_again =~= scores);
    assert(sizes_again.dom() =~= sizes.dom());
    assert forall|worker: WorkerWithDpRank| #[trigger]
        sizes.contains_key(worker) implies sizes_again[worker] == sizes[worker] by {
        assert(sizes_again.contains_key(worker));
    }
    assert(sizes_again =~= sizes);
}

} // verus!
