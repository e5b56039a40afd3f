//! What each operation on the prefix tree does to the tables of workers and to matches.
use crate::kv_router::indexer::{EventLabels, IndexState};
use crate::kv_router::overlap::{score_of, times_listed, OverlapScores};
use crate::kv_router::protocols::{
    ExternalSequenceBlockHash, KvCacheEventData, KvCacheStoredBlockData, LocalBlockHash, WorkerId,
    WorkerWithDpRank,
};
use crate::kv_router::radix_dump::{
    hashes_in_order, lemma_hashes_listed, lemma_workers_listed, stores, workers_in_order, Visit,
};
use crate::kv_router::radix_state::{
    lemma_hold_valid, lemma_link_valid, lemma_store_valid, recent, KvCacheEventError, TreeState,
    WorkerState,
};
use crate::kv_router::radix_tree::{RadixBlock, RadixTree, RouterEvent};
use vstd::prelude::*;

verus! {

/// Whatever an event says, its worker is known afterwards under its id and the rank of the event,
/// and no other worker's table changes unless everything is cleared.
pub proof fn law_events_are_about_their_worker(
    tree: &mut RadixTree,
    event: RouterEvent,
    result: Result<(), KvCacheEventError>,
    other: WorkerWithDpRank,
)
    requires
        call_ensures(RadixTree::apply_event, (tree, event), result),
    ensures
        final(tree)@.lookup.contains_key(
            WorkerWithDpRank { worker_id: event.worker_id, dp_rank: event.event.dp_rank },
        ),
        other.worker_id != event.worker_id ==> final(tree)@.lookup.contains_key(other)
            == old(tree)@.lookup.contains_key(other) && (old(tree)@.lookup.contains_key(other)
            ==> final(tree)@.lookup[other] == old(tree)@.lookup[other]),
        !(event.event.data is Cleared) && other != (WorkerWithDpRank {
            worker_id: event.worker_id,
            dp_rank: event.event.dp_rank,
        }) ==> final(tree)@.lookup.contains_key(other) == old(tree)@.lookup.contains_key(other) && (
        old(tree)@.lookup.contains_key(other) ==> final(tree)@.lookup[other]
            == old(tree)@.lookup[other]),
{
}

/// A store event fails for want of its parent exactly where it names one that its worker does not
/// know; nothing is stored then.
pub proof fn law_unknown_parents_are_refused(
    tree: &mut RadixTree,
    event: RouterEvent,
    result: Result<(), KvCacheEventError>,
)
    requires
        event.event.data is Stored,
        call_ensures(RadixTree::apply_event, (tree, event), result),
    ensures
        ({
            let worker = WorkerWithDpRank {
                worker_id: event.worker_id,
                dp_rank: event.event.dp_rank,
            };
            &&& result == Err::<(), KvCacheEventError>(KvCacheEventError::ParentBlockNotFound) <==> (
            event.event.data->Stored_0.parent_hash matches Some(parent) && !(
            old(tree)@.lookup.contains_key(worker) && old(tree)@.lookup[worker].contains_key(
                parent.0,
            )))
            &&& result != Err::<(), KvCacheEventError>(KvCacheEventError::BlockNotFound)
            &&& result == Err::<(), KvCacheEventError>(KvCacheEventError::ParentBlockNotFound)
                ==> final(tree)@.blocks == old(tree)@.blocks
        }),
{
}

/// What storing a run adds to a worker's table.
pub proof fn lemma_stored_table(
    state: WorkerState,
    worker: WorkerWithDpRank,
    parent: int,
    run: Seq<KvCacheStoredBlockData>,
    above: Set<int>,
    hash: u64,
)
    ensures
        ({
            let (after, ok) = state.store(worker, parent, run, above);
            &&& ok ==> (after.table.contains_key(hash) <==> state.table.contains_key(hash) || exists|
                i: int,
            |
                0 <= i < run.len() && (#[trigger] run[i]).block_hash.0 == hash)
            &&& state.table.contains_key(hash) ==> after.table.contains_key(hash)
            &&& after.table.contains_key(hash) && !state.table.contains_key(hash) ==> exists|i: int|
                0 <= i < run.len() && (#[trigger] run[i]).block_hash.0 == hash
        }),
    decreases run.len(),
{
    if run.len() > 0 {
        let child = state.child_for(parent, run[0]) as int;
        let linked = state.link(parent, run[0]);
        let chain = above.insert(parent);
        if !chain.contains(child) {
            let held = linked.hold(worker, child, run[0].block_hash);
            let rest = run.skip(1);
            lemma_stored_table(held, worker, child, rest, chain, hash);
            assert forall|i: int| 0 <= i < rest.len() implies #[trigger] rest[i] == run[i + 1] by {}
            if exists|i: int| 0 <= i < rest.len() && (#[trigger] rest[i]).block_hash.0 == hash {
                let i = choose|i: int|
                    0 <= i < rest.len() && (#[trigger] rest[i]).block_hash.0 == hash;
                assert(run[i + 1].block_hash.0 == hash);
            }
            if exists|i: int| 0 <= i < run.len() && (#[trigger] run[i]).block_hash.0 == hash {
                let i = choose|i: int| 0 <= i < run.len() && (#[trigger] run[i]).block_hash.0 == hash;
                if i > 0 {
                    assert(rest[i - 1].block_hash.0 == hash);
                }
            }
        }
    }
}

/// After a store event that went well its worker knows exactly the hashes that it knew before and
/// those of the blocks stored; one that fails makes it know no other hash either, and forget none.
pub proof fn law_stored_blocks_become_known(
    tree: &mut RadixTree,
    event: RouterEvent,
    result: Result<(), KvCacheEventError>,
    hash: u64,
)
    requires
        event.event.data is Stored,
        call_ensures(RadixTree::apply_event, (tree, event), result),
    ensures
        ({
            let worker = WorkerWithDpRank {
                worker_id: event.worker_id,
                dp_rank: event.event.dp_rank,
            };
            let run = event.event.data->Stored_0.blocks@;
            let knew = old(tree)@.lookup.contains_key(worker)
                && old(tree)@.lookup[worker].contains_key(hash);
            let named = exists|i: int|
                0 <= i < run.len() && (#[trigger] run[i]).block_hash.0 == hash;
            &&& final(tree)@.lookup.contains_key(worker)
            &&& result is Ok ==> (final(tree)@.lookup[worker].contains_key(hash) <==> knew || named)
            &&& knew ==> final(tree)@.lookup[worker].contains_key(hash)
            &&& final(tree)@.lookup[worker].contains_key(hash) ==> knew || named
        }),
{
    let worker = WorkerWithDpRank { worker_id: event.worker_id, dp_rank: event.event.dp_rank };
    let known = old(tree)@.track(worker);
    let store = event.event.data->Stored_0;
    if let Some(parent) = known.store_parent(worker, store.parent_hash) {
        lemma_stored_table(
            known.of_worker(worker),
            worker,
            parent,
            store.blocks@,
            Set::empty(),
            hash,
        );
    }
}

proof fn lemma_dropped(
    state: WorkerState,
    worker: WorkerWithDpRank,
    hashes: Seq<ExternalSequenceBlockHash>,
) -> (done: int)
    ensures
        0 <= done <= hashes.len(),
        state.drop_blocks(worker, hashes).1 <==> done == hashes.len(),
        forall|i: int| 0 <= i < done ==> state.table.contains_key((#[trigger] hashes[i]).0),
        forall|hash: u64| #[trigger]
            state.drop_blocks(worker, hashes).0.table.contains_key(hash) <==> (
            state.table.contains_key(hash) && forall|i: int|
                0 <= i < done ==> (#[trigger] hashes[i]).0 != hash),
        done < hashes.len() ==> !state.drop_blocks(worker, hashes).0.table.contains_key(
            hashes[done].0,
        ),
    decreases hashes.len(),
{
    if hashes.len() == 0 || !state.table.contains_key(hashes[0].0) {
        0
    } else {
        let next = state.drop_block(worker, hashes[0].0);
        let rest = hashes.skip(1);
        let done = lemma_dropped(next, worker, rest) + 1;
        assert forall|i: int| 0 <= i < done implies state.table.contains_key(
            (#[trigger] hashes[i]).0,
        ) by {
            if i > 0 {
                assert(rest[i - 1] == hashes[i]);
            }
        }
        assert forall|hash: u64| #[trigger]
            state.drop_blocks(worker, hashes).0.table.contains_key(hash) <==> (
        state.table.contains_key(hash) && forall|i: int|
            0 <= i < done ==> (#[trigger] hashes[i]).0 != hash) by {
            if forall|i: int| 0 <= i < done ==> (#[trigger] hashes[i]).0 != hash {
                assert(hashes[0].0 != hash);
                assert forall|i: int| 0 <= i < done - 1 implies (#[trigger] rest[i]).0 != hash by {
                    assert(rest[i] == hashes[i + 1]);
                }
            }
            if forall|i: int| 0 <= i < done - 1 ==> (#[trigger] rest[i]).0 != hash {
                if hashes[0].0 != hash {
                    assert forall|i: int| 0 <= i < done implies (#[trigger] hashes[i]).0 != hash by {
                        if i > 0 {
                            assert(rest[i - 1] == hashes[i]);
                        }
                    }
                }
            }
        }
        if done < hashes.len() {
            assert(rest[done - 1] == hashes[done]);
        }
        done
    }
}

/// A remove event takes the named hashes from its worker one after the other, up to the first that
/// the worker does not know, at which it fails; it fails only there. All other hashes stay known.
pub proof fn law_removed_blocks_are_forgotten_in_order(
    tree: &mut RadixTree,
    event: RouterEvent,
    result: Result<(), KvCacheEventError>,
) -> (done: int)
    requires
        event.event.data is Removed,
        call_ensures(RadixTree::apply_event, (tree, event), result),
    ensures
        ({
            let worker = WorkerWithDpRank {
                worker_id: event.worker_id,
                dp_rank: event.event.dp_rank,
            };
            let hashes = event.event.data->Removed_0.block_hashes@;
            &&& result is Ok || result == Err::<(), KvCacheEventError>(
                KvCacheEventError::BlockNotFound,
            )
            &&& 0 <= done <= hashes.len()
            &&& result is Ok <==> done == hashes.len()
            &&& forall|i: int|
                0 <= i < done ==> old(tree)@.lookup.contains_key(worker)
                    && old(tree)@.lookup[worker].contains_key((#[trigger] hashes[i]).0)
            &&& forall|hash: u64| #[trigger]
                final(tree)@.lookup[worker].contains_key(hash) <==> (
                old(tree)@.lookup.contains_key(worker) && old(tree)@.lookup[worker].contains_key(
                    hash,
                ) && !hashes.take(done).contains(ExternalSequenceBlockHash(hash)))
            &&& done < hashes.len() ==> !final(tree)@.lookup[worker].contains_key(hashes[done].0)
        }),
{
    let worker = WorkerWithDpRank { worker_id: event.worker_id, dp_rank: event.event.dp_rank };
    let hashes = event.event.data->Removed_0.block_hashes@;
    let known = old(tree)@.track(worker);
    let state = known.of_worker(worker);
    let done = lemma_dropped(state, worker, hashes);
    assert forall|hash: u64| #[trigger]
        final(tree)@.lookup[worker].contains_key(hash) <==> (old(tree)@.lookup.contains_key(worker)
        && old(tree)@.lookup[worker].contains_key(hash) && !hashes.take(done).contains(
        ExternalSequenceBlockHash(hash),
    )) by {
        let named = hashes.take(done);
        if named.contains(ExternalSequenceBlockHash(hash)) {
            let i = choose|i: int|
                0 <= i < named.len() && named[i] == ExternalSequenceBlockHash(hash);
            assert(hashes[i].0 == hash);
        }
        if exists|i: int| 0 <= i < done && (#[trigger] hashes[i]).0 == hash {
            let i = choose|i: int| 0 <= i < done && (#[trigger] hashes[i]).0 == hash;
            assert(named[i] == ExternalSequenceBlockHash(hash));
        }
        assert(state.drop_blocks(worker, hashes).0.table.contains_key(hash)
            == final(tree)@.lookup[worker].contains_key(hash));
    }
    done
}

/// Clearing leaves every rank of the worker known, with no block, and always goes well.
pub proof fn law_cleared_workers_know_no_block(
    tree: &mut RadixTree,
    event: RouterEvent,
    result: Result<(), KvCacheEventError>,
    worker: WorkerWithDpRank,
)
    requires
        event.event.data is Cleared,
        call_ensures(RadixTree::apply_event, (tree, event), result),
        worker.worker_id == event.worker_id,
    ensures
        result is Ok,
        old(tree)@.lookup.contains_key(worker) ==> final(tree)@.lookup.contains_key(worker),
        final(tree)@.lookup.contains_key(worker) ==> final(tree)@.lookup[worker] == Map::<
            u64,
            usize,
        >::empty(),
{
}

/// Removing a worker makes all its ranks unknown and leaves the tables of all others as they are;
/// clearing it keeps its ranks known, with no block.
pub proof fn law_removed_and_cleared_workers(
    tree: &mut RadixTree,
    cleared: &mut RadixTree,
    worker_id: WorkerId,
    worker: WorkerWithDpRank,
)
    requires
        call_ensures(RadixTree::remove_worker, (tree, worker_id), ()),
        call_ensures(RadixTree::clear_all_blocks, (cleared, worker_id), ()),
    ensures
        final(tree)@.lookup.contains_key(worker) <==> old(tree)@.lookup.contains_key(worker)
            && worker.worker_id != worker_id,
        final(tree)@.lookup.contains_key(worker) ==> final(tree)@.lookup[worker]
            == old(tree)@.lookup[worker],
        final(cleared)@.lookup.contains_key(worker) <==> old(cleared)@.lookup.contains_key(worker),
        final(cleared)@.lookup.contains_key(worker) && worker.worker_id != worker_id
            ==> final(cleared)@.lookup[worker] == old(cleared)@.lookup[worker],
        final(cleared)@.lookup.contains_key(worker) && worker.worker_id == worker_id
            ==> final(cleared)@.lookup[worker] == Map::<u64, usize>::empty(),
{
}

proof fn lemma_matched_path(
    tree: TreeState,
    at: int,
    sequence: Seq<LocalBlockHash>,
    early_exit: bool,
    i: int,
)
    ensures
        ({
            let path = tree.matched(at, sequence, early_exit);
            let above = if i == 0 {
                at
            } else {
                path[i - 1]
            };
            let end = if path.len() == 0 {
                at
            } else {
                path.last()
            };
            &&& path.len() <= sequence.len()
            &&& 0 <= i < path.len() ==> tree.blocks[above].children.contains_key(sequence[i].0)
                && path[i] == tree.blocks[above].children[sequence[i].0]
            &&& 0 <= i < path.len() - 1 && early_exit ==> tree.blocks[path[i]].workers.len() != 1
            &&& path.len() < sequence.len() ==> !tree.blocks[end].children.contains_key(
                sequence[path.len() as int].0,
            ) || (early_exit && path.len() > 0 && tree.blocks[end].workers.len() == 1)
        }),
    decreases sequence.len(),
{
    let path = tree.matched(at, sequence, early_exit);
    if sequence.len() == 0 || !tree.blocks[at].children.contains_key(sequence[0].0) {
    } else {
        let next = tree.blocks[at].children[sequence[0].0] as int;
        if early_exit && tree.blocks[next].workers.len() == 1 {
        } else {
            let rest = sequence.skip(1);
            lemma_matched_path(tree, next, rest, early_exit, i - 1);
            let below = tree.matched(next, rest, early_exit);
            if 0 < i < path.len() {
                assert(path[i] == below[i - 1]);
                assert(rest[i - 1] == sequence[i]);
                if i > 1 {
                    assert(path[i - 1] == below[i - 2]);
                }
            }
            if below.len() > 0 {
                assert(path.last() == below.last());
            }
            if path.len() < sequence.len() {
                assert(rest[below.len() as int] == sequence[path.len() as int]);
            }
        }
    }
}

proof fn lemma_held_among(tree: TreeState, blocks: Seq<int>, worker: WorkerWithDpRank)
    ensures
        tree.held_among(blocks, worker) == blocks.filter(
            |block: int| tree.blocks[block].workers.contains_key(worker),
        ).len(),
    decreases blocks.len(),
{
    reveal(Seq::filter);
    if blocks.len() > 0 {
        lemma_held_among(tree, blocks.drop_last(), worker);
    }
}

/// A match walks down from the root, block by block, each the child of the one before under the
/// hash of the next tokens. It ends with the sequence, where there is no such child, or, if it may
/// end early, at the first block that a single worker holds. A worker scores one for each block
/// on the way that it holds, is left out where it holds none, and is told with the size of its
/// table.
pub proof fn law_matches_walk_down_from_the_root(
    tree: &mut RadixTree,
    sequence: &[LocalBlockHash],
    early_exit: bool,
    now: u64,
    found: OverlapScores,
    worker: WorkerWithDpRank,
    i: int,
) -> (path: Seq<int>)
    requires
        call_ensures(RadixTree::try_find_matches_at, (tree, sequence, early_exit, now), Some(found)),
    ensures
        ({
            let blocks = old(tree)@.blocks;
            let above = if i == 0 {
                0
            } else {
                path[i - 1]
            };
            let end = if path.len() == 0 {
                0
            } else {
                path.last()
            };
            let score = path.filter(
                |block: int| old(tree)@.blocks[block].workers.contains_key(worker),
            ).len();
            &&& path.len() <= sequence@.len()
            &&& 0 <= i < path.len() ==> blocks[above].children.contains_key(sequence@[i].0)
                && path[i] == blocks[above].children[sequence@[i].0]
            &&& 0 <= i < path.len() - 1 && early_exit ==> blocks[path[i]].workers.len() != 1
            &&& path.len() < sequence@.len() ==> !blocks[end].children.contains_key(
                sequence@[path.len() as int].0,
            ) || (early_exit && path.len() > 0 && blocks[end].workers.len() == 1)
            &&& found.scores@.contains_key(worker) <==> score > 0
            &&& found.scores@.contains_key(worker) ==> found.scores@[worker] == score
            &&& found.tree_sizes@.contains_key(worker) <==> score > 0
            &&& found.tree_sizes@.contains_key(worker) ==> found.tree_sizes@[worker]
                == old(tree)@.lookup[worker].len()
        }),
{
    let path = old(tree)@.matched(0, sequence@, early_exit);
    lemma_matched_path(old(tree)@, 0, sequence@, early_exit, i);
    lemma_held_among(old(tree)@, path, worker);
    assert(found.tree_sizes@.dom().contains(worker) <==> found.scores@.dom().contains(worker));
    path
}

/// Uses that lie further back than the window are dropped from the front, up to the first that does
/// not.
pub proof fn law_old_uses_are_dropped(uses: Seq<u64>, now: u64, window: u64)
    ensures
        ({
            let live = recent(uses, now, window);
            &&& live.len() <= uses.len()
            &&& live == uses.skip(uses.len() - live.len())
            &&& forall|i: int|
                0 <= i < uses.len() - live.len() ==> now - #[trigger] uses[i] > window
            &&& live.len() > 0 ==> now - live[0] <= window
        }),
    decreases uses.len(),
{
    if uses.len() > 0 && now - uses[0] > window {
        let rest = uses.skip(1);
        law_old_uses_are_dropped(rest, now, window);
        let live = recent(uses, now, window);
        assert(rest.skip(rest.len() - live.len()) =~= uses.skip(uses.len() - live.len()));
        assert forall|i: int| 0 <= i < uses.len() - live.len() implies now - #[trigger] uses[i]
            > window by {
            if i > 0 {
                assert(rest[i - 1] == uses[i]);
            }
        }
    } else {
        assert(uses.skip(0) =~= uses);
    }
}

/// A tree that does not keep uses tells no frequencies and stays as it is when something is looked
/// up.
pub proof fn law_no_window_no_frequencies(
    tree: &mut RadixTree,
    sequence: &[LocalBlockHash],
    early_exit: bool,
    now: u64,
    found: OverlapScores,
)
    requires
        old(tree).expiration() is None,
        call_ensures(RadixTree::try_find_matches_at, (tree, sequence, early_exit, now), Some(found)),
    ensures
        found.frequencies@.len() == 0,
        final(tree)@ == old(tree)@,
{
}

/// The first block of a match is used at the time of the match; its frequency is the number of
/// earlier uses that are not too old, and is told first where there are any.
pub proof fn law_matches_are_uses(
    tree: &mut RadixTree,
    sequence: &[LocalBlockHash],
    now: u64,
    window: u64,
    found: OverlapScores,
)
    requires
        old(tree).wf(),
        old(tree).expiration() == Some(window),
        sequence@.len() == 1,
        old(tree)@.blocks[0].children.contains_key(sequence@[0].0),
        call_ensures(RadixTree::try_find_matches_at, (tree, sequence, false, now), Some(found)),
    ensures
        ({
            let block = old(tree)@.blocks[0].children[sequence@[0].0] as int;
            let before = old(tree)@.blocks[block].uses;
            let after = final(tree)@.blocks[block].uses;
            &&& after.len() > 0 && after.last() == now
            &&& after.drop_last() == before.skip(before.len() - (after.len() - 1))
            &&& forall|i: int|
                0 <= i < before.len() - (after.len() - 1) ==> now - #[trigger] before[i] > window
            &&& after.len() > 1 ==> now - after[0] <= window && found.frequencies@ == seq![
                (after.len() - 1) as usize,
            ]
            &&& after.len() == 1 ==> found.frequencies@.len() == 0
        }),
{
    let block = old(tree)@.blocks[0].children[sequence@[0].0] as int;
    let before = old(tree)@.blocks[block].uses;
    let path = old(tree)@.matched(0, sequence@, false);
    let rest = sequence@.skip(1);
    assert(old(tree)@.matched(block, rest, false) == Seq::<int>::empty());
    assert(path =~= seq![block]);
    assert(path.drop_last() =~= Seq::<int>::empty());
    let (unused, none) = crate::kv_router::radix_state::use_blocks(
        old(tree)@.blocks,
        path.drop_last(),
        now,
        window,
    );
    assert(unused == old(tree)@.blocks && none == Seq::<usize>::empty());
    law_old_uses_are_dropped(before, now, window);
    let after = final(tree)@.blocks[block].uses;
    let live = recent(before, now, window);
    assert(0 <= block < old(tree)@.blocks.len());
    assert(after == live.push(now));
    assert(after.drop_last() =~= live);
    if live.len() > 0 {
        assert(found.frequencies@ =~= seq![live.len() as usize]);
    }
}

/// The size of a tree is the number of hashes that its workers know, all told.
pub proof fn law_size_counts_known_hashes(tree: &RadixTree, size: usize)
    requires
        call_ensures(RadixTree::current_size, (tree,), size),
        Set::new(
            |entry: (WorkerWithDpRank, u64)|
                tree@.lookup.contains_key(entry.0) && tree@.lookup[entry.0].contains_key(entry.1),
        ).len() <= usize::MAX,
    ensures
        size == Set::new(
            |entry: (WorkerWithDpRank, u64)|
                tree@.lookup.contains_key(entry.0) && tree@.lookup[entry.0].contains_key(entry.1),
        ).len(),
{
    assert(tree@.entries() =~= Set::new(
        |entry: (WorkerWithDpRank, u64)|
            tree@.lookup.contains_key(entry.0) && tree@.lookup[entry.0].contains_key(entry.1),
    ));
}

/// A known hash leads to the block of its worker's table, and the number of known hashes is the
/// size of that table.
pub proof fn law_known_hashes_lead_to_their_blocks<'a>(
    tree: &'a RadixTree,
    worker: &WorkerWithDpRank,
    hash: ExternalSequenceBlockHash,
    block: Option<&'a RadixBlock>,
    size: Option<usize>,
)
    requires
        call_ensures(RadixTree::known_block, (tree, worker, hash), block),
        call_ensures(RadixTree::worker_size, (tree, worker), size),
    ensures
        block is Some <==> tree@.lookup.contains_key(*worker) && tree@.lookup[*worker].contains_key(
            hash.0,
        ),
        block matches Some(block) ==> block@ == tree@.blocks[tree@.lookup[*worker][hash.0] as int],
        size is Some <==> tree@.lookup.contains_key(*worker),
        size matches Some(size) ==> size == tree@.lookup[*worker].len(),
{
}

/// The workers of a tree are those of which some rank is known, each told once, by ascending id.
pub proof fn law_workers_are_those_known(tree: &RadixTree, ids: Vec<WorkerId>, id: WorkerId)
    requires
        call_ensures(RadixTree::get_workers, (tree,), ids),
    ensures
        ids@.contains(id) <==> exists|rank: u32| #[trigger]
            tree@.lookup.contains_key(WorkerWithDpRank { worker_id: id, dp_rank: rank }),
        forall|i: int, j: int| 0 <= i < j < ids@.len() ==> ids@[i] < ids@[j],
{
    if ids@.contains(id) {
        let worker = choose|worker: WorkerWithDpRank| #[trigger]
            tree@.lookup.contains_key(worker) && worker.worker_id == id;
        assert(worker == (WorkerWithDpRank { worker_id: id, dp_rank: worker.dp_rank }));
        assert(tree@.lookup.contains_key(
            WorkerWithDpRank { worker_id: id, dp_rank: worker.dp_rank },
        ));
    }
    if exists|rank: u32| #[trigger]
        tree@.lookup.contains_key(WorkerWithDpRank { worker_id: id, dp_rank: rank }) {
        let rank = choose|rank: u32| #[trigger]
            tree@.lookup.contains_key(WorkerWithDpRank { worker_id: id, dp_rank: rank });
        let worker = WorkerWithDpRank { worker_id: id, dp_rank: rank };
        assert(tree@.lookup.contains_key(worker) && worker.worker_id == id);
    }
}

proof fn lemma_times_listed(list: Seq<WorkerWithDpRank>, worker: WorkerWithDpRank)
    ensures
        times_listed(list, worker) == list.filter(|other: WorkerWithDpRank| other == worker).len(),
        times_listed(list, worker) > 0 <==> list.contains(worker),
    decreases list.len(),
{
    reveal(Seq::filter);
    if list.len() > 0 {
        lemma_times_listed(list.drop_last(), worker);
        crate::seqs::lemma_push_contains(list.drop_last(), list.last(), worker);
        assert(list.drop_last().push(list.last()) =~= list);
    }
}

/// Each time a worker is listed it scores one more; whoever is not listed scores as before.
pub proof fn law_listed_workers_score_once_each_time(
    scores: &mut OverlapScores,
    workers: &[WorkerWithDpRank],
    worker: WorkerWithDpRank,
)
    requires
        call_ensures(OverlapScores::update_scores, (scores, workers), ()),
    ensures
        ({
            let before = if old(scores).scores@.contains_key(worker) {
                old(scores).scores@[worker] as int
            } else {
                0
            };
            let times = workers@.filter(|other: WorkerWithDpRank| other == worker).len();
            &&& final(scores).scores@.contains_key(worker) <==> old(scores).scores@.contains_key(
                worker,
            ) || times > 0
            &&& final(scores).scores@.contains_key(worker) ==> final(scores).scores@[worker]
                == before + times
        }),
        final(scores).tree_sizes == old(scores).tree_sizes,
        final(scores).frequencies == old(scores).frequencies,
{
    lemma_times_listed(workers@, worker);
    assert(score_of(final(scores).scores@, worker) == score_of(old(scores).scores@, worker)
        + times_listed(workers@, worker));
}

/// Frequencies are told in the order they are added, but for those of blocks that were not used.
pub proof fn law_frequencies_of_unused_blocks_are_not_told(
    scores: &mut OverlapScores,
    frequency: usize,
)
    requires
        call_ensures(OverlapScores::add_frequency, (scores, frequency), ()),
    ensures
        frequency == 0 ==> final(scores).frequencies@ == old(scores).frequencies@,
        frequency > 0 ==> final(scores).frequencies@.len() == old(scores).frequencies@.len() + 1
            && final(scores).frequencies@.last() == frequency
            && final(scores).frequencies@.drop_last() == old(scores).frequencies@,
        final(scores).scores == old(scores).scores,
{
    if frequency > 0 {
        assert(final(scores).frequencies@.drop_last() =~= old(scores).frequencies@);
    }
}

/// Taking a block from its worker takes that worker off the block, and cuts off what lies below it
/// once nobody holds it any more; no other block changes.
pub proof fn law_blocks_that_nobody_holds_lose_their_children(
    tree: &mut RadixTree,
    event: RouterEvent,
    result: Result<(), KvCacheEventError>,
    hash: ExternalSequenceBlockHash,
    other: int,
    holder: WorkerWithDpRank,
)
    requires
        old(tree).wf(),
        event.event.data matches KvCacheEventData::Removed(remove) && remove.block_hashes@ == seq![
            hash,
        ],
        call_ensures(RadixTree::apply_event, (tree, event), result),
        result is Ok,
        0 <= other < old(tree)@.blocks.len(),
    ensures
        ({
            let worker = WorkerWithDpRank {
                worker_id: event.worker_id,
                dp_rank: event.event.dp_rank,
            };
            let block = old(tree)@.lookup[worker][hash.0] as int;
            let before = old(tree)@.blocks[block];
            let after = final(tree)@.blocks[block];
            &&& after.workers.contains_key(holder) <==> before.workers.contains_key(holder)
                && holder != worker
            &&& after.workers.contains_key(holder) ==> after.children == before.children
            &&& (forall|h: WorkerWithDpRank| #[trigger]
                before.workers.contains_key(h) ==> h == worker) ==> after.children == Map::<
                u64,
                usize,
            >::empty()
            &&& after.uses == before.uses
            &&& other != block ==> final(tree)@.blocks[other] == old(tree)@.blocks[other]
            &&& final(tree)@.blocks.len() == old(tree)@.blocks.len()
        }),
{
    let worker = WorkerWithDpRank { worker_id: event.worker_id, dp_rank: event.event.dp_rank };
    let known = old(tree)@.track(worker);
    let state = known.of_worker(worker);
    let remove = event.event.data->Removed_0;
    let hashes = remove.block_hashes@;
    assert(hashes.len() == 1 && hashes[0] == hash);
    assert(hashes.skip(1).len() == 0);
    let dropped = state.drop_block(worker, hash.0);
    assert(dropped.drop_blocks(worker, hashes.skip(1)) == (dropped, true));
    let block = old(tree)@.lookup[worker][hash.0] as int;
    let before = old(tree)@.blocks[block];
    let left = before.workers.remove_keys(set![worker]);
    assert(0 <= block < old(tree)@.blocks.len());
    if left.contains_key(holder) {
        assert(left != Map::<WorkerWithDpRank, ExternalSequenceBlockHash>::empty());
    }
    if forall|h: WorkerWithDpRank| #[trigger] before.workers.contains_key(h) ==> h == worker {
        assert(left =~= Map::<WorkerWithDpRank, ExternalSequenceBlockHash>::empty());
    }
}

/// A worker that is removed or cleared no longer holds the blocks that its tables name, and nobody
/// else lets go of any. A block that somebody holds keeps its children, and so does one that none of
/// its ranks named; a block that was named and that nobody holds any more has none.
pub proof fn law_forgotten_workers_hold_nothing_they_named(
    tree: &mut RadixTree,
    worker_id: WorkerId,
    block: int,
    holder: WorkerWithDpRank,
    rank: WorkerWithDpRank,
)
    requires
        call_ensures(RadixTree::remove_worker, (tree, worker_id), ()),
        0 <= block < old(tree)@.blocks.len(),
    ensures
        ({
            let before = old(tree)@.blocks[block];
            let after = final(tree)@.blocks[block];
            &&& final(tree)@.blocks.len() == old(tree)@.blocks.len()
            &&& after.workers.contains_key(holder) <==> before.workers.contains_key(holder) && !(
            holder.worker_id == worker_id && old(tree)@.lookup.contains_key(holder) && exists|
                hash: u64,
            | #[trigger]
                old(tree)@.lookup[holder].contains_key(hash) && old(tree)@.lookup[holder][hash]
                    == block)
            &&& after.workers.contains_key(holder) ==> after.children == before.children
            &&& after.children == before.children || after.children == Map::<u64, usize>::empty()
            &&& after.uses == before.uses
        }),
{
    let before = old(tree)@.blocks[block];
    let ranks = old(tree)@.ranks_at(worker_id, block);
    assert(ranks.contains(holder) <==> holder.worker_id == worker_id && old(tree)@.knows(
        holder,
        block,
    ));
    if ranks == Set::<WorkerWithDpRank>::empty() {
        assert(!ranks.contains(holder));
    } else {
        let left = before.workers.remove_keys(ranks);
        if left.contains_key(holder) {
            assert(left != Map::<WorkerWithDpRank, ExternalSequenceBlockHash>::empty());
        }
    }
}

/// Where a sequence is matched to its end, its frequencies are those of the sequence without its
/// last block, followed by the number of earlier uses of that block that are not too old, if there
/// are any; the block is then used at the time of the match.
pub proof fn law_frequencies_follow_the_path(
    tree: &mut RadixTree,
    sequence: &[LocalBlockHash],
    now: u64,
    window: u64,
    found: OverlapScores,
    same: &mut RadixTree,
    shorter: &[LocalBlockHash],
    found_before: OverlapScores,
)
    requires
        old(tree).wf(),
        old(tree).expiration() == Some(window),
        old(same)@ == old(tree)@,
        old(same).expiration() == Some(window),
        sequence@.len() > 0,
        shorter@ == sequence@.drop_last(),
        old(tree)@.matched(0, sequence@, false).len() == sequence@.len(),
        call_ensures(RadixTree::try_find_matches_at, (tree, sequence, false, now), Some(found)),
        call_ensures(
            RadixTree::try_find_matches_at,
            (same, shorter, false, now),
            Some(found_before),
        ),
    ensures
        ({
            let block = old(tree)@.matched(0, sequence@, false).last();
            let before = final(same)@.blocks[block].uses;
            let after = final(tree)@.blocks[block].uses;
            &&& after.len() > 0 && after.last() == now
            &&& after.drop_last() == before.skip(before.len() - (after.len() - 1))
            &&& after.len() > 1 ==> found.frequencies@ == found_before.frequencies@.push(
                (after.len() - 1) as usize,
            )
            &&& after.len() == 1 ==> found.frequencies@ == found_before.frequencies@
        }),
{
    let path = old(tree)@.matched(0, sequence@, false);
    lemma_matched_prefix(old(tree)@, 0, sequence@);
    let before_path = old(tree)@.matched(0, shorter@, false);
    assert(before_path =~= path.drop_last());
    let block = path.last();
    let (blocks, counts) = crate::kv_router::radix_state::use_blocks(
        old(tree)@.blocks,
        before_path,
        now,
        window,
    );
    crate::kv_router::radix_state::lemma_matched_blocks(old(tree)@, 0, sequence@, false);
    let before = blocks[block].uses;
    law_old_uses_are_dropped(before, now, window);
    let live = recent(before, now, window);
    let after = final(tree)@.blocks[block].uses;
    crate::kv_router::radix_state::lemma_matched_blocks(old(tree)@, 0, shorter@, false);
    lemma_same_length(old(tree)@.blocks, before_path, now, window);
    assert(0 <= block < blocks.len());
    assert(after == live.push(now));
    assert(after.drop_last() =~= live);
}

proof fn lemma_same_length(
    blocks: Seq<crate::kv_router::radix_state::BlockState>,
    path: Seq<int>,
    now: u64,
    window: u64,
)
    requires
        forall|i: int| 0 <= i < path.len() ==> 0 <= #[trigger] path[i] < blocks.len(),
    ensures
        crate::kv_router::radix_state::use_blocks(blocks, path, now, window).0.len()
            == blocks.len(),
    decreases path.len(),
{
    if path.len() > 0 {
        let before = path.drop_last();
        assert forall|i: int| 0 <= i < before.len() implies 0 <= #[trigger] before[i]
            < blocks.len() by {
            assert(before[i] == path[i]);
        }
        lemma_same_length(blocks, before, now, window);
        assert(0 <= path[path.len() - 1] < blocks.len());
    }
}

proof fn lemma_matched_prefix(tree: TreeState, at: int, sequence: Seq<LocalBlockHash>)
    requires
        sequence.len() > 0,
        tree.matched(at, sequence, false).len() == sequence.len(),
    ensures
        tree.matched(at, sequence.drop_last(), false) == tree.matched(
            at,
            sequence,
            false,
        ).drop_last(),
    decreases sequence.len(),
{
    let next = tree.blocks[at].children[sequence[0].0] as int;
    let rest = sequence.skip(1);
    if sequence.len() == 1 {
        assert(sequence.drop_last().len() == 0);
        assert(tree.matched(at, sequence.drop_last(), false) =~= tree.matched(
            at,
            sequence,
            false,
        ).drop_last());
    } else {
        lemma_matched_prefix(tree, next, rest);
        assert(sequence.drop_last().skip(1) =~= rest.drop_last());
        assert(sequence.drop_last()[0] == sequence[0]);
        assert(tree.matched(at, sequence.drop_last(), false) =~= tree.matched(
            at,
            sequence,
            false,
        ).drop_last());
    }
}

/// The block at a path is the one that a match of the path ends with, if it matches the whole path;
/// the empty path ends at the root.
pub proof fn law_paths_end_at_their_block<'a>(
    tree: &'a RadixTree,
    path: &[LocalBlockHash],
    block: Option<&'a RadixBlock>,
    below: LocalBlockHash,
    longer: &[LocalBlockHash],
    child: Option<&'a RadixBlock>,
)
    requires
        longer@ == path@.push(below),
        call_ensures(RadixTree::block_at, (tree, path), block),
        call_ensures(RadixTree::block_at, (tree, longer), child),
    ensures
        path@.len() == 0 ==> (block matches Some(block) && block@ == tree@.blocks[0]),
        child is Some ==> block is Some,
        block matches Some(block) ==> (child is Some <==> block@.children.contains_key(below.0)),
        block matches Some(block) ==> (child matches Some(child) ==> child@
            == tree@.blocks[block@.children[below.0] as int]),
{
    lemma_matched_push(tree@, 0, path@, below);
}

proof fn lemma_matched_push(
    tree: TreeState,
    at: int,
    path: Seq<LocalBlockHash>,
    below: LocalBlockHash,
)
    ensures
        ({
            let found = tree.matched(at, path, false);
            let end = if path.len() == 0 {
                at
            } else {
                found.last()
            };
            &&& found.len() <= path.len()
            &&& found.len() < path.len() ==> tree.matched(at, path.push(below), false) == found
            &&& found.len() == path.len() && tree.blocks[end].children.contains_key(below.0)
                ==> tree.matched(at, path.push(below), false) == found.push(
                tree.blocks[end].children[below.0] as int,
            )
            &&& found.len() == path.len() && !tree.blocks[end].children.contains_key(below.0)
                ==> tree.matched(at, path.push(below), false) == found
        }),
    decreases path.len(),
{
    let found = tree.matched(at, path, false);
    let longer = path.push(below);
    if path.len() == 0 {
        assert(longer[0] == below);
        if tree.blocks[at].children.contains_key(below.0) {
            let next = tree.blocks[at].children[below.0] as int;
            assert(longer.skip(1).len() == 0);
            assert(tree.matched(next, longer.skip(1), false) == Seq::<int>::empty());
            assert(tree.matched(at, longer, false) =~= found.push(next));
        }
    } else {
        assert(longer[0] == path[0]);
        if tree.blocks[at].children.contains_key(path[0].0) {
            let next = tree.blocks[at].children[path[0].0] as int;
            let rest = path.skip(1);
            lemma_matched_push(tree, next, rest, below);
            assert(longer.skip(1) =~= rest.push(below));
            let under = tree.matched(next, rest, false);
            assert(found =~= seq![next] + under);
            if under.len() == rest.len() {
                let end = if rest.len() == 0 {
                    next
                } else {
                    under.last()
                };
                assert(found.last() == end);
                if tree.blocks[end].children.contains_key(below.0) {
                    let child = tree.blocks[end].children[below.0] as int;
                    assert(tree.matched(at, longer, false) =~= found.push(child));
                }
            }
        }
    }
}

/// The known workers are those with a table, each once, by id and by rank.
pub proof fn law_known_workers_are_listed_in_order(
    tree: &RadixTree,
    workers: Vec<WorkerWithDpRank>,
    worker: WorkerWithDpRank,
    i: int,
    j: int,
)
    requires
        call_ensures(RadixTree::known_workers, (tree,), workers),
    ensures
        workers@.contains(worker) <==> tree@.lookup.contains_key(worker),
        0 <= i < j < workers@.len() ==> workers@[i].worker_id < workers@[j].worker_id || (
        workers@[i].worker_id == workers@[j].worker_id && workers@[i].dp_rank
            < workers@[j].dp_rank),
{
    assert(workers@.contains(worker) <==> tree@.lookup.dom().contains(worker));
    if 0 <= i < j < workers@.len() {
        assert(workers@[i].precedes(workers@[j]));
    }
}

/// A block tells how many children and holders it has, and under which hash a holder knows it.
pub proof fn law_blocks_tell_their_holders(
    block: &RadixBlock,
    worker: &WorkerWithDpRank,
    hash: Option<ExternalSequenceBlockHash>,
    holders: usize,
    children: usize,
)
    requires
        call_ensures(RadixBlock::worker_hash, (block, worker), hash),
        call_ensures(RadixBlock::num_workers, (block,), holders),
        call_ensures(RadixBlock::num_children, (block,), children),
    ensures
        hash is Some <==> block@.workers.contains_key(*worker),
        hash matches Some(hash) ==> hash == block@.workers[*worker],
        holders == block@.workers.len(),
        children == block@.children.len(),
{
}

/// An index answers a match with the scores of its tree, or not at all where a holder on the way is
/// not known.
pub proof fn law_index_answers_as_its_tree(
    state: &mut IndexState,
    sequence: Vec<LocalBlockHash>,
    early_exit: bool,
    now: u64,
    answer: Option<OverlapScores>,
    worker: WorkerWithDpRank,
    i: int,
) -> (path: Seq<int>)
    requires
        call_ensures(IndexState::find_matches, (state, sequence, early_exit, now), answer),
    ensures
        ({
            let blocks = old(state).tree().blocks;
            let above = if i == 0 {
                0
            } else {
                path[i - 1]
            };
            &&& path.len() <= sequence@.len()
            &&& 0 <= i < path.len() ==> blocks[above].children.contains_key(sequence@[i].0)
                && path[i] == blocks[above].children[sequence@[i].0]
            &&& answer matches Some(found) ==> {
                let score = path.filter(|block: int| blocks[block].workers.contains_key(worker)).len();
                &&& found.scores@.contains_key(worker) <==> score > 0
                &&& found.scores@.contains_key(worker) ==> found.scores@[worker] == score
                    && old(state).tree().lookup.contains_key(worker)
                &&& found.tree_sizes@.contains_key(worker) ==> found.tree_sizes@[worker]
                    == old(state).tree().lookup[worker].len()
            }
        }),
        final(state).timers() == old(state).timers(),
{
    let path = old(state).tree().matched(0, sequence@, early_exit);
    lemma_matched_path(old(state).tree(), 0, sequence@, early_exit, i);
    lemma_held_among(old(state).tree(), path, worker);
    if let Some(found) = answer {
        assert(found.tree_sizes@.dom().contains(worker) <==> found.scores@.dom().contains(worker));
        assert(old(state).tree().held_among(path, worker) > 0 ==> old(
            state).tree().lookup.contains_key(worker));
    }
    path
}

/// What an event did to an index is told by its kind and by how it ended.
pub proof fn law_events_are_labelled(
    state: &mut IndexState,
    event: RouterEvent,
    labels: EventLabels,
    tree: &mut RadixTree,
    result: Result<(), KvCacheEventError>,
)
    requires
        old(tree)@ == old(state).tree(),
        call_ensures(IndexState::apply_event, (state, event), labels),
        call_ensures(RadixTree::apply_event, (tree, event), result),
    ensures
        final(state).tree() == final(tree)@,
        labels.event_type@ == (match event.event.data {
            KvCacheEventData::Stored(_) => "stored"@,
            KvCacheEventData::Removed(_) => "removed"@,
            KvCacheEventData::Cleared => "cleared"@,
        }),
        labels.status@ == (match result {
            Ok(()) => "ok"@,
            Err(KvCacheEventError::ParentBlockNotFound) => "parent_block_not_found"@,
            Err(KvCacheEventError::BlockNotFound) => "block_not_found"@,
            Err(KvCacheEventError::InvalidBlockSequence) => "invalid_block"@,
        }),
{
}

/// A single block is stored below its parent, or below the root where it names none: it becomes the
/// child under the hash of its tokens, its worker holds it under its own hash, and that hash leads
/// the worker to it. It is the child that is there already, or else the block that its hash led
/// to before, or else a new one. A block that would be its own parent is refused.
pub proof fn law_stored_blocks_hang_below_their_parent(
    tree: &mut RadixTree,
    event: RouterEvent,
    result: Result<(), KvCacheEventError>,
    stored: KvCacheStoredBlockData,
    other: int,
    tokens: u64,
    holder: WorkerWithDpRank,
) -> (child: int)
    requires
        old(tree).wf(),
        event.event.data matches KvCacheEventData::Stored(store) && store.blocks@ == seq![stored],
        call_ensures(RadixTree::apply_event, (tree, event), result),
        result != Err::<(), KvCacheEventError>(KvCacheEventError::ParentBlockNotFound),
        0 <= other < old(tree)@.blocks.len(),
        old(tree)@.blocks.len() < usize::MAX,
    ensures
        ({
            let worker = WorkerWithDpRank {
                worker_id: event.worker_id,
                dp_rank: event.event.dp_rank,
            };
            let table = if old(tree)@.lookup.contains_key(worker) {
                old(tree)@.lookup[worker]
            } else {
                Map::empty()
            };
            let parent = match event.event.data->Stored_0.parent_hash {
                Some(hash) => table[hash.0] as int,
                None => 0,
            };
            let above = old(tree)@.blocks[parent];
            let after = final(tree)@;
            &&& above.children.contains_key(stored.tokens_hash.0) ==> child
                == above.children[stored.tokens_hash.0]
            &&& !above.children.contains_key(stored.tokens_hash.0) && table.contains_key(
                stored.block_hash.0,
            ) ==> child == table[stored.block_hash.0]
            &&& !above.children.contains_key(stored.tokens_hash.0) && !table.contains_key(
                stored.block_hash.0,
            ) ==> child == old(tree)@.blocks.len() && after.blocks.len() == child + 1
            &&& after.blocks[parent].children.contains_key(stored.tokens_hash.0)
            &&& after.blocks[parent].children[stored.tokens_hash.0] == child
            &&& tokens != stored.tokens_hash.0 ==> after.blocks[parent].children.contains_key(
                tokens,
            ) == above.children.contains_key(tokens)
            &&& result is Err <==> child == parent
            &&& result is Ok ==> {
                &&& after.lookup[worker] == table.insert(stored.block_hash.0, child as usize)
                &&& after.blocks[child].workers.contains_key(worker)
                &&& after.blocks[child].workers[worker] == stored.block_hash
                &&& holder != worker && child < old(tree)@.blocks.len()
                    ==> after.blocks[child].workers.contains_key(holder)
                    == old(tree)@.blocks[child].workers.contains_key(holder)
            }
            &&& other != child && other != parent ==> after.blocks[other]
                == old(tree)@.blocks[other]
            &&& other == parent && other != child ==> after.blocks[other].workers
                == old(tree)@.blocks[other].workers
        }),
{
    let worker = WorkerWithDpRank { worker_id: event.worker_id, dp_rank: event.event.dp_rank };
    let known = old(tree)@.track(worker);
    let state = known.of_worker(worker);
    let store = event.event.data->Stored_0;
    let run = store.blocks@;
    assert(run.len() == 1 && run[0] == stored);
    assert(run.skip(1).len() == 0);
    let parent = known.store_parent(worker, store.parent_hash)->Some_0;
    assert(0 <= parent < old(tree)@.blocks.len());
    let child = state.child_for(parent, stored) as int;
    let linked = state.link(parent, stored);
    assert(Set::<int>::empty().insert(parent).contains(child) <==> child == parent);
    let held = linked.hold(worker, child, stored.block_hash);
    assert(held.store(worker, child, run.skip(1), Set::<int>::empty().insert(parent)) == (
        held,
        true,
    ));
    child
}

proof fn lemma_fewer_above(
    state: WorkerState,
    worker: WorkerWithDpRank,
    parent: int,
    run: Seq<KvCacheStoredBlockData>,
    above: Set<int>,
    fewer: Set<int>,
)
    requires
        fewer.subset_of(above),
        state.store(worker, parent, run, above).1,
    ensures
        state.store(worker, parent, run, fewer) == state.store(worker, parent, run, above),
    decreases run.len(),
{
    if run.len() > 0 {
        let child = state.child_for(parent, run[0]) as int;
        let held = state.link(parent, run[0]).hold(worker, child, run[0].block_hash);
        lemma_fewer_above(
            held,
            worker,
            child,
            run.skip(1),
            above.insert(parent),
            fewer.insert(parent),
        );
    }
}

/// Storing a run that goes well is storing its first block and then, below that block, the others.
pub proof fn law_runs_are_stored_block_by_block(
    tree: &mut RadixTree,
    event: RouterEvent,
    result: Result<(), KvCacheEventError>,
    first: &mut RadixTree,
    first_event: RouterEvent,
    first_result: Result<(), KvCacheEventError>,
    second: &mut RadixTree,
    second_event: RouterEvent,
    second_result: Result<(), KvCacheEventError>,
)
    requires
        old(tree).wf(),
        event.event.data is Stored,
        first_event.event.data is Stored,
        second_event.event.data is Stored,
        event.worker_id == first_event.worker_id == second_event.worker_id,
        event.event.dp_rank == first_event.event.dp_rank == second_event.event.dp_rank,
        ({
            let run = event.event.data->Stored_0.blocks@;
            &&& run.len() > 0
            &&& first_event.event.data->Stored_0.parent_hash
                == event.event.data->Stored_0.parent_hash
            &&& first_event.event.data->Stored_0.blocks@ == seq![run[0]]
            &&& second_event.event.data->Stored_0.parent_hash == Some(run[0].block_hash)
            &&& second_event.event.data->Stored_0.blocks@ == run.skip(1)
        }),
        call_ensures(RadixTree::apply_event, (tree, event), result),
        result is Ok,
        old(tree)@.blocks.len() < usize::MAX,
        old(first)@ == old(tree)@,
        call_ensures(RadixTree::apply_event, (first, first_event), first_result),
        old(second)@ == final(first)@,
        call_ensures(RadixTree::apply_event, (second, second_event), second_result),
    ensures
        first_result is Ok,
        second_result is Ok,
        final(second)@ == final(tree)@,
{
    let worker = WorkerWithDpRank { worker_id: event.worker_id, dp_rank: event.event.dp_rank };
    let known = old(tree)@.track(worker);
    let state = known.of_worker(worker);
    let store = event.event.data->Stored_0;
    let run = store.blocks@;
    let parent = known.store_parent(worker, store.parent_hash)->Some_0;
    let child = state.child_for(parent, run[0]) as int;
    let linked = state.link(parent, run[0]);
    let chain = Set::<int>::empty().insert(parent);
    let held = linked.hold(worker, child, run[0].block_hash);
    let single = first_event.event.data->Stored_0.blocks@;
    assert(single.len() == 1 && single[0] == run[0]);
    assert(single.skip(1).len() == 0);
    assert(held.store(worker, child, single.skip(1), chain) == (held, true));
    assert(final(first)@ == known.with_worker(worker, held));
    lemma_fewer_above(held, worker, child, run.skip(1), chain, Set::empty());
    let again = final(first)@.track(worker);
    assert(again == final(first)@);
    assert(again.of_worker(worker) == held);
    assert(held.table.contains_key(run[0].block_hash.0) && held.table[run[0].block_hash.0]
        == child as usize);
    assert(child as usize == child);
    let after = held.store(worker, child, run.skip(1), chain).0;
    assert(again.with_worker(worker, after) =~= known.with_worker(worker, after));
}

spec fn links(tree: TreeState, visit: Visit) -> bool {
    &&& 0 <= visit.above < tree.blocks.len()
    &&& 0 <= visit.block < tree.blocks.len()
    &&& tree.blocks[visit.above].children.contains_key(visit.tokens)
    &&& tree.blocks[visit.above].children[visit.tokens] == visit.block
}

proof fn lemma_below_links(tree: TreeState, block: int)
    requires
        tree.valid(),
        0 <= block < tree.blocks.len(),
    ensures
        forall|i: int|
            0 <= i < tree.below(block).len() ==> links(tree, #[trigger] tree.below(block)[i]),
{
    let children = tree.blocks[block].children;
    let hashes = hashes_in_order(children.dom());
    lemma_hashes_listed(children.dom());
    assert forall|i: int| 0 <= i < tree.below(block).len() implies links(
        tree,
        #[trigger] tree.below(block)[i],
    ) by {
        assert(hashes.contains(hashes[i]));
        assert(tree.blocks[block].children.contains_key(hashes[i]));
    }
}

proof fn lemma_below_all_links(tree: TreeState, visits: Seq<Visit>)
    requires
        tree.valid(),
        forall|i: int| 0 <= i < visits.len() ==> links(tree, #[trigger] visits[i]),
    ensures
        forall|i: int|
            0 <= i < tree.below_all(visits).len() ==> links(
                tree,
                #[trigger] tree.below_all(visits)[i],
            ),
    decreases visits.len(),
{
    if visits.len() > 0 {
        let before = visits.drop_last();
        assert forall|i: int| 0 <= i < before.len() implies links(tree, #[trigger] before[i]) by {
            assert(before[i] == visits[i]);
        }
        lemma_below_all_links(tree, before);
        assert(links(tree, visits[visits.len() - 1]));
        lemma_below_links(tree, visits.last().block);
        let first = tree.below_all(before);
        let second = tree.below(visits.last().block);
        assert forall|i: int| 0 <= i < tree.below_all(visits).len() implies links(
            tree,
            #[trigger] tree.below_all(visits)[i],
        ) by {
            if i < first.len() {
                assert(links(tree, first[i]));
            } else {
                assert(links(tree, second[i - first.len()]));
            }
        }
    }
}

proof fn lemma_level_links(tree: TreeState, depth: nat)
    requires
        tree.valid(),
    ensures
        forall|i: int|
            0 <= i < tree.level(depth).len() ==> links(tree, #[trigger] tree.level(depth)[i]),
    decreases depth,
{
    if depth == 0 {
        lemma_below_links(tree, 0);
    } else {
        lemma_level_links(tree, (depth - 1) as nat);
        lemma_below_all_links(tree, tree.level((depth - 1) as nat));
    }
}

proof fn lemma_levels_link(tree: TreeState, depth: nat)
    requires
        tree.valid(),
    ensures
        forall|i: int|
            0 <= i < tree.levels(depth).len() ==> links(tree, #[trigger] tree.levels(depth)[i]),
    decreases depth,
{
    if depth > 0 {
        lemma_levels_link(tree, (depth - 1) as nat);
        lemma_level_links(tree, (depth - 1) as nat);
        let first = tree.levels((depth - 1) as nat);
        let second = tree.level((depth - 1) as nat);
        assert forall|i: int| 0 <= i < tree.levels(depth).len() implies links(
            tree,
            #[trigger] tree.levels(depth)[i],
        ) by {
            if i < first.len() {
                assert(links(tree, first[i]));
            } else {
                assert(links(tree, second[i - first.len()]));
            }
        }
    }
}

proof fn lemma_record_origin(tree: TreeState, visits: Seq<Visit>, k: int) -> (from: (int, int))
    requires
        0 <= k < tree.records(visits).len(),
    ensures
        0 <= from.0 < visits.len(),
        0 <= from.1 < tree.records_at(visits[from.0]).len(),
        tree.records(visits)[k] == tree.records_at(visits[from.0])[from.1],
    decreases visits.len(),
{
    let before = tree.records(visits.drop_last());
    if k < before.len() {
        lemma_record_origin(tree, visits.drop_last(), k)
    } else {
        (visits.len() - 1, k - before.len())
    }
}

/// Each event of a dump stores one block that its worker holds, under the hash that the worker
/// knows it by, and names the block above it by the worker's hash for that one, if the worker holds
/// it too. The tokens are those that lead from the one to the other. Events are numbered in order.
pub proof fn law_dumped_events_store_what_is_held(
    tree: &RadixTree,
    events: Vec<RouterEvent>,
    i: int,
) -> (place: (int, int))
    requires
        tree.wf(),
        call_ensures(RadixTree::dump_tree_as_events, (tree,), events),
        0 <= i < events@.len(),
    ensures
        ({
            let (above, block) = place;
            let event = events@[i];
            let worker = WorkerWithDpRank {
                worker_id: event.worker_id,
                dp_rank: event.event.dp_rank,
            };
            &&& event.event.event_id == i
            &&& event.event.data matches KvCacheEventData::Stored(data) && {
                &&& data.blocks@.len() == 1
                &&& 0 <= above < tree@.blocks.len()
                &&& 0 <= block < tree@.blocks.len()
                &&& tree@.blocks[above].children.contains_key(data.blocks@[0].tokens_hash.0)
                &&& tree@.blocks[above].children[data.blocks@[0].tokens_hash.0] == block
                &&& tree@.blocks[block].workers.contains_key(worker)
                &&& tree@.blocks[block].workers[worker] == data.blocks@[0].block_hash
                &&& data.parent_hash is Some <==> tree@.blocks[above].workers.contains_key(worker)
                &&& data.parent_hash matches Some(hash) ==> hash
                    == tree@.blocks[above].workers[worker]
            }
        }),
{
    let visits = tree@.all_visits();
    let depth = choose|depth: nat| (#[trigger] tree@.level(depth)).len() == 0;
    lemma_levels_link(tree@, depth);
    let (v, r) = lemma_record_origin(tree@, visits, i);
    let visit = visits[v];
    assert(links(tree@, visit));
    let held = tree@.blocks[visit.block].workers;
    lemma_workers_listed(held.dom());
    let list = workers_in_order(held.dom());
    assert(list.contains(list[r]));
    assert(held.contains_key(list[r]));
    assert(stores(events@[i], i, tree@.dump()[i]));
    (visit.above, visit.block)
}

/// The way that storing a run takes: the parent first, and then a block for each block of the run,
/// as far as it gets.
proof fn lemma_run_path(
    state: WorkerState,
    worker: WorkerWithDpRank,
    parent: int,
    run: Seq<KvCacheStoredBlockData>,
    above: Set<int>,
) -> (path: Seq<int>)
    requires
        state.valid(),
        0 <= parent < state.blocks.len(),
        state.blocks.len() + run.len() <= usize::MAX,
        !above.contains(parent),
        forall|block: int| #[trigger] above.contains(block) ==> 0 <= block < state.blocks.len(),
    ensures
        ({
            let (after, ok) = state.store(worker, parent, run, above);
            &&& 1 <= path.len() <= run.len() + 1
            &&& path[0] == parent
            &&& ok ==> path.len() == run.len() + 1 && path.no_duplicates()
            &&& !ok ==> path.len() >= 2 && path.drop_last().no_duplicates() && (above.contains(
                path.last(),
            ) || path.drop_last().contains(path.last()))
            &&& forall|k: int|
                0 <= k < (if ok {
                    path.len() as int
                } else {
                    path.len() - 1
                }) ==> !above.contains(#[trigger] path[k])
            &&& forall|k: int|
                0 <= k < path.len() ==> 0 <= #[trigger] path[k] < after.blocks.len()
            &&& forall|k: int|
                #![trigger path[k]]
                0 <= k < path.len() - 1 ==> after.blocks[path[k]].children.contains_key(
                    run[k].tokens_hash.0,
                ) && after.blocks[path[k]].children[run[k].tokens_hash.0] == path[k + 1]
            &&& forall|k: int|
                #![trigger path[k]]
                1 <= k < (if ok {
                    path.len() as int
                } else {
                    path.len() - 1
                }) ==> after.blocks[path[k]].workers.contains_key(worker)
                    && after.blocks[path[k]].workers[worker] == run[k - 1].block_hash
            &&& forall|block: int| #[trigger]
                above.contains(block) ==> after.blocks[block] == state.blocks[block]
            &&& after.blocks[parent].workers == state.blocks[parent].workers
        }),
    decreases run.len(),
{
    if run.len() == 0 {
        let path = seq![parent];
        path
    } else {
        let child = state.child_for(parent, run[0]) as int;
        let chain = above.insert(parent);
        let linked = state.link(parent, run[0]);
        lemma_link_valid(state, parent, run[0]);
        lemma_store_valid(state, worker, parent, run, above);
        if chain.contains(child) {
            let path = seq![parent, child];
            assert(path.drop_last() =~= seq![parent]);
            assert(path.drop_last()[0] == parent);
            path
        } else {
            let held = linked.hold(worker, child, run[0].block_hash);
            lemma_hold_valid(linked, worker, child, run[0].block_hash);
            let rest = run.skip(1);
            let below = lemma_run_path(held, worker, child, rest, chain);
            let path = seq![parent] + below;
            let (after, ok) = state.store(worker, parent, run, above);
            assert((after, ok) == held.store(worker, child, rest, chain));
            assert(after.blocks[parent] == held.blocks[parent]) by {
                assert(chain.contains(parent));
            }
            assert forall|k: int| 0 < k < path.len() implies #[trigger] path[k] == below[k - 1] by {
            }
            if ok {
                assert forall|i: int, j: int|
                    0 <= i < path.len() && 0 <= j < path.len() && i != j implies path[i]
                    != path[j] by {
                    if i > 0 {
                        assert(!chain.contains(below[i - 1]));
                    }
                    if j > 0 {
                        assert(!chain.contains(below[j - 1]));
                    }
                }
            } else {
                let shorter = path.drop_last();
                let short_below = below.drop_last();
                assert(shorter =~= seq![parent] + short_below);
                assert forall|i: int, j: int|
                    0 <= i < shorter.len() && 0 <= j < shorter.len() && i != j implies shorter[i]
                    != shorter[j] by {
                    if i > 0 {
                        assert(shorter[i] == short_below[i - 1]);
                        assert(!chain.contains(below[i - 1]));
                    }
                    if j > 0 {
                        assert(shorter[j] == short_below[j - 1]);
                        assert(!chain.contains(below[j - 1]));
                    }
                }
                assert(path.last() == below.last());
                if short_below.contains(below.last()) {
                    let i = choose|i: int|
                        0 <= i < short_below.len() && short_below[i] == below.last();
                    assert(shorter[i + 1] == path.last());
                } else if below.last() == parent {
                    assert(shorter[0] == path.last());
                }
            }
            assert forall|k: int|
                #![trigger path[k]]
                0 <= k < path.len() - 1 implies after.blocks[path[k]].children.contains_key(
                run[k].tokens_hash.0,
            ) && after.blocks[path[k]].children[run[k].tokens_hash.0] == path[k + 1] by {
                assert(path[k + 1] == below[k]);
                if k > 0 {
                    assert(path[k] == below[k - 1]);
                    assert(rest[k - 1] == run[k]);
                }
            }
            assert forall|k: int|
                #![trigger path[k]]
                1 <= k < (if ok {
                    path.len() as int
                } else {
                    path.len() - 1
                }) implies after.blocks[path[k]].workers.contains_key(worker)
                && after.blocks[path[k]].workers[worker] == run[k - 1].block_hash by {
                assert(path[k] == below[k - 1]);
                if k > 1 {
                    assert(rest[k - 2] == run[k - 1]);
                }
            }
            assert forall|block: int| #[trigger] above.contains(block) implies after.blocks[block]
                == state.blocks[block] by {
                assert(chain.contains(block));
            }
            path
        }
    }
}

/// A run is stored downwards from its parent, each block below the one before, and no block comes
/// twice: a run that would come back to a block that it has passed is refused there, and a run is
/// refused for nothing else. The worker holds every block that was stored, under the hash that the
/// run gives it.
pub proof fn law_stored_runs_never_come_back(
    tree: &mut RadixTree,
    event: RouterEvent,
    result: Result<(), KvCacheEventError>,
) -> (path: Seq<int>)
    requires
        old(tree).wf(),
        event.event.data is Stored,
        call_ensures(RadixTree::apply_event, (tree, event), result),
        result != Err::<(), KvCacheEventError>(KvCacheEventError::ParentBlockNotFound),
        old(tree)@.blocks.len() + event.event.data->Stored_0.blocks@.len() <= usize::MAX,
    ensures
        ({
            let worker = WorkerWithDpRank {
                worker_id: event.worker_id,
                dp_rank: event.event.dp_rank,
            };
            let run = event.event.data->Stored_0.blocks@;
            let after = final(tree)@;
            let stored = if result is Ok {
                path.len() as int
            } else {
                path.len() - 1
            };
            &&& path[0] == (match event.event.data->Stored_0.parent_hash {
                Some(hash) => old(tree)@.lookup[worker][hash.0] as int,
                None => 0,
            })
            &&& result is Ok ==> path.len() == run.len() + 1 && path.no_duplicates()
            &&& result is Err ==> result == Err::<(), KvCacheEventError>(
                KvCacheEventError::InvalidBlockSequence,
            ) && 2 <= path.len() <= run.len() + 1 && path.drop_last().no_duplicates()
                && path.drop_last().contains(path.last())
            &&& forall|k: int|
                #![trigger path[k]]
                0 <= k < path.len() - 1 ==> after.blocks[path[k]].children.contains_key(
                    run[k].tokens_hash.0,
                ) && after.blocks[path[k]].children[run[k].tokens_hash.0] == path[k + 1]
            &&& forall|k: int|
                #![trigger path[k]]
                1 <= k < stored ==> after.blocks[path[k]].workers.contains_key(worker)
                    && after.blocks[path[k]].workers[worker] == run[k - 1].block_hash
        }),
{
    let worker = WorkerWithDpRank { worker_id: event.worker_id, dp_rank: event.event.dp_rank };
    let known = old(tree)@.track(worker);
    let state = known.of_worker(worker);
    let store = event.event.data->Stored_0;
    let parent = known.store_parent(worker, store.parent_hash)->Some_0;
    assert(0 <= parent < old(tree)@.blocks.len());
    assert(state.valid());
    lemma_run_path(state, worker, parent, store.blocks@, Set::empty())
}

} // verus!
