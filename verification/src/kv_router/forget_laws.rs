//! What holds of radix trees that forget a worker.
use crate::kv_router::history::{
    apply_all, in_range, is_history, leads_inside, lemma_apply_all_len,
    lemma_history, lemma_store_len, mirrors, places_of, Place,
};
use crate::kv_router::index_laws::lemma_none_held;
use crate::kv_router::protocols::{
    ExternalSequenceBlockHash, KvCacheEventData, KvCacheStoredBlockData, LocalBlockHash, WorkerId,
    WorkerWithDpRank,
};
use crate::kv_router::radix_dump::{lemma_workers_listed, workers_in_order};
use crate::kv_router::radix_laws::lemma_early_exit_is_prefix;
use crate::kv_router::radix_state::{
    lemma_drop_valid, lemma_forget_valid, lemma_hold_valid, lemma_link_valid, lemma_matched_blocks,
    lemma_with_worker_valid, valid_table, TreeState, WorkerState,
};
use crate::kv_router::radix_tree::{lemma_entries_step, RouterEvent};
use crate::kv_router::worker_map::lists_in_order;
use crate::seqs::lemma_take_next;
use vstd::prelude::*;

verus! {

/// Storing a run takes no hash from one block to another: a block whose hash the worker knows is
/// the one that it knows.
pub open spec fn store_agrees(
    state: WorkerState,
    worker: WorkerWithDpRank,
    parent: int,
    run: Seq<KvCacheStoredBlockData>,
    above: Set<int>,
) -> bool
    decreases run.len(),
{
    if run.len() == 0 {
        true
    } else {
        let child = state.child_for(parent, run[0]) as int;
        let chain = above.insert(parent);
        chain.contains(child) || {
            &&& state.table.contains_key(run[0].block_hash.0) ==> state.table[run[0].block_hash.0]
                == child
            &&& store_agrees(
                state.link(parent, run[0]).hold(worker, child, run[0].block_hash),
                worker,
                child,
                run.skip(1),
                chain,
            )
        }
    }
}

/// An event takes no hash from one block to another.
pub open spec fn event_agrees(tree: TreeState, event: RouterEvent) -> bool {
    let worker = event.source();
    let known = tree.track(worker);
    match event.event.data {
        KvCacheEventData::Stored(store) => match known.store_parent(worker, store.parent_hash) {
            Some(parent) => store_agrees(
                known.of_worker(worker),
                worker,
                parent,
                store.blocks@,
                Set::empty(),
            ),
            None => true,
        },
        _ => true,
    }
}

/// None of the events takes a hash from one block to another.
pub open spec fn events_agree(start: TreeState, events: Seq<RouterEvent>) -> bool
    decreases events.len(),
{
    events.len() == 0 || {
        &&& events_agree(start, events.drop_last())
        &&& event_agrees(apply_all(start, events.drop_last()).0, events.last())
    }
}

/// The worker's table names every block that it holds.
spec fn names_held(state: WorkerState, worker: WorkerWithDpRank) -> bool {
    forall|block: int|
        0 <= block < state.blocks.len() && (#[trigger] state.blocks[block]).workers.contains_key(
            worker,
        ) ==> named(state, block)
}

spec fn named(state: WorkerState, block: int) -> bool {
    exists|hash: u64| #[trigger] state.table.contains_key(hash) && state.table[hash] == block
}

/// Nobody but `worker` comes to hold a block.
spec fn no_others(before: WorkerState, after: WorkerState, worker: WorkerWithDpRank) -> bool {
    forall|block: int, holder: WorkerWithDpRank|
        #![trigger after.blocks[block].workers.contains_key(holder)]
        0 <= block < after.blocks.len() && holder != worker
            && after.blocks[block].workers.contains_key(holder) ==> block < before.blocks.len()
            && before.blocks[block].workers.contains_key(holder)
}

proof fn lemma_store_names(
    state: WorkerState,
    worker: WorkerWithDpRank,
    parent: int,
    run: Seq<KvCacheStoredBlockData>,
    above: Set<int>,
)
    requires
        in_range(state),
        0 <= parent < state.blocks.len(),
        names_held(state, worker),
        store_agrees(state, worker, parent, run, above),
    ensures
        names_held(state.store(worker, parent, run, above).0, worker),
        no_others(state, state.store(worker, parent, run, above).0, worker),
    decreases run.len(),
{
    if run.len() > 0 {
        let hash = run[0].block_hash.0;
        let child = state.child_for(parent, run[0]) as int;
        let linked = state.link(parent, run[0]);
        let chain = above.insert(parent);
        assert forall|block: int| 0 <= block < linked.blocks.len() implies {
            &&& block < state.blocks.len() ==> (#[trigger] linked.blocks[block]).workers
                == state.blocks[block].workers
            &&& block >= state.blocks.len() ==> linked.blocks[block].workers == Map::<
                WorkerWithDpRank,
                ExternalSequenceBlockHash,
            >::empty()
        } by {
        }
        assert forall|block: int|
            0 <= block < linked.blocks.len() && (
            #[trigger] linked.blocks[block]).workers.contains_key(worker) implies named(
            linked,
            block,
        ) by {
            assert(state.blocks[block].workers.contains_key(worker));
            assert(named(state, block));
            let key = choose|key: u64| #[trigger]
                state.table.contains_key(key) && state.table[key] == block;
            assert(linked.table.contains_key(key));
        }
        if !chain.contains(child) {
            let held = linked.hold(worker, child, run[0].block_hash);
            lemma_store_len(state, worker, parent, run.take(1), above);
            assert forall|block: int, tokens: u64|
                #![trigger held.blocks[block].children.contains_key(tokens)]
                0 <= block < held.blocks.len() && held.blocks[block].children.contains_key(
                    tokens,
                ) implies held.blocks[block].children[tokens] < held.blocks.len() by {
                if block < state.blocks.len() && state.blocks[block].children.contains_key(tokens) {
                    assert(state.blocks[block].children[tokens] < state.blocks.len());
                }
            }
            assert forall|block: int|
                0 <= block < held.blocks.len() && (
                #[trigger] held.blocks[block]).workers.contains_key(worker) implies named(
                held,
                block,
            ) by {
                if block == child {
                    assert(held.table.contains_key(hash) && held.table[hash] == block);
                } else {
                    assert(linked.blocks[block].workers.contains_key(worker));
                    assert(named(linked, block));
                    let key = choose|key: u64| #[trigger]
                        linked.table.contains_key(key) && linked.table[key] == block;
                    assert(held.table.contains_key(key) && held.table[key] == block);
                }
            }
            lemma_store_names(held, worker, child, run.skip(1), chain);
            let after = held.store(worker, child, run.skip(1), chain).0;
            assert forall|block: int, holder: WorkerWithDpRank|
                #![trigger after.blocks[block].workers.contains_key(holder)]
                0 <= block < after.blocks.len() && holder != worker
                    && after.blocks[block].workers.contains_key(holder) implies block
                < state.blocks.len() && state.blocks[block].workers.contains_key(holder) by {
                assert(held.blocks[block].workers.contains_key(holder));
                assert(linked.blocks[block].workers.contains_key(holder));
            }
        }
    }
}

proof fn lemma_drop_names(
    state: WorkerState,
    worker: WorkerWithDpRank,
    hashes: Seq<ExternalSequenceBlockHash>,
)
    requires
        in_range(state),
        names_held(state, worker),
    ensures
        names_held(state.drop_blocks(worker, hashes).0, worker),
        no_others(state, state.drop_blocks(worker, hashes).0, worker),
    decreases hashes.len(),
{
    if hashes.len() > 0 && state.table.contains_key(hashes[0].0) {
        let hash = hashes[0].0;
        let gone = state.table[hash] as int;
        let next = state.drop_block(worker, hash);
        assert forall|block: int, tokens: u64|
            #![trigger next.blocks[block].children.contains_key(tokens)]
            0 <= block < next.blocks.len() && next.blocks[block].children.contains_key(
                tokens,
            ) implies next.blocks[block].children[tokens] < next.blocks.len() by {
            assert(state.blocks[block].children.contains_key(tokens));
        }
        assert forall|block: int|
            0 <= block < next.blocks.len() && (#[trigger] next.blocks[block]).workers.contains_key(
                worker,
            ) implies named(next, block) by {
            assert(block != gone);
            assert(state.blocks[block].workers.contains_key(worker));
            assert(named(state, block));
            let key = choose|key: u64| #[trigger]
                state.table.contains_key(key) && state.table[key] == block;
            assert(next.table.contains_key(key) && next.table[key] == block);
        }
        lemma_drop_names(next, worker, hashes.skip(1));
        let after = next.drop_blocks(worker, hashes.skip(1)).0;
        assert forall|block: int, holder: WorkerWithDpRank|
            #![trigger after.blocks[block].workers.contains_key(holder)]
            0 <= block < after.blocks.len() && holder != worker
                && after.blocks[block].workers.contains_key(holder) implies block
            < state.blocks.len() && state.blocks[block].workers.contains_key(holder) by {
            assert(next.blocks[block].workers.contains_key(holder));
        }
    }
}

/// The tables of all workers name every block that they hold.
pub open spec fn all_indexed(tree: TreeState) -> bool {
    forall|worker: WorkerWithDpRank| #[trigger] tree.indexed(worker)
}

/// What one worker did leaves the tables of the others whole.
proof fn lemma_others_indexed(tree: TreeState, worker: WorkerWithDpRank, state: WorkerState)
    requires
        all_indexed(tree),
        names_held(state, worker),
        no_others(tree.of_worker(worker), state, worker),
    ensures
        all_indexed(tree.with_worker(worker, state)),
{
    let after = tree.with_worker(worker, state);
    assert forall|other: WorkerWithDpRank| #[trigger] after.indexed(other) by {
        assert(tree.indexed(other));
        assert forall|block: int|
            0 <= block < after.blocks.len() && (
            #[trigger] after.blocks[block]).workers.contains_key(other) implies after.knows(
            other,
            block,
        ) by {
            if other == worker {
                assert(state.blocks[block].workers.contains_key(worker));
                assert(named(state, block));
                let hash = choose|hash: u64| #[trigger]
                    state.table.contains_key(hash) && state.table[hash] == block;
                assert(after.lookup[other].contains_key(hash));
            } else {
                assert(state.blocks[block].workers.contains_key(other));
                assert(tree.blocks[block].workers.contains_key(other));
                assert(tree.knows(other, block));
                let hash = choose|hash: u64| #[trigger]
                    tree.lookup[other].contains_key(hash) && tree.lookup[other][hash] == block;
                assert(after.lookup[other].contains_key(hash));
            }
        }
    }
}

/// Whether or not it fails, an event that takes no hash from one block to another leaves tables
/// that name every held block if they did before.
pub proof fn law_apply_keeps_tables_whole(tree: TreeState, event: RouterEvent)
    requires
        tree.valid(),
        all_indexed(tree),
        event_agrees(tree, event),
    ensures
        all_indexed(tree.apply(event.source(), event.event.data).0),
{
    assert(leads_inside(tree)) by {
        assert forall|worker: WorkerWithDpRank, hash: u64|
            #![trigger tree.lookup[worker].contains_key(hash)]
            tree.lookup.contains_key(worker) && tree.lookup[worker].contains_key(
                hash,
            ) implies tree.lookup[worker][hash] < tree.blocks.len() by {
            assert(valid_table(tree.lookup[worker], tree.blocks.len()));
        }
    }
    lemma_apply_indexed(tree, event);
}

proof fn lemma_apply_indexed(tree: TreeState, event: RouterEvent)
    requires
        leads_inside(tree),
        all_indexed(tree),
        event_agrees(tree, event),
    ensures
        all_indexed(tree.apply(event.source(), event.event.data).0),
{
    let worker = event.source();
    let known = tree.track(worker);
    let state = known.of_worker(worker);
    assert forall|other: WorkerWithDpRank| #[trigger] known.indexed(other) by {
        assert(tree.indexed(other));
        assert forall|block: int|
            0 <= block < known.blocks.len() && (
            #[trigger] known.blocks[block]).workers.contains_key(other) implies known.knows(
            other,
            block,
        ) by {
            assert(tree.blocks[block].workers.contains_key(other));
            assert(tree.knows(other, block));
            let hash = choose|hash: u64| #[trigger]
                tree.lookup[other].contains_key(hash) && tree.lookup[other][hash] == block;
            assert(known.lookup[other].contains_key(hash));
        }
    }
    assert(names_held(state, worker)) by {
        assert(known.indexed(worker));
        assert forall|block: int|
            0 <= block < state.blocks.len() && (
            #[trigger] state.blocks[block]).workers.contains_key(worker) implies named(
            state,
            block,
        ) by {
            assert(known.blocks[block].workers.contains_key(worker));
            assert(known.knows(worker, block));
            let hash = choose|hash: u64| #[trigger]
                known.lookup[worker].contains_key(hash) && known.lookup[worker][hash] == block;
            assert(state.table.contains_key(hash));
        }
    }
    assert(in_range(state)) by {
        assert forall|hash: u64| #[trigger] state.table.contains_key(hash) implies state.table[hash]
            < state.blocks.len() by {
            assert(known.lookup[worker].contains_key(hash));
            assert(tree.lookup.contains_key(worker));
            assert(tree.lookup[worker].contains_key(hash));
        }
        assert forall|block: int, tokens: u64|
            #![trigger state.blocks[block].children.contains_key(tokens)]
            0 <= block < state.blocks.len() && state.blocks[block].children.contains_key(
                tokens,
            ) implies state.blocks[block].children[tokens] < state.blocks.len() by {
            assert(tree.blocks[block].children.contains_key(tokens));
        }
    }
    match event.event.data {
        KvCacheEventData::Stored(store) => {
            match known.store_parent(worker, store.parent_hash) {
                Some(parent) => {
                    lemma_store_names(state, worker, parent, store.blocks@, Set::empty());
                    lemma_others_indexed(
                        known,
                        worker,
                        state.store(worker, parent, store.blocks@, Set::empty()).0,
                    );
                },
                None => {},
            }
        },
        KvCacheEventData::Removed(remove) => {
            lemma_drop_names(state, worker, remove.block_hashes@);
            lemma_others_indexed(
                known,
                worker,
                state.drop_blocks(worker, remove.block_hashes@).0,
            );
        },
        KvCacheEventData::Cleared => {
            lemma_forget_indexed(known, worker.worker_id, true);
        },
    }
}

/// A worker that is forgotten leaves the tables of the others whole.
proof fn lemma_forget_indexed(tree: TreeState, worker_id: WorkerId, keep_worker: bool)
    requires
        all_indexed(tree),
    ensures
        all_indexed(tree.forget(worker_id, keep_worker)),
        forall|block: int, worker: WorkerWithDpRank|
            #![trigger tree.forget(worker_id, keep_worker).blocks[block].workers.contains_key(worker)]
            0 <= block < tree.blocks.len() && worker.worker_id == worker_id ==> !tree.forget(
                worker_id,
                keep_worker,
            ).blocks[block].workers.contains_key(worker),
{
    let after = tree.forget(worker_id, keep_worker);
    assert forall|block: int, worker: WorkerWithDpRank|
        #![trigger after.blocks[block].workers.contains_key(worker)]
        0 <= block < tree.blocks.len() && worker.worker_id
            == worker_id implies !after.blocks[block].workers.contains_key(worker) by {
        assert(tree.indexed(worker));
        if tree.blocks[block].workers.contains_key(worker) {
            assert(tree.knows(worker, block));
            assert(tree.ranks_at(worker_id, block).contains(worker));
        }
    }
    assert forall|worker: WorkerWithDpRank| #[trigger] after.indexed(worker) by {
        assert(tree.indexed(worker));
        assert forall|block: int|
            0 <= block < after.blocks.len() && (
            #[trigger] after.blocks[block]).workers.contains_key(worker) implies after.knows(
            worker,
            block,
        ) by {
            assert(worker.worker_id != worker_id);
            assert(tree.blocks[block].workers.contains_key(worker));
            assert(tree.knows(worker, block));
            let hash = choose|hash: u64| #[trigger]
                tree.lookup[worker].contains_key(hash) && tree.lookup[worker][hash] == block;
            assert(after.lookup[worker].contains_key(hash));
        }
    }
}

/// A tree that was made by events that took no hash from one block to another has tables that name
/// every held block.
pub proof fn law_agreeing_events_keep_tables_whole(events: Seq<RouterEvent>)
    requires
        events_agree(TreeState::new(), events),
    ensures
        all_indexed(apply_all(TreeState::new(), events).0),
    decreases events.len(),
{
    if events.len() > 0 {
        law_agreeing_events_keep_tables_whole(events.drop_last());
        lemma_apply_all_len(events.drop_last());
        lemma_apply_indexed(
            apply_all(TreeState::new(), events.drop_last()).0,
            events.last(),
        );
    }
}

/// So does a tree that store events made, no worker storing under one hash in two places.
pub proof fn law_histories_keep_tables_whole(events: Seq<RouterEvent>)
    requires
        is_history(events),
    ensures
        all_indexed(apply_all(TreeState::new(), events).0),
{
    let tree = apply_all(TreeState::new(), events).0;
    let paths = lemma_history(events);
    let places = places_of(events);
    assert forall|worker: WorkerWithDpRank| #[trigger] tree.indexed(worker) by {
        assert forall|block: int|
            0 <= block < tree.blocks.len() && (
            #[trigger] tree.blocks[block]).workers.contains_key(worker) implies tree.knows(
            worker,
            block,
        ) by {
            let hash = tree.blocks[block].workers[worker].0;
            assert(places.contains(Place { worker, hash, path: paths[block] }));
            assert(tree.lookup[worker].contains_key(hash));
            assert(valid_table(tree.lookup[worker], tree.blocks.len()));
            assert(paths[tree.lookup[worker][hash] as int] == paths[block]);
        }
    }
}

/// Storing a run keeps the state valid as long as its blocks can be numbered.
proof fn lemma_store_numbered(
    state: WorkerState,
    worker: WorkerWithDpRank,
    parent: int,
    run: Seq<KvCacheStoredBlockData>,
    above: Set<int>,
)
    requires
        state.valid(),
        0 <= parent < state.blocks.len(),
        state.store(worker, parent, run, above).0.blocks.len() <= usize::MAX,
    ensures
        state.store(worker, parent, run, above).0.valid(),
    decreases run.len(),
{
    if run.len() > 0 {
        let child = state.child_for(parent, run[0]) as int;
        let chain = above.insert(parent);
        lemma_store_len(state, worker, parent, run, above);
        lemma_link_valid(state, parent, run[0]);
        if !chain.contains(child) {
            let linked = state.link(parent, run[0]);
            lemma_hold_valid(linked, worker, child, run[0].block_hash);
            lemma_store_numbered(
                linked.hold(worker, child, run[0].block_hash),
                worker,
                child,
                run.skip(1),
                chain,
            );
        }
    }
}

/// Events make valid trees as long as the blocks can be numbered.
pub proof fn lemma_apply_all_valid(events: Seq<RouterEvent>)
    requires
        apply_all(TreeState::new(), events).0.blocks.len() <= usize::MAX,
    ensures
        apply_all(TreeState::new(), events).0.valid(),
    decreases events.len(),
{
    if events.len() > 0 {
        lemma_apply_all_len(events);
        lemma_apply_all_valid(events.drop_last());
        let before = apply_all(TreeState::new(), events.drop_last()).0;
        let worker = events.last().source();
        let known = before.track(worker);
        assert(known.valid());
        let state = known.of_worker(worker);
        assert(valid_table(known.lookup[worker], known.blocks.len()));
        match events.last().event.data {
            KvCacheEventData::Stored(store) => {
                match known.store_parent(worker, store.parent_hash) {
                    Some(parent) => {
                        let stored = state.store(worker, parent, store.blocks@, Set::empty()).0;
                        lemma_store_numbered(state, worker, parent, store.blocks@, Set::empty());
                        lemma_store_len(state, worker, parent, store.blocks@, Set::empty());
                        lemma_with_worker_valid(known, worker, stored);
                    },
                    None => {},
                }
            },
            KvCacheEventData::Removed(remove) => {
                lemma_drop_valid(state, worker, remove.block_hashes@);
                lemma_with_worker_valid(
                    known,
                    worker,
                    state.drop_blocks(worker, remove.block_hashes@).0,
                );
            },
            KvCacheEventData::Cleared => {
                lemma_forget_valid(known, worker.worker_id, true);
            },
        }
    } else {
        assert(TreeState::new().valid());
    }
}

/// The table entries of all ranks of a worker.
pub open spec fn entries_of_worker(tree: TreeState, worker_id: WorkerId) -> Set<
    (WorkerWithDpRank, u64),
> {
    tree.entries().filter(|entry: (WorkerWithDpRank, u64)| entry.0.worker_id == worker_id)
}

/// There are finitely many table entries.
proof fn lemma_entries_finite(tree: TreeState)
    requires
        tree.valid(),
    ensures
        tree.entries().finite(),
{
    let workers = workers_in_order(tree.lookup.dom());
    lemma_workers_listed(tree.lookup.dom());
    lemma_entries_listed(tree, workers, workers.len() as int);
    assert(workers.take(workers.len() as int) =~= workers);
    assert(tree.entries_of(workers) =~= tree.entries()) by {
        assert forall|entry: (WorkerWithDpRank, u64)|
            tree.entries().contains(entry) implies tree.entries_of(workers).contains(entry) by {
            assert(tree.lookup.dom().contains(entry.0));
            assert(workers.contains(entry.0));
        }
    }
}

proof fn lemma_entries_listed(tree: TreeState, workers: Seq<WorkerWithDpRank>, count: int)
    requires
        tree.valid(),
        lists_in_order(workers, tree.lookup.dom()),
        0 <= count <= workers.len(),
    ensures
        tree.entries_of(workers.take(count)).finite(),
    decreases count,
{
    if count == 0 {
        assert(tree.entries_of(workers.take(0)) =~= Set::empty());
    } else {
        lemma_entries_listed(tree, workers, count - 1);
        let listed = workers.take(count - 1);
        let worker = workers[count - 1];
        lemma_take_next(workers, count - 1);
        assert(workers.contains(worker));
        assert(tree.lookup.contains_key(worker));
        assert(!listed.contains(worker)) by {
            if listed.contains(worker) {
                let i = choose|i: int| 0 <= i < listed.len() && listed[i] == worker;
                assert(workers[i].precedes(workers[count - 1]));
            }
        }
        lemma_entries_step(tree, listed, worker);
    }
}

/// A removed worker is unknown: the others stay known, the tree has become smaller by the worker's
/// table entries, and removing it again changes nothing.
pub proof fn law_removed_worker_is_unknown(tree: TreeState, worker_id: WorkerId)
    requires
        tree.valid(),
    ensures
        ({
            let after = tree.forget(worker_id, false);
            &&& forall|worker: WorkerWithDpRank| #[trigger]
                after.lookup.contains_key(worker) <==> tree.lookup.contains_key(worker)
                    && worker.worker_id != worker_id
            &&& tree.entries().finite()
            &&& after.entries().len() + entries_of_worker(tree, worker_id).len()
                == tree.entries().len()
            &&& after.forget(worker_id, false) == after
        }),
{
    let after = tree.forget(worker_id, false);
    lemma_entries_finite(tree);
    let gone = entries_of_worker(tree, worker_id);
    tree.entries().lemma_len_filter(
        |entry: (WorkerWithDpRank, u64)| entry.0.worker_id == worker_id,
    );
    assert(after.entries() =~= tree.entries().difference(gone));
    assert(after.entries().union(gone) =~= tree.entries());
    assert(after.entries().disjoint(gone));
    vstd::set_lib::lemma_len_subset(after.entries(), tree.entries());
    vstd::set_lib::lemma_set_disjoint_lens(after.entries(), gone);
    let again = after.forget(worker_id, false);
    assert forall|block: int| 0 <= block < after.blocks.len() implies #[trigger] again.blocks[block]
        == after.blocks[block] by {
        assert(after.ranks_at(worker_id, block) =~= Set::empty());
    }
    assert(again.blocks =~= after.blocks);
    assert(again.lookup =~= after.lookup);
}

/// Some sequence comes to the block.
pub open spec fn on_some_way(tree: TreeState, block: int) -> bool {
    exists|sequence: Seq<LocalBlockHash>| #[trigger]
        tree.matched(0, sequence, false).contains(block)
}

/// The tables of all ranks of a worker name the blocks that these hold, as far as some sequence
/// still comes to them once the worker is forgotten.
pub open spec fn reachable_indexed(tree: TreeState, worker_id: WorkerId) -> bool {
    forall|block: int, worker: WorkerWithDpRank|
        #![trigger tree.blocks[block].workers.contains_key(worker)]
        0 <= block < tree.blocks.len() && worker.worker_id == worker_id && on_some_way(
            tree.forget(worker_id, false),
            block,
        ) && tree.blocks[block].workers.contains_key(worker) ==> tree.knows(worker, block)
}

/// An early exit comes to no other blocks.
proof fn lemma_matched_on_way(
    tree: TreeState,
    sequence: Seq<LocalBlockHash>,
    early_exit: bool,
    index: int,
)
    requires
        0 <= index < tree.matched(0, sequence, early_exit).len(),
    ensures
        on_some_way(tree, tree.matched(0, sequence, early_exit)[index]),
{
    let found = tree.matched(0, sequence, early_exit);
    let whole = tree.matched(0, sequence, false);
    lemma_early_exit_is_prefix(tree, 0, sequence);
    assert(whole[index] == found[index]);
    assert(whole.contains(found[index]));
}

/// A removed worker is scored by no sequence where its tables name the blocks that it holds, as far
/// as some sequence still comes to them.
pub proof fn law_removed_worker_is_gone(
    tree: TreeState,
    worker_id: WorkerId,
    sequence: Seq<LocalBlockHash>,
    early_exit: bool,
    worker: WorkerWithDpRank,
)
    requires
        tree.valid(),
        reachable_indexed(tree, worker_id),
        worker.worker_id == worker_id,
    ensures
        ({
            let after = tree.forget(worker_id, false);
            after.held_among(after.matched(0, sequence, early_exit), worker) == 0
        }),
{
    let after = tree.forget(worker_id, false);
    let found = after.matched(0, sequence, early_exit);
    lemma_forget_valid(tree, worker_id, false);
    lemma_matched_blocks(after, 0, sequence, early_exit);
    assert forall|i: int| 0 <= i < found.len() implies !after.blocks[
        #[trigger] found[i]].workers.contains_key(worker) by {
        let block = found[i];
        lemma_matched_on_way(after, sequence, early_exit, i);
        if tree.blocks[block].workers.contains_key(worker) {
            assert(tree.knows(worker, block));
            assert(tree.ranks_at(worker_id, block).contains(worker));
        }
    }
    lemma_none_held(after, found, worker);
}

/// The blocks that the ranks of a worker hold.
pub open spec fn held_by_worker(tree: TreeState, worker_id: WorkerId) -> Set<
    (WorkerWithDpRank, int),
> {
    Set::new(
        |held: (WorkerWithDpRank, int)|
            held.0.worker_id == worker_id && 0 <= held.1 < tree.blocks.len()
                && tree.blocks[held.1].workers.contains_key(held.0),
    )
}

/// No worker stored one place under two hashes.
pub open spec fn one_hash_each(places: Set<Place>) -> bool {
    forall|a: Place, b: Place|
        #![trigger places.contains(a), places.contains(b)]
        places.contains(a) && places.contains(b) && a.worker == b.worker && a.path == b.path
            ==> a.hash == b.hash
}

/// A worker that is removed from a tree that events made is scored by no sequence, where none of
/// the events took a hash from one block to another, and where all of them stored, no worker under
/// one hash in two places. Where such events stored no place under two hashes either, the tree
/// becomes smaller by the number of blocks that the ranks of the worker held.
pub proof fn law_worker_removed_after_events_is_gone(
    events: Seq<RouterEvent>,
    worker_id: WorkerId,
    sequence: Seq<LocalBlockHash>,
    early_exit: bool,
    worker: WorkerWithDpRank,
)
    requires
        apply_all(TreeState::new(), events).0.blocks.len() <= usize::MAX,
        events_agree(TreeState::new(), events) || is_history(events),
        worker.worker_id == worker_id,
    ensures
        ({
            let tree = apply_all(TreeState::new(), events).0;
            let after = tree.forget(worker_id, false);
            &&& after.held_among(after.matched(0, sequence, early_exit), worker) == 0
            &&& is_history(events) && one_hash_each(places_of(events)) ==> after.entries().len()
                + held_by_worker(tree, worker_id).len() == tree.entries().len()
        }),
{
    let tree = apply_all(TreeState::new(), events).0;
    lemma_apply_all_valid(events);
    if is_history(events) {
        law_histories_keep_tables_whole(events);
        if one_hash_each(places_of(events)) {
            let paths = lemma_history(events);
            lemma_entries_are_held(tree, paths, places_of(events), worker_id);
        }
    } else {
        law_agreeing_events_keep_tables_whole(events);
    }
    assert(reachable_indexed(tree, worker_id)) by {
        assert forall|block: int, rank: WorkerWithDpRank|
            #![trigger tree.blocks[block].workers.contains_key(rank)]
            0 <= block < tree.blocks.len() && rank.worker_id == worker_id && on_some_way(
                tree.forget(worker_id, false),
                block,
            ) && tree.blocks[block].workers.contains_key(rank) implies tree.knows(rank, block) by {
            assert(tree.indexed(rank));
        }
    }
    law_removed_worker_is_gone(tree, worker_id, sequence, early_exit, worker);
    law_removed_worker_is_unknown(tree, worker_id);
}

/// Where places and hashes go together, there is one table entry for each held block.
proof fn lemma_entries_are_held(
    tree: TreeState,
    paths: Seq<Seq<u64>>,
    places: Set<Place>,
    worker_id: WorkerId,
)
    requires
        mirrors(tree, paths, places),
        one_hash_each(places),
    ensures
        entries_of_worker(tree, worker_id).len() == held_by_worker(tree, worker_id).len(),
{
    let entries = entries_of_worker(tree, worker_id);
    let held = held_by_worker(tree, worker_id);
    let block_of = |entry: (WorkerWithDpRank, u64)| (
        entry.0,
        tree.lookup[entry.0][entry.1] as int,
    );
    lemma_entries_finite(tree);
    tree.entries().lemma_len_filter(
        |entry: (WorkerWithDpRank, u64)| entry.0.worker_id == worker_id,
    );
    assert forall|a: (WorkerWithDpRank, u64), b: (WorkerWithDpRank, u64)|
        entries.contains(a) && entries.contains(b) && #[trigger] block_of(a) == #[trigger] block_of(
            b,
        ) implies a == b by {
        assert(tree.lookup[a.0].contains_key(a.1) && tree.lookup[b.0].contains_key(b.1));
        let path = paths[tree.lookup[a.0][a.1] as int];
        assert(places.contains(Place { worker: a.0, hash: a.1, path }));
        assert(places.contains(Place { worker: b.0, hash: b.1, path }));
    }
    assert forall|pair: (WorkerWithDpRank, int)|
        entries.map(block_of).contains(pair) <==> held.contains(pair) by {
        if entries.map(block_of).contains(pair) {
            let entry = choose|entry: (WorkerWithDpRank, u64)|
                entries.contains(entry) && block_of(entry) == pair;
            assert(tree.lookup[entry.0].contains_key(entry.1));
            assert(valid_table(tree.lookup[entry.0], tree.blocks.len()));
        }
        if held.contains(pair) {
            let hash = tree.blocks[pair.1].workers[pair.0].0;
            assert(tree.blocks[pair.1].workers.contains_key(pair.0));
            assert(places.contains(Place { worker: pair.0, hash, path: paths[pair.1] }));
            assert(valid_table(tree.lookup[pair.0], tree.blocks.len()));
            assert(paths[tree.lookup[pair.0][hash] as int] == paths[pair.1]);
            assert(entries.contains((pair.0, hash)));
            assert(block_of((pair.0, hash)) == pair);
        }
    }
    assert(entries.map(block_of) =~= held);
    vstd::set_lib::lemma_map_size(entries, held, block_of);
}

} // verus!
