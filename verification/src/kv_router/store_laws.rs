//! What holds of radix trees in which a run was stored.
use crate::kv_router::history::{in_range, lemma_store_len};
use crate::kv_router::protocols::{
    KvCacheEventData, KvCacheStoreData, KvCacheStoredBlockData, WorkerWithDpRank,
};
use crate::kv_router::radix_laws::{lemma_all_held, run_tokens};
use crate::kv_router::radix_state::{
    valid_table, BlockState, KvCacheEventError, TreeState, WorkerState,
};
use vstd::prelude::*;

verus! {

/// The blocks that are there keep their links.
spec fn keeps_links(before: WorkerState, after: WorkerState) -> bool {
    forall|block: int, tokens: u64|
        #![trigger before.blocks[block].children.contains_key(tokens)]
        #![trigger after.blocks[block].children.contains_key(tokens)]
        0 <= block < before.blocks.len() && before.blocks[block].children.contains_key(tokens)
            ==> after.blocks[block].children.contains_key(tokens)
            && after.blocks[block].children[tokens] == before.blocks[block].children[tokens]
}

/// One block was stored.
spec fn one_stored(
    state: WorkerState,
    worker: WorkerWithDpRank,
    parent: int,
    stored: KvCacheStoredBlockData,
) -> WorkerState {
    state.link(parent, stored).hold(
        worker,
        state.child_for(parent, stored) as int,
        stored.block_hash,
    )
}

proof fn lemma_one_stored(
    state: WorkerState,
    worker: WorkerWithDpRank,
    parent: int,
    stored: KvCacheStoredBlockData,
)
    requires
        in_range(state),
        0 <= parent < state.blocks.len(),
    ensures
        ({
            let next = one_stored(state, worker, parent, stored);
            let child = state.child_for(parent, stored) as int;
            &&& in_range(next)
            &&& state.blocks.len() <= next.blocks.len()
            &&& 0 <= child < next.blocks.len()
            &&& keeps_links(state, next)
            &&& next.blocks[parent].children.contains_key(stored.tokens_hash.0)
            &&& next.blocks[parent].children[stored.tokens_hash.0] == child
            &&& next.blocks[child].workers.contains_key(worker)
            &&& next.blocks[child].workers[worker] == stored.block_hash
            &&& forall|block: int|
                0 <= block < state.blocks.len() && block != child ==> (
                #[trigger] next.blocks[block]).workers == state.blocks[block].workers
        }),
{
    let next = one_stored(state, worker, parent, stored);
    let linked = state.link(parent, stored);
    assert forall|block: int, tokens: u64|
        #![trigger next.blocks[block].children.contains_key(tokens)]
        0 <= block < next.blocks.len() && next.blocks[block].children.contains_key(
            tokens,
        ) implies next.blocks[block].children[tokens] < next.blocks.len() by {
        if block < state.blocks.len() && state.blocks[block].children.contains_key(tokens) {
            assert(state.blocks[block].children[tokens] < state.blocks.len());
        }
    }
    assert forall|block: int| 0 <= block < linked.blocks.len() implies (
    #[trigger] next.blocks[block]).children == linked.blocks[block].children by {
    }
}

/// Storing a run keeps links, and those who hold the blocks that it may not come to.
proof fn lemma_store_keeps(
    state: WorkerState,
    worker: WorkerWithDpRank,
    parent: int,
    run: Seq<KvCacheStoredBlockData>,
    above: Set<int>,
)
    requires
        in_range(state),
        0 <= parent < state.blocks.len(),
        state.store(worker, parent, run, above).1,
    ensures
        keeps_links(state, state.store(worker, parent, run, above).0),
        forall|block: int|
            0 <= block < state.blocks.len() && (block == parent || above.contains(block)) ==> (
            #[trigger] state.store(worker, parent, run, above).0.blocks[block]).workers
                == state.blocks[block].workers,
    decreases run.len(),
{
    if run.len() > 0 {
        let next = one_stored(state, worker, parent, run[0]);
        let child = state.child_for(parent, run[0]) as int;
        let chain = above.insert(parent);
        lemma_one_stored(state, worker, parent, run[0]);
        lemma_store_keeps(next, worker, child, run.skip(1), chain);
        let after = next.store(worker, child, run.skip(1), chain).0;
        assert(after == state.store(worker, parent, run, above).0);
        assert forall|block: int, tokens: u64|
            #![trigger state.blocks[block].children.contains_key(tokens)]
            #![trigger after.blocks[block].children.contains_key(tokens)]
            0 <= block < state.blocks.len() && state.blocks[block].children.contains_key(
                tokens,
            ) implies after.blocks[block].children.contains_key(tokens)
            && after.blocks[block].children[tokens] == state.blocks[block].children[tokens] by {
            assert(next.blocks[block].children.contains_key(tokens));
        }
        assert forall|block: int|
            0 <= block < state.blocks.len() && (block == parent || above.contains(block)) implies (
        #[trigger] after.blocks[block]).workers == state.blocks[block].workers by {
            assert(chain.contains(block));
            assert(next.blocks[block].workers == state.blocks[block].workers);
        }
    }
}

/// The table once a run is entered whose blocks are all there.
spec fn entered(
    table: Map<u64, usize>,
    blocks: Seq<BlockState>,
    parent: int,
    run: Seq<KvCacheStoredBlockData>,
) -> Map<u64, usize>
    decreases run.len(),
{
    if run.len() == 0 {
        table
    } else {
        let child = blocks[parent].children[run[0].tokens_hash.0];
        entered(table.insert(run[0].block_hash.0, child), blocks, child as int, run.skip(1))
    }
}

/// A run of blocks that are all there is stored by entering it in the table.
proof fn lemma_store_again(
    state: WorkerState,
    worker: WorkerWithDpRank,
    parent: int,
    run: Seq<KvCacheStoredBlockData>,
    above: Set<int>,
    table: Map<u64, usize>,
)
    requires
        in_range(state),
        0 <= parent < state.blocks.len(),
        state.store(worker, parent, run, above).1,
    ensures
        ({
            let blocks = state.store(worker, parent, run, above).0.blocks;
            &&& (WorkerState { blocks, table }).store(worker, parent, run, above) == (
                WorkerState { blocks, table: entered(table, blocks, parent, run) },
                true,
            )
            &&& state.store(worker, parent, run, above).0.table == entered(
                state.table,
                blocks,
                parent,
                run,
            )
        }),
    decreases run.len(),
{
    if run.len() > 0 {
        let next = one_stored(state, worker, parent, run[0]);
        let child = state.child_for(parent, run[0]) as int;
        let hash = run[0].block_hash;
        let tokens = run[0].tokens_hash.0;
        let chain = above.insert(parent);
        let rest = run.skip(1);
        lemma_one_stored(state, worker, parent, run[0]);
        lemma_store_keeps(next, worker, child, rest, chain);
        let after = next.store(worker, child, rest, chain).0;
        let blocks = after.blocks;
        assert(after == state.store(worker, parent, run, above).0);
        assert(next.blocks[parent].children.contains_key(tokens));
        assert(blocks[parent].children.contains_key(tokens));
        assert(blocks[parent].children[tokens] == child);
        assert(blocks[child].workers == next.blocks[child].workers);
        lemma_store_len(next, worker, child, rest, chain);
        let again = WorkerState { blocks, table };
        assert(again.child_for(parent, run[0]) == child);
        assert(again.link(parent, run[0]) == again);
        let held = again.hold(worker, child, hash);
        assert(blocks[child].workers.insert(worker, hash) =~= blocks[child].workers);
        assert(held.blocks =~= blocks);
        assert(held == WorkerState { blocks, table: table.insert(hash.0, child as usize) });
        lemma_store_again(next, worker, child, rest, chain, table.insert(hash.0, child as usize));
        assert(next.table == state.table.insert(hash.0, child as usize));
    }
}

/// Two tables say the same of every hash that the run does not have.
spec fn agree_off(
    first: Map<u64, usize>,
    second: Map<u64, usize>,
    run: Seq<KvCacheStoredBlockData>,
) -> bool {
    forall|hash: u64|
        #![trigger first.contains_key(hash)]
        #![trigger second.contains_key(hash)]
        (forall|i: int| 0 <= i < run.len() ==> (#[trigger] run[i]).block_hash.0 != hash) ==> (
        first.contains_key(hash) <==> second.contains_key(hash)) && (first.contains_key(hash)
            ==> first[hash] == second[hash])
}

/// Entering a run makes tables that agree on the rest alike.
proof fn lemma_entered_alike(
    first: Map<u64, usize>,
    second: Map<u64, usize>,
    blocks: Seq<BlockState>,
    parent: int,
    run: Seq<KvCacheStoredBlockData>,
)
    requires
        agree_off(first, second, run),
    ensures
        entered(first, blocks, parent, run) == entered(second, blocks, parent, run),
    decreases run.len(),
{
    if run.len() == 0 {
        assert(first =~= second);
    } else {
        let child = blocks[parent].children[run[0].tokens_hash.0];
        let key = run[0].block_hash.0;
        let rest = run.skip(1);
        let a = first.insert(key, child);
        let b = second.insert(key, child);
        assert forall|hash: u64|
            #![trigger a.contains_key(hash)]
            #![trigger b.contains_key(hash)]
            (forall|i: int| 0 <= i < rest.len() ==> (#[trigger] rest[i]).block_hash.0
                != hash) implies (a.contains_key(hash) <==> b.contains_key(hash)) && (
        a.contains_key(hash) ==> a[hash] == b[hash]) by {
            if hash != key {
                assert forall|i: int| 0 <= i < run.len() implies (
                #[trigger] run[i]).block_hash.0 != hash by {
                    if i > 0 {
                        assert(rest[i - 1] == run[i]);
                    }
                }
                assert(first.contains_key(hash) <==> second.contains_key(hash));
            }
        }
        lemma_entered_alike(a, b, blocks, child as int, rest);
    }
}

/// Entering a run adds its hashes and changes no other entry.
proof fn lemma_entered(
    table: Map<u64, usize>,
    blocks: Seq<BlockState>,
    parent: int,
    run: Seq<KvCacheStoredBlockData>,
)
    ensures
        agree_off(entered(table, blocks, parent, run), table, run),
        forall|hash: u64| #[trigger]
            table.contains_key(hash) ==> entered(table, blocks, parent, run).contains_key(hash),
        forall|i: int|
            0 <= i < run.len() ==> entered(table, blocks, parent, run).contains_key(
                (#[trigger] run[i]).block_hash.0,
            ),
    decreases run.len(),
{
    if run.len() > 0 {
        let child = blocks[parent].children[run[0].tokens_hash.0];
        let key = run[0].block_hash.0;
        let rest = run.skip(1);
        let more = table.insert(key, child);
        let after = entered(table, blocks, parent, run);
        lemma_entered(more, blocks, child as int, rest);
        assert(after == entered(more, blocks, child as int, rest));
        assert forall|hash: u64|
            #![trigger after.contains_key(hash)]
            #![trigger table.contains_key(hash)]
            (forall|i: int| 0 <= i < run.len() ==> (#[trigger] run[i]).block_hash.0
                != hash) implies (after.contains_key(hash) <==> table.contains_key(hash)) && (
        after.contains_key(hash) ==> after[hash] == table[hash]) by {
            assert(run[0].block_hash.0 != hash);
            assert forall|i: int| 0 <= i < rest.len() implies (
            #[trigger] rest[i]).block_hash.0 != hash by {
                assert(rest[i] == run[i + 1]);
            }
            assert(after.contains_key(hash) <==> more.contains_key(hash));
        }
        assert forall|i: int| 0 <= i < run.len() implies after.contains_key(
            (#[trigger] run[i]).block_hash.0,
        ) by {
            if i > 0 {
                assert(rest[i - 1] == run[i]);
            } else {
                assert(more.contains_key(key));
            }
        }
    }
}

/// A run that was stored is matched as a whole, and the worker holds it.
proof fn lemma_stored_matches(
    state: WorkerState,
    worker: WorkerWithDpRank,
    parent: int,
    run: Seq<KvCacheStoredBlockData>,
    above: Set<int>,
    lookup: Map<WorkerWithDpRank, Map<u64, usize>>,
)
    requires
        in_range(state),
        0 <= parent < state.blocks.len(),
        state.store(worker, parent, run, above).1,
    ensures
        ({
            let after = TreeState {
                blocks: state.store(worker, parent, run, above).0.blocks,
                lookup,
            };
            let found = after.matched(parent, run_tokens(run), false);
            &&& found.len() == run.len()
            &&& forall|i: int|
                0 <= i < found.len() ==> after.blocks[#[trigger] found[i]].workers.contains_key(
                    worker,
                )
        }),
    decreases run.len(),
{
    if run.len() > 0 {
        let next = one_stored(state, worker, parent, run[0]);
        let child = state.child_for(parent, run[0]) as int;
        let chain = above.insert(parent);
        let rest = run.skip(1);
        lemma_one_stored(state, worker, parent, run[0]);
        lemma_store_keeps(next, worker, child, rest, chain);
        lemma_stored_matches(next, worker, child, rest, chain, lookup);
        let after = TreeState {
            blocks: next.store(worker, child, rest, chain).0.blocks,
            lookup,
        };
        assert(next.blocks[parent].children.contains_key(run[0].tokens_hash.0));
        assert(after.blocks[parent].children.contains_key(run[0].tokens_hash.0));
        assert(after.blocks[child].workers == next.blocks[child].workers);
        assert(run_tokens(run).skip(1) =~= run_tokens(rest));
        assert(after.matched(parent, run_tokens(run), false) =~= seq![child] + after.matched(
            child,
            run_tokens(rest),
            false,
        ));
    }
}

/// What a store event that went well leaves behind: from the root, its tokens score the worker with
/// every block of the run; each of its blocks is accepted as a parent; and the same event goes well
/// again and changes nothing. Below another block this needs the parent's hash to lead the worker
/// to the same block as before.
pub proof fn law_stored_event_can_be_repeated(
    tree: TreeState,
    worker: WorkerWithDpRank,
    store: KvCacheStoreData,
)
    requires
        tree.valid(),
        tree.apply(worker, KvCacheEventData::Stored(store)).1 is Ok,
        ({
            let after = tree.apply(worker, KvCacheEventData::Stored(store)).0;
            after.store_parent(worker, store.parent_hash) == tree.track(worker).store_parent(
                worker,
                store.parent_hash,
            )
        }),
    ensures
        ({
            let after = tree.apply(worker, KvCacheEventData::Stored(store)).0;
            let run = store.blocks@;
            &&& store.parent_hash is None ==> after.held_among(
                after.matched(0, run_tokens(run), false),
                worker,
            ) == run.len()
            &&& forall|i: int|
                0 <= i < run.len() ==> after.track(worker).store_parent(
                    worker,
                    Some((#[trigger] run[i]).block_hash),
                ) is Some
            &&& after.apply(worker, KvCacheEventData::Stored(store)) == (
                after,
                Ok::<(), KvCacheEventError>(()),
            )
        }),
{
    let known = tree.track(worker);
    let state = known.of_worker(worker);
    let run = store.blocks@;
    let parent = known.store_parent(worker, store.parent_hash)->Some_0;
    let after = tree.apply(worker, KvCacheEventData::Stored(store)).0;
    assert(known.valid());
    assert(valid_table(known.lookup[worker], known.blocks.len()));
    assert(in_range(state));
    let stored = state.store(worker, parent, run, Set::empty()).0;
    assert(after == known.with_worker(worker, stored));
    lemma_store_again(state, worker, parent, run, Set::empty(), stored.table);
    lemma_entered(state.table, stored.blocks, parent, run);
    lemma_entered_alike(stored.table, state.table, stored.blocks, parent, run);
    lemma_stored_matches(state, worker, parent, run, Set::empty(), after.lookup);
    lemma_all_held(after, after.matched(parent, run_tokens(run), false), worker);
    assert(after.track(worker) == after);
    assert(after.of_worker(worker) == stored);
    assert(after.with_worker(worker, stored) =~= after);
    assert forall|i: int| 0 <= i < run.len() implies after.track(worker).store_parent(
        worker,
        Some((#[trigger] run[i]).block_hash),
    ) is Some by {
        assert(after.lookup[worker].contains_key(run[i].block_hash.0));
    }
}

} // verus!
