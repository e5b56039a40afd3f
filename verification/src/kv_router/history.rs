//! What a run of events makes of an empty radix tree.
use crate::kv_router::protocols::{
    ExternalSequenceBlockHash, KvCacheEventData, KvCacheStoredBlockData, WorkerWithDpRank,
};
use crate::kv_router::radix_state::{
    lemma_hold_valid, lemma_link_valid, lemma_with_worker_valid, TreeState, WorkerState,
};
use crate::kv_router::radix_tree::RouterEvent;
use vstd::prelude::*;

verus! {

/// Applies events one after the other; the flag tells whether none of them failed.
pub open spec fn apply_all(start: TreeState, events: Seq<RouterEvent>) -> (TreeState, bool)
    decreases events.len(),
{
    if events.len() == 0 {
        (start, true)
    } else {
        let (before, fine) = apply_all(start, events.drop_last());
        let (after, result) = before.apply(events.last().source(), events.last().event.data);
        (after, fine && result is Ok)
    }
}

/// All events store blocks.
pub open spec fn only_stores(events: Seq<RouterEvent>) -> bool {
    forall|i: int| 0 <= i < events.len() ==> (#[trigger] events[i]).event.data is Stored
}

/// A worker stored a block under a hash, at the end of a way of token hashes down from the root.
pub struct Place {
    pub worker: WorkerWithDpRank,
    pub hash: u64,
    pub path: Seq<u64>,
}

/// The way to the block below which a worker stores.
pub open spec fn base_of(
    places: Set<Place>,
    worker: WorkerWithDpRank,
    parent_hash: Option<ExternalSequenceBlockHash>,
) -> Seq<u64> {
    match parent_hash {
        None => Seq::empty(),
        Some(hash) => choose|path: Seq<u64>|
            #[trigger] places.contains(Place { worker, hash: hash.0, path }),
    }
}

/// The places after a worker stored a run of blocks below `base`.
pub open spec fn with_run(
    places: Set<Place>,
    worker: WorkerWithDpRank,
    base: Seq<u64>,
    run: Seq<KvCacheStoredBlockData>,
) -> Set<Place>
    decreases run.len(),
{
    if run.len() == 0 {
        places
    } else {
        let path = base.push(run[0].tokens_hash.0);
        with_run(
            places.insert(Place { worker, hash: run[0].block_hash.0, path }),
            worker,
            path,
            run.skip(1),
        )
    }
}

/// All that was stored by a run of events.
pub open spec fn places_of(events: Seq<RouterEvent>) -> Set<Place>
    decreases events.len(),
{
    if events.len() == 0 {
        Set::empty()
    } else {
        let places = places_of(events.drop_last());
        let worker = events.last().source();
        match events.last().event.data {
            KvCacheEventData::Stored(store) => with_run(
                places,
                worker,
                base_of(places, worker, store.parent_hash),
                store.blocks@,
            ),
            _ => places,
        }
    }
}

/// No worker stored under one hash in two places.
pub open spec fn one_place_each(places: Set<Place>) -> bool {
    forall|a: Place, b: Place|
        #![trigger places.contains(a), places.contains(b)]
        places.contains(a) && places.contains(b) && a.worker == b.worker && a.hash == b.hash
            ==> a.path == b.path
}

/// A worker stored a block at the end of a way.
pub open spec fn stored_at(
    places: Set<Place>,
    worker: WorkerWithDpRank,
    path: Seq<u64>,
) -> bool {
    exists|hash: u64| #[trigger] places.contains(Place { worker, hash, path })
}

/// The block is the child of the block that its way comes through.
pub open spec fn hangs(tree: TreeState, paths: Seq<Seq<u64>>, block: int) -> bool {
    exists|above: int|
        {
            &&& 0 <= above < tree.blocks.len()
            &&& paths[block] == (#[trigger] paths[above]).push(paths[block].last())
            &&& tree.blocks[above].children.contains_key(paths[block].last())
            &&& tree.blocks[above].children[paths[block].last()] == block
        }
}

/// The tree is a tree: `paths` gives the one way down to each block.
pub open spec fn has_paths(tree: TreeState, paths: Seq<Seq<u64>>) -> bool {
    &&& paths.len() == tree.blocks.len()
    &&& paths[0] == Seq::<u64>::empty()
    &&& forall|a: int, b: int|
        #![trigger paths[a], paths[b]]
        0 <= a < paths.len() && 0 <= b < paths.len() && paths[a] == paths[b] ==> a == b
    &&& forall|block: int, tokens: u64|
        #![trigger tree.blocks[block].children.contains_key(tokens)]
        0 <= block < paths.len() && tree.blocks[block].children.contains_key(tokens)
            ==> paths[tree.blocks[block].children[tokens] as int] == paths[block].push(tokens)
    &&& forall|block: int| 0 < block < paths.len() ==> #[trigger] hangs(tree, paths, block)
}

/// The tables and holders of the tree are what the places say.
pub open spec fn has_places(
    tree: TreeState,
    paths: Seq<Seq<u64>>,
    places: Set<Place>,
) -> bool {
    &&& forall|place: Place| #[trigger]
        places.contains(place) ==> {
            &&& tree.lookup.contains_key(place.worker)
            &&& tree.lookup[place.worker].contains_key(place.hash)
            &&& paths[tree.lookup[place.worker][place.hash] as int] == place.path
        }
    &&& forall|worker: WorkerWithDpRank, hash: u64|
        #![trigger tree.lookup[worker].contains_key(hash)]
        tree.lookup.contains_key(worker) && tree.lookup[worker].contains_key(hash) ==> {
            &&& places.contains(
                Place { worker, hash, path: paths[tree.lookup[worker][hash] as int] },
            )
            &&& tree.blocks[tree.lookup[worker][hash] as int].workers.contains_key(worker)
        }
    &&& forall|block: int, worker: WorkerWithDpRank|
        #![trigger tree.blocks[block].workers.contains_key(worker)]
        0 <= block < paths.len() && tree.blocks[block].workers.contains_key(worker)
            ==> places.contains(
            Place { worker, hash: tree.blocks[block].workers[worker].0, path: paths[block] },
        )
}

/// Whoever stored a block stored the one above it too.
pub open spec fn closed_above(places: Set<Place>) -> bool {
    forall|place: Place| #[trigger]
        places.contains(place) ==> place.path.len() > 0 && (place.path.len() == 1 || stored_at(
            places,
            place.worker,
            place.path.drop_last(),
        ))
}

/// The tree holds exactly what was stored, at its places.
pub open spec fn mirrors(tree: TreeState, paths: Seq<Seq<u64>>, places: Set<Place>) -> bool {
    &&& tree.valid()
    &&& has_paths(tree, paths)
    &&& has_places(tree, paths, places)
    &&& closed_above(places)
}

/// The tree after one block was stored below another.
spec fn stored_one(
    tree: TreeState,
    worker: WorkerWithDpRank,
    parent: int,
    stored: KvCacheStoredBlockData,
) -> TreeState {
    let state = tree.of_worker(worker);
    tree.with_worker(
        worker,
        state.link(parent, stored).hold(
            worker,
            state.child_for(parent, stored) as int,
            stored.block_hash,
        ),
    )
}

/// Storing one block keeps the tree and the places alike.
#[verifier::spinoff_prover]
proof fn lemma_store_one(
    tree: TreeState,
    paths: Seq<Seq<u64>>,
    places: Set<Place>,
    worker: WorkerWithDpRank,
    parent: int,
    stored: KvCacheStoredBlockData,
) -> (longer: Seq<Seq<u64>>)
    requires
        mirrors(tree, paths, places),
        tree.lookup.contains_key(worker),
        0 <= parent < tree.blocks.len(),
        parent == 0 || tree.blocks[parent].workers.contains_key(worker),
        tree.of_worker(worker).link(parent, stored).blocks.len() <= usize::MAX,
        one_place_each(
            places.insert(
                Place {
                    worker,
                    hash: stored.block_hash.0,
                    path: paths[parent].push(stored.tokens_hash.0),
                },
            ),
        ),
    ensures
        mirrors(
            stored_one(tree, worker, parent, stored),
            longer,
            places.insert(
                Place {
                    worker,
                    hash: stored.block_hash.0,
                    path: paths[parent].push(stored.tokens_hash.0),
                },
            ),
        ),
        ({
            let child = tree.of_worker(worker).child_for(parent, stored) as int;
            &&& 0 < child < longer.len()
            &&& longer[child] == paths[parent].push(stored.tokens_hash.0)
            &&& stored_one(tree, worker, parent, stored).blocks[child].workers.contains_key(worker)
        }),
{
    let state = tree.of_worker(worker);
    let tokens = stored.tokens_hash.0;
    let hash = stored.block_hash.0;
    let path = paths[parent].push(tokens);
    let place = Place { worker, hash, path };
    let more = places.insert(place);
    let child = state.child_for(parent, stored) as int;
    let linked = state.link(parent, stored);
    let after = stored_one(tree, worker, parent, stored);
    lemma_link_valid(state, parent, stored);
    lemma_hold_valid(linked, worker, child, stored.block_hash);
    lemma_with_worker_valid(tree, worker, linked.hold(worker, child, stored.block_hash));
    let there = tree.blocks[parent].children.contains_key(tokens);
    assert(path.last() == tokens);
    assert(path.drop_last() =~= paths[parent]);
    // A block at the end of the way would already be a child.
    assert forall|block: int| 0 <= block < paths.len() && !there implies #[trigger] paths[block]
        != path by {
        if paths[block] == path {
            assert(block > 0);
            assert(hangs(tree, paths, block));
            let above = choose|above: int|
                {
                    &&& 0 <= above < tree.blocks.len()
                    &&& paths[block] == (#[trigger] paths[above]).push(paths[block].last())
                    &&& tree.blocks[above].children.contains_key(paths[block].last())
                    &&& tree.blocks[above].children[paths[block].last()] == block
                };
            assert(paths[above] =~= path.drop_last());
            assert(above == parent);
        }
    }
    if !there && state.table.contains_key(hash) {
        let known = Place { worker, hash, path: paths[state.table[hash] as int] };
        assert(places.contains(known));
        assert(more.contains(known) && more.contains(place));
        assert(false);
    }
    let longer = if there {
        paths
    } else {
        paths.push(path)
    };
    assert(longer[child] == path);
    assert(longer.len() == after.blocks.len());
    assert forall|block: int| 0 <= block < paths.len() implies {
        &&& (#[trigger] after.blocks[block]).children == linked.blocks[block].children
        &&& longer[block] == paths[block]
    } by {
    }
    assert(has_paths(after, longer)) by {
        assert forall|a: int, b: int|
            #![trigger longer[a], longer[b]]
            0 <= a < longer.len() && 0 <= b < longer.len() && longer[a] == longer[b] implies a
            == b by {
            if a < paths.len() && b < paths.len() {
                assert(paths[a] == paths[b]);
            } else if a < paths.len() {
                assert(paths[a] != path);
            } else if b < paths.len() {
                assert(paths[b] != path);
            }
        }
        assert forall|block: int, step: u64|
            #![trigger after.blocks[block].children.contains_key(step)]
            0 <= block < longer.len() && after.blocks[block].children.contains_key(
                step,
            ) implies longer[after.blocks[block].children[step] as int] == longer[block].push(
            step,
        ) by {
            if block < paths.len() {
                if block == parent && step == tokens {
                } else {
                    assert(tree.blocks[block].children.contains_key(step));
                }
            }
        }
        assert forall|block: int| 0 < block < longer.len() implies #[trigger] hangs(
            after,
            longer,
            block,
        ) by {
            if block < paths.len() {
                assert(hangs(tree, paths, block));
                let above = choose|above: int|
                    {
                        &&& 0 <= above < tree.blocks.len()
                        &&& paths[block] == (#[trigger] paths[above]).push(paths[block].last())
                        &&& tree.blocks[above].children.contains_key(paths[block].last())
                        &&& tree.blocks[above].children[paths[block].last()] == block
                    };
                assert(longer[block] == longer[above].push(longer[block].last()));
                assert(after.blocks[above].children.contains_key(longer[block].last()));
            } else {
                assert(longer[block] == longer[parent].push(longer[block].last()));
                assert(after.blocks[parent].children.contains_key(tokens));
            }
        }
    }
    assert(has_places(after, longer, more)) by {
        assert forall|at: Place| #[trigger] more.contains(at) implies {
            &&& after.lookup.contains_key(at.worker)
            &&& after.lookup[at.worker].contains_key(at.hash)
            &&& longer[after.lookup[at.worker][at.hash] as int] == at.path
        } by {
            if at.worker == worker && at.hash == hash {
                assert(more.contains(place));
                assert(at.path == path);
            } else {
                assert(places.contains(at));
            }
        }
        assert forall|other: WorkerWithDpRank, key: u64|
            #![trigger after.lookup[other].contains_key(key)]
            after.lookup.contains_key(other) && after.lookup[other].contains_key(key) implies {
            &&& more.contains(
                Place {
                    worker: other,
                    hash: key,
                    path: longer[after.lookup[other][key] as int],
                },
            )
            &&& after.blocks[after.lookup[other][key] as int].workers.contains_key(other)
        } by {
            if other == worker && key == hash {
            } else {
                assert(tree.lookup[other].contains_key(key));
                let block = tree.lookup[other][key] as int;
                assert(tree.blocks[block].workers.contains_key(other));
            }
        }
        assert forall|block: int, other: WorkerWithDpRank|
            #![trigger after.blocks[block].workers.contains_key(other)]
            0 <= block < longer.len() && after.blocks[block].workers.contains_key(
                other,
            ) implies more.contains(
            Place {
                worker: other,
                hash: after.blocks[block].workers[other].0,
                path: longer[block],
            },
        ) by {
            if block == child && other == worker {
            } else {
                assert(tree.blocks[block].workers.contains_key(other));
            }
        }
    }
    assert(closed_above(more)) by {
        assert forall|at: Place| #[trigger] more.contains(at) implies at.path.len() > 0 && (
        at.path.len() == 1 || stored_at(more, at.worker, at.path.drop_last())) by {
            if places.contains(at) {
                if at.path.len() > 1 {
                    assert(stored_at(places, at.worker, at.path.drop_last()));
                    let key = choose|key: u64| #[trigger]
                        places.contains(
                            Place { worker: at.worker, hash: key, path: at.path.drop_last() },
                        );
                    assert(more.contains(
                        Place { worker: at.worker, hash: key, path: at.path.drop_last() },
                    ));
                }
            } else if parent > 0 {
                let held = Place {
                    worker,
                    hash: tree.blocks[parent].workers[worker].0,
                    path: paths[parent],
                };
                assert(places.contains(held));
                assert(more.contains(held));
                assert(stored_at(more, worker, path.drop_last()));
            }
        }
    }
    longer
}

/// Every link and table entry leads to a block.
pub open spec fn in_range(state: WorkerState) -> bool {
    &&& forall|block: int, tokens: u64|
        #![trigger state.blocks[block].children.contains_key(tokens)]
        0 <= block < state.blocks.len() && state.blocks[block].children.contains_key(tokens)
            ==> state.blocks[block].children[tokens] < state.blocks.len()
    &&& forall|hash: u64| #[trigger]
        state.table.contains_key(hash) ==> state.table[hash] < state.blocks.len()
}

/// Storing takes no block away.
pub proof fn lemma_store_len(
    state: WorkerState,
    worker: WorkerWithDpRank,
    parent: int,
    run: Seq<KvCacheStoredBlockData>,
    above: Set<int>,
)
    requires
        in_range(state),
        0 <= parent < state.blocks.len(),
    ensures
        in_range(state.store(worker, parent, run, above).0),
        state.blocks.len() <= state.store(worker, parent, run, above).0.blocks.len(),
        run.len() > 0 ==> state.link(parent, run[0]).blocks.len() <= state.store(
            worker,
            parent,
            run,
            above,
        ).0.blocks.len(),
    decreases run.len(),
{
    if run.len() > 0 {
        let child = state.child_for(parent, run[0]) as int;
        let linked = state.link(parent, run[0]);
        let chain = above.insert(parent);
        assert forall|block: int, tokens: u64|
            #![trigger linked.blocks[block].children.contains_key(tokens)]
            0 <= block < linked.blocks.len() && linked.blocks[block].children.contains_key(
                tokens,
            ) implies linked.blocks[block].children[tokens] < linked.blocks.len() by {
            if block < state.blocks.len() && state.blocks[block].children.contains_key(tokens) {
                assert(state.blocks[block].children[tokens] < state.blocks.len());
            }
        }
        if !chain.contains(child) {
            let held = linked.hold(worker, child, run[0].block_hash);
            assert forall|block: int, tokens: u64|
                #![trigger held.blocks[block].children.contains_key(tokens)]
                0 <= block < held.blocks.len() && held.blocks[block].children.contains_key(
                    tokens,
                ) implies held.blocks[block].children[tokens] < held.blocks.len() by {
                assert(linked.blocks[block].children.contains_key(tokens));
            }
            lemma_store_len(held, worker, child, run.skip(1), chain);
        }
    }
}

/// Every link and table entry of the tree leads to a block.
pub open spec fn leads_inside(tree: TreeState) -> bool {
    &&& tree.blocks.len() > 0
    &&& forall|block: int, tokens: u64|
        #![trigger tree.blocks[block].children.contains_key(tokens)]
        0 <= block < tree.blocks.len() && tree.blocks[block].children.contains_key(tokens)
            ==> tree.blocks[block].children[tokens] < tree.blocks.len()
    &&& forall|worker: WorkerWithDpRank, hash: u64|
        #![trigger tree.lookup[worker].contains_key(hash)]
        tree.lookup.contains_key(worker) && tree.lookup[worker].contains_key(hash)
            ==> tree.lookup[worker][hash] < tree.blocks.len()
}

/// A worker's part of a tree fits in again.
proof fn lemma_fits(tree: TreeState, worker: WorkerWithDpRank, state: WorkerState)
    requires
        leads_inside(tree),
        in_range(state),
        tree.blocks.len() <= state.blocks.len(),
    ensures
        leads_inside(tree.with_worker(worker, state)),
{
    let after = tree.with_worker(worker, state);
    assert forall|other: WorkerWithDpRank, hash: u64|
        #![trigger after.lookup[other].contains_key(hash)]
        after.lookup.contains_key(other) && after.lookup[other].contains_key(
            hash,
        ) implies after.lookup[other][hash] < after.blocks.len() by {
        if other != worker {
            assert(tree.lookup[other].contains_key(hash));
        }
    }
    assert forall|block: int, tokens: u64|
        #![trigger after.blocks[block].children.contains_key(tokens)]
        0 <= block < after.blocks.len() && after.blocks[block].children.contains_key(
            tokens,
        ) implies after.blocks[block].children[tokens] < after.blocks.len() by {
        assert(state.blocks[block].children.contains_key(tokens));
    }
}

/// Dropping blocks leaves no link or entry that leads nowhere.
pub proof fn lemma_drop_len(
    state: WorkerState,
    worker: WorkerWithDpRank,
    hashes: Seq<ExternalSequenceBlockHash>,
)
    requires
        in_range(state),
    ensures
        in_range(state.drop_blocks(worker, hashes).0),
        state.drop_blocks(worker, hashes).0.blocks.len() == state.blocks.len(),
    decreases hashes.len(),
{
    if hashes.len() > 0 && state.table.contains_key(hashes[0].0) {
        let next = state.drop_block(worker, hashes[0].0);
        assert forall|block: int, tokens: u64|
            #![trigger next.blocks[block].children.contains_key(tokens)]
            0 <= block < next.blocks.len() && next.blocks[block].children.contains_key(
                tokens,
            ) implies next.blocks[block].children[tokens] < next.blocks.len() by {
            assert(state.blocks[block].children.contains_key(tokens));
        }
        lemma_drop_len(next, worker, hashes.skip(1));
    }
}

/// No event takes a block away or leaves a link or entry that leads nowhere.
pub proof fn lemma_apply_len(tree: TreeState, worker: WorkerWithDpRank, data: KvCacheEventData)
    requires
        leads_inside(tree),
    ensures
        leads_inside(tree.apply(worker, data).0),
        tree.blocks.len() <= tree.apply(worker, data).0.blocks.len(),
{
    let known = tree.track(worker);
    assert(leads_inside(known)) by {
        assert forall|other: WorkerWithDpRank, hash: u64|
            #![trigger known.lookup[other].contains_key(hash)]
            known.lookup.contains_key(other) && known.lookup[other].contains_key(
                hash,
            ) implies known.lookup[other][hash] < known.blocks.len() by {
            assert(tree.lookup.contains_key(other));
            assert(tree.lookup[other].contains_key(hash));
        }
        assert forall|block: int, tokens: u64|
            #![trigger known.blocks[block].children.contains_key(tokens)]
            0 <= block < known.blocks.len() && known.blocks[block].children.contains_key(
                tokens,
            ) implies known.blocks[block].children[tokens] < known.blocks.len() by {
            assert(tree.blocks[block].children.contains_key(tokens));
        }
    }
    let state = known.of_worker(worker);
    assert(in_range(state)) by {
        assert forall|hash: u64| #[trigger] state.table.contains_key(hash) implies state.table[hash]
            < state.blocks.len() by {
            assert(known.lookup[worker].contains_key(hash));
        }
        assert forall|block: int, tokens: u64|
            #![trigger state.blocks[block].children.contains_key(tokens)]
            0 <= block < state.blocks.len() && state.blocks[block].children.contains_key(
                tokens,
            ) implies state.blocks[block].children[tokens] < state.blocks.len() by {
            assert(known.blocks[block].children.contains_key(tokens));
        }
    }
    match data {
        KvCacheEventData::Stored(store) => {
            match known.store_parent(worker, store.parent_hash) {
                Some(parent) => {
                    lemma_store_len(state, worker, parent, store.blocks@, Set::empty());
                    lemma_fits(
                        known,
                        worker,
                        state.store(worker, parent, store.blocks@, Set::empty()).0,
                    );
                },
                None => {},
            }
        },
        KvCacheEventData::Removed(remove) => {
            lemma_drop_len(state, worker, remove.block_hashes@);
            lemma_fits(known, worker, state.drop_blocks(worker, remove.block_hashes@).0);
        },
        KvCacheEventData::Cleared => {
            let after = known.forget(worker.worker_id, true);
            assert forall|block: int, tokens: u64|
                #![trigger after.blocks[block].children.contains_key(tokens)]
                0 <= block < after.blocks.len() && after.blocks[block].children.contains_key(
                    tokens,
                ) implies after.blocks[block].children[tokens] < after.blocks.len() by {
                assert(known.blocks[block].children.contains_key(tokens));
            }
            assert forall|other: WorkerWithDpRank, hash: u64|
                #![trigger after.lookup[other].contains_key(hash)]
                after.lookup.contains_key(other) && after.lookup[other].contains_key(
                    hash,
                ) implies after.lookup[other][hash] < after.blocks.len() by {
                assert(known.lookup[other].contains_key(hash));
            }
        },
    }
}

/// So it is with events in turn.
pub proof fn lemma_apply_all_len(events: Seq<RouterEvent>)
    ensures
        leads_inside(apply_all(TreeState::new(), events).0),
        events.len() > 0 ==> apply_all(TreeState::new(), events.drop_last()).0.blocks.len()
            <= apply_all(TreeState::new(), events).0.blocks.len(),
    decreases events.len(),
{
    if events.len() > 0 {
        lemma_apply_all_len(events.drop_last());
        lemma_apply_len(
            apply_all(TreeState::new(), events.drop_last()).0,
            events.last().source(),
            events.last().event.data,
        );
    }
}

/// What is stored stays stored.
proof fn lemma_with_run_adds(
    places: Set<Place>,
    worker: WorkerWithDpRank,
    base: Seq<u64>,
    run: Seq<KvCacheStoredBlockData>,
)
    ensures
        places.subset_of(with_run(places, worker, base, run)),
    decreases run.len(),
{
    if run.len() > 0 {
        let path = base.push(run[0].tokens_hash.0);
        lemma_with_run_adds(
            places.insert(Place { worker, hash: run[0].block_hash.0, path }),
            worker,
            path,
            run.skip(1),
        );
    }
}

/// Fewer places do not disagree either.
proof fn lemma_fewer_places(fewer: Set<Place>, places: Set<Place>)
    requires
        fewer.subset_of(places),
        one_place_each(places),
    ensures
        one_place_each(fewer),
{
    assert forall|a: Place, b: Place|
        #![trigger fewer.contains(a), fewer.contains(b)]
        fewer.contains(a) && fewer.contains(b) && a.worker == b.worker && a.hash
            == b.hash implies a.path == b.path by {
        assert(places.contains(a) && places.contains(b));
    }
}

/// Storing a run in full keeps the tree and the places alike.
proof fn lemma_store_run(
    tree: TreeState,
    paths: Seq<Seq<u64>>,
    places: Set<Place>,
    worker: WorkerWithDpRank,
    parent: int,
    run: Seq<KvCacheStoredBlockData>,
    above: Set<int>,
) -> (longer: Seq<Seq<u64>>)
    requires
        mirrors(tree, paths, places),
        tree.lookup.contains_key(worker),
        0 <= parent < tree.blocks.len(),
        parent == 0 || tree.blocks[parent].workers.contains_key(worker),
        tree.of_worker(worker).store(worker, parent, run, above).1,
        tree.of_worker(worker).store(worker, parent, run, above).0.blocks.len() <= usize::MAX,
        one_place_each(with_run(places, worker, paths[parent], run)),
    ensures
        mirrors(
            tree.with_worker(
                worker,
                tree.of_worker(worker).store(worker, parent, run, above).0,
            ),
            longer,
            with_run(places, worker, paths[parent], run),
        ),
    decreases run.len(),
{
    let state = tree.of_worker(worker);
    if run.len() == 0 {
        assert(tree.with_worker(worker, state) =~= tree);
        paths
    } else {
        let child = state.child_for(parent, run[0]) as int;
        let held = state.link(parent, run[0]).hold(worker, child, run[0].block_hash);
        let path = paths[parent].push(run[0].tokens_hash.0);
        let more = places.insert(Place { worker, hash: run[0].block_hash.0, path });
        let chain = above.insert(parent);
        let rest = run.skip(1);
        lemma_store_len(state, worker, parent, run, above);
        lemma_with_run_adds(more, worker, path, rest);
        lemma_fewer_places(more, with_run(places, worker, paths[parent], run));
        let longer = lemma_store_one(tree, paths, places, worker, parent, run[0]);
        let next = stored_one(tree, worker, parent, run[0]);
        assert(next.of_worker(worker) =~= held);
        let stored = held.store(worker, child, rest, chain).0;
        assert(next.with_worker(worker, stored) =~= tree.with_worker(worker, stored));
        lemma_store_run(next, longer, more, worker, child, rest, chain)
    }
}

/// Knowing one more worker, without a block, changes no place.
proof fn lemma_track(
    tree: TreeState,
    paths: Seq<Seq<u64>>,
    places: Set<Place>,
    worker: WorkerWithDpRank,
)
    requires
        mirrors(tree, paths, places),
    ensures
        mirrors(tree.track(worker), paths, places),
{
    let known = tree.track(worker);
    assert forall|other: WorkerWithDpRank, key: u64|
        #![trigger known.lookup[other].contains_key(key)]
        known.lookup.contains_key(other) && known.lookup[other].contains_key(key) implies {
        &&& places.contains(
            Place { worker: other, hash: key, path: paths[known.lookup[other][key] as int] },
        )
        &&& known.blocks[known.lookup[other][key] as int].workers.contains_key(other)
    } by {
        assert(tree.lookup.contains_key(other));
        assert(tree.lookup[other].contains_key(key));
    }
    assert forall|block: int, tokens: u64|
        #![trigger known.blocks[block].children.contains_key(tokens)]
        0 <= block < paths.len() && known.blocks[block].children.contains_key(
            tokens,
        ) implies paths[known.blocks[block].children[tokens] as int] == paths[block].push(
        tokens,
    ) by {
        assert(tree.blocks[block].children.contains_key(tokens));
    }
    assert forall|block: int| 0 < block < paths.len() implies #[trigger] hangs(
        known,
        paths,
        block,
    ) by {
        assert(hangs(tree, paths, block));
    }
    assert forall|block: int, other: WorkerWithDpRank|
        #![trigger known.blocks[block].workers.contains_key(other)]
        0 <= block < paths.len() && known.blocks[block].workers.contains_key(
            other,
        ) implies places.contains(
        Place { worker: other, hash: known.blocks[block].workers[other].0, path: paths[block] },
    ) by {
        assert(tree.blocks[block].workers.contains_key(other));
    }
}

/// Whether a run of store events could be applied to an empty tree, each worker storing under a
/// hash in one place only.
pub open spec fn is_history(events: Seq<RouterEvent>) -> bool {
    &&& only_stores(events)
    &&& apply_all(TreeState::new(), events).1
    &&& apply_all(TreeState::new(), events).0.blocks.len() <= usize::MAX
    &&& one_place_each(places_of(events))
}

/// The events before the last one of a history are one.
proof fn lemma_earlier_history(events: Seq<RouterEvent>)
    requires
        is_history(events),
        events.len() > 0,
    ensures
        is_history(events.drop_last()),
{
    let earlier = events.drop_last();
    let worker = events.last().source();
    let places = places_of(earlier);
    lemma_apply_all_len(events);
    assert(events[events.len() - 1].event.data is Stored);
    assert forall|i: int| 0 <= i < earlier.len() implies (
    #[trigger] earlier[i]).event.data is Stored by {
        assert(earlier[i] == events[i]);
    }
    match events.last().event.data {
        KvCacheEventData::Stored(store) => {
            lemma_with_run_adds(
                places,
                worker,
                base_of(places, worker, store.parent_hash),
                store.blocks@,
            );
            lemma_fewer_places(places, places_of(events));
        },
        _ => {},
    }
}

/// A history makes a tree that holds exactly what was stored.
pub proof fn lemma_history(events: Seq<RouterEvent>) -> (paths: Seq<Seq<u64>>)
    requires
        is_history(events),
    ensures
        mirrors(apply_all(TreeState::new(), events).0, paths, places_of(events)),
    decreases events.len(),
{
    if events.len() == 0 {
        let paths = seq![Seq::<u64>::empty()];
        assert(mirrors(TreeState::new(), paths, Set::empty()));
        paths
    } else {
        let earlier = events.drop_last();
        lemma_earlier_history(events);
        let paths = lemma_history(earlier);
        let before = apply_all(TreeState::new(), earlier).0;
        let worker = events.last().source();
        let places = places_of(earlier);
        let known = before.track(worker);
        lemma_track(before, paths, places, worker);
        assert(events[events.len() - 1].event.data is Stored);
        match events.last().event.data {
            KvCacheEventData::Stored(store) => {
                let parent = known.store_parent(worker, store.parent_hash)->Some_0;
                let base = base_of(places, worker, store.parent_hash);
                match store.parent_hash {
                    None => {},
                    Some(hash) => {
                        let place = Place { worker, hash: hash.0, path: paths[parent] };
                        assert(known.lookup[worker].contains_key(hash.0));
                        assert(places.contains(place));
                        assert(places.contains(Place { worker, hash: hash.0, path: base }));
                        lemma_with_run_adds(places, worker, base, store.blocks@);
                        lemma_fewer_places(places, places_of(events));
                    },
                }
                assert(base == paths[parent]);
                lemma_store_run(
                    known,
                    paths,
                    places,
                    worker,
                    parent,
                    store.blocks@,
                    Set::empty(),
                )
            },
            _ => paths,
        }
    }
}

} // verus!
