//! What holds of radix trees that a run of store events made.
use crate::kv_router::history::{
    apply_all, closed_above, hangs, has_paths, is_history, lemma_history, mirrors, one_place_each,
    places_of, stored_at, Place,
};
use crate::kv_router::protocols::{
    ExternalSequenceBlockHash, LocalBlockHash, WorkerWithDpRank,
};
use crate::kv_router::radix_dump::{stores, StoredAt, Visit};
use crate::kv_router::radix_rebuild::{
    is_link, law_dump_rebuilds_tree, lemma_level, lemma_visits, reached, rebuildable, replay,
};
use crate::kv_router::radix_state::{valid_table, TreeState};
use crate::kv_router::radix_tree::RouterEvent;
use vstd::prelude::*;

verus! {

/// A sequence as a way down from the root.
pub open spec fn way_of(sequence: Seq<LocalBlockHash>) -> Seq<u64> {
    sequence.map_values(|hash: LocalBlockHash| hash.0)
}

/// The hashes under which a worker stored blocks.
pub open spec fn stored_hashes(places: Set<Place>, worker: WorkerWithDpRank) -> Set<u64> {
    Set::new(
        |hash: u64| exists|path: Seq<u64>| #[trigger] places.contains(Place { worker, hash, path }),
    )
}

/// The number of blocks is that of the longest start of a sequence that a worker has stored from
/// the root.
pub open spec fn is_longest_stored(
    places: Set<Place>,
    worker: WorkerWithDpRank,
    sequence: Seq<LocalBlockHash>,
    blocks: int,
) -> bool {
    &&& 0 <= blocks <= sequence.len()
    &&& blocks > 0 ==> stored_at(places, worker, way_of(sequence).take(blocks))
    &&& forall|more: int|
        blocks < more <= sequence.len() ==> !stored_at(
            places,
            worker,
            #[trigger] way_of(sequence).take(more),
        )
}

/// What a way comes through: the blocks above a block are there too.
proof fn lemma_comes_through(tree: TreeState, paths: Seq<Seq<u64>>, block: int, len: int) -> (above:
    int)
    requires
        has_paths(tree, paths),
        0 <= block < paths.len(),
        0 <= len <= paths[block].len(),
    ensures
        0 <= above < paths.len(),
        paths[above] == paths[block].take(len),
    decreases paths[block].len(),
{
    if len == paths[block].len() {
        assert(paths[block].take(len) =~= paths[block]);
        block
    } else {
        assert(block > 0);
        assert(hangs(tree, paths, block));
        let near = choose|above: int|
            {
                &&& 0 <= above < tree.blocks.len()
                &&& paths[block] == (#[trigger] paths[above]).push(paths[block].last())
                &&& tree.blocks[above].children.contains_key(paths[block].last())
                &&& tree.blocks[above].children[paths[block].last()] == block
            };
        assert(paths[block].take(len) =~= paths[near].take(len));
        lemma_comes_through(tree, paths, near, len)
    }
}

/// Matching goes down the way of the sequence, and as far as there are blocks.
proof fn lemma_matched_way(
    tree: TreeState,
    paths: Seq<Seq<u64>>,
    at: int,
    sequence: Seq<LocalBlockHash>,
)
    requires
        tree.valid(),
        has_paths(tree, paths),
        0 <= at < paths.len(),
    ensures
        ({
            let found = tree.matched(at, sequence, false);
            let way = way_of(sequence);
            &&& found.len() <= sequence.len()
            &&& forall|i: int|
                0 <= i < found.len() ==> 0 < #[trigger] found[i] < paths.len() && paths[found[i]]
                    == paths[at] + way.take(i + 1)
            &&& found.len() < sequence.len() ==> !tree.blocks[if found.len() == 0 {
                at
            } else {
                found.last()
            }].children.contains_key(way[found.len() as int])
        }),
    decreases sequence.len(),
{
    let found = tree.matched(at, sequence, false);
    let way = way_of(sequence);
    if sequence.len() > 0 && tree.blocks[at].children.contains_key(sequence[0].0) {
        let next = tree.blocks[at].children[sequence[0].0] as int;
        let rest = sequence.skip(1);
        lemma_matched_way(tree, paths, next, rest);
        let deeper = tree.matched(next, rest, false);
        assert(found =~= seq![next] + deeper);
        assert(way_of(rest) =~= way.skip(1));
        assert forall|i: int| 0 <= i < found.len() implies 0 < #[trigger] found[i] < paths.len()
            && paths[found[i]] == paths[at] + way.take(i + 1) by {
            if i == 0 {
                assert(paths[at].push(way[0]) =~= paths[at] + way.take(1));
            } else {
                assert(found[i] == deeper[i - 1]);
                assert(paths[next] + way_of(rest).take(i) =~= paths[at] + way.take(i + 1));
            }
        }
        if found.len() < sequence.len() {
            assert(way[found.len() as int] == way_of(rest)[deeper.len() as int]);
            if deeper.len() > 0 {
                assert(found.last() == deeper.last());
            }
        }
    }
}

/// Where whoever holds a block holds those before it, the blocks that are held come first.
proof fn lemma_held_come_first(tree: TreeState, blocks: Seq<int>, worker: WorkerWithDpRank)
    requires
        forall|i: int, j: int|
            #![trigger blocks[i], blocks[j]]
            0 <= i < j < blocks.len() && tree.blocks[blocks[j]].workers.contains_key(worker)
                ==> tree.blocks[blocks[i]].workers.contains_key(worker),
    ensures
        tree.held_among(blocks, worker) <= blocks.len(),
        forall|i: int|
            0 <= i < blocks.len() ==> (tree.blocks[#[trigger] blocks[i]].workers.contains_key(
                worker,
            ) <==> i < tree.held_among(blocks, worker)),
    decreases blocks.len(),
{
    if blocks.len() > 0 {
        let shorter = blocks.drop_last();
        assert forall|i: int, j: int|
            #![trigger shorter[i], shorter[j]]
            0 <= i < j < shorter.len() && tree.blocks[shorter[j]].workers.contains_key(
                worker,
            ) implies tree.blocks[shorter[i]].workers.contains_key(worker) by {
            assert(shorter[i] == blocks[i] && shorter[j] == blocks[j]);
        }
        lemma_held_come_first(tree, shorter, worker);
        let last = blocks.len() - 1;
        assert forall|i: int| 0 <= i < blocks.len() implies (tree.blocks[
            #[trigger] blocks[i]].workers.contains_key(worker) <==> i < tree.held_among(
            blocks,
            worker,
        )) by {
            if tree.blocks[blocks[last]].workers.contains_key(worker) {
                if last > 0 {
                    assert(shorter[last - 1] == blocks[last - 1]);
                    assert(tree.blocks[blocks[last - 1]].workers.contains_key(worker));
                }
                if i < last {
                    assert(tree.blocks[blocks[i]].workers.contains_key(worker));
                }
            } else if i < last {
                assert(shorter[i] == blocks[i]);
            }
        }
    }
}

/// Whoever stored the end of a way stored all of it.
proof fn lemma_stored_above(
    places: Set<Place>,
    worker: WorkerWithDpRank,
    path: Seq<u64>,
    len: int,
)
    requires
        closed_above(places),
        stored_at(places, worker, path),
        0 < len <= path.len(),
    ensures
        stored_at(places, worker, path.take(len)),
    decreases path.len(),
{
    if len == path.len() {
        assert(path.take(len) =~= path);
    } else {
        let hash = choose|hash: u64| #[trigger] places.contains(Place { worker, hash, path });
        assert(places.contains(Place { worker, hash, path }));
        lemma_stored_above(places, worker, path.drop_last(), len);
        assert(path.drop_last().take(len) =~= path.take(len));
    }
}

/// A block is held by those who stored it.
proof fn lemma_held_if_stored(
    tree: TreeState,
    paths: Seq<Seq<u64>>,
    places: Set<Place>,
    block: int,
    worker: WorkerWithDpRank,
)
    requires
        mirrors(tree, paths, places),
        0 <= block < paths.len(),
    ensures
        tree.blocks[block].workers.contains_key(worker) <==> stored_at(
            places,
            worker,
            paths[block],
        ),
{
    if tree.blocks[block].workers.contains_key(worker) {
        let hash = tree.blocks[block].workers[worker].0;
        assert(places.contains(Place { worker, hash, path: paths[block] }));
    }
    if stored_at(places, worker, paths[block]) {
        let hash = choose|hash: u64| #[trigger]
            places.contains(Place { worker, hash, path: paths[block] });
        assert(places.contains(Place { worker, hash, path: paths[block] }));
        assert(tree.lookup[worker].contains_key(hash));
        let known = tree.lookup[worker][hash] as int;
        assert(valid_table(tree.lookup[worker], tree.blocks.len()));
        assert(paths[known] == paths[block]);
    }
}

/// In a tree that store events made, no worker storing under one hash in two places, the score of
/// a worker is the length of the longest start of the sequence that it has stored from the root,
/// and is left out where that is nothing. The size told of a scored worker is the number of
/// hashes that it has stored.
pub proof fn law_score_is_longest_stored(
    events: Seq<RouterEvent>,
    sequence: Seq<LocalBlockHash>,
    scores: Map<WorkerWithDpRank, u32>,
    sizes: Map<WorkerWithDpRank, usize>,
    worker: WorkerWithDpRank,
)
    requires
        is_history(events),
        ({
            let tree = apply_all(TreeState::new(), events).0;
            tree.scores_of(tree.matched(0, sequence, false), scores, sizes)
        }),
    ensures
        is_longest_stored(
            places_of(events),
            worker,
            sequence,
            if scores.contains_key(worker) {
                scores[worker] as int
            } else {
                0
            },
        ),
        scores.contains_key(worker) ==> scores[worker] > 0,
        sizes.contains_key(worker) <==> scores.contains_key(worker),
        sizes.contains_key(worker) ==> {
            &&& stored_hashes(places_of(events), worker).finite()
            &&& sizes[worker] == stored_hashes(places_of(events), worker).len()
        },
{
    let tree = apply_all(TreeState::new(), events).0;
    let places = places_of(events);
    let paths = lemma_history(events);
    let found = tree.matched(0, sequence, false);
    let way = way_of(sequence);
    lemma_matched_way(tree, paths, 0, sequence);
    assert forall|i: int| 0 <= i < found.len() implies #[trigger] paths[found[i]] == way.take(
        i + 1,
    ) by {
        assert(paths[0] + way.take(i + 1) =~= way.take(i + 1));
    }
    assert forall|i: int, j: int|
        #![trigger found[i], found[j]]
        0 <= i < j < found.len() && tree.blocks[found[j]].workers.contains_key(
            worker,
        ) implies tree.blocks[found[i]].workers.contains_key(worker) by {
        lemma_held_if_stored(tree, paths, places, found[j], worker);
        lemma_stored_above(places, worker, way.take(j + 1), i + 1);
        assert(way.take(j + 1).take(i + 1) =~= way.take(i + 1));
        lemma_held_if_stored(tree, paths, places, found[i], worker);
        assert(paths[found[i]] == way.take(i + 1));
    }
    lemma_held_come_first(tree, found, worker);
    let blocks = tree.held_among(found, worker) as int;
    if blocks > 0 {
        assert(tree.blocks[found[blocks - 1]].workers.contains_key(worker));
        lemma_held_if_stored(tree, paths, places, found[blocks - 1], worker);
        assert(paths[found[blocks - 1]] == way.take(blocks));
    }
    assert forall|more: int| blocks < more <= sequence.len() implies !stored_at(
        places,
        worker,
        #[trigger] way.take(more),
    ) by {
        if stored_at(places, worker, way.take(more)) {
            if more <= found.len() {
                assert(paths[found[more - 1]] == way.take(more));
                lemma_held_if_stored(tree, paths, places, found[more - 1], worker);
            } else {
                lemma_no_block_beyond(tree, paths, places, sequence, worker, more);
            }
        }
    }
    if scores.contains_key(worker) {
        assert(scores[worker] == blocks);
        assert(tree.blocks[found[0]].workers.contains_key(worker));
        let hash = tree.blocks[found[0]].workers[worker].0;
        assert(places.contains(Place { worker, hash, path: paths[found[0]] }));
        assert(tree.lookup.contains_key(worker));
        assert(valid_table(tree.lookup[worker], tree.blocks.len()));
        assert(stored_hashes(places, worker) =~= tree.lookup[worker].dom()) by {
            assert forall|hash: u64|
                stored_hashes(places, worker).contains(hash) <==> tree.lookup[worker].dom().contains(
                    hash,
                ) by {
                if stored_hashes(places, worker).contains(hash) {
                    let path = choose|path: Seq<u64>| #[trigger]
                        places.contains(Place { worker, hash, path });
                    assert(places.contains(Place { worker, hash, path }));
                }
                if tree.lookup[worker].contains_key(hash) {
                    let path = paths[tree.lookup[worker][hash] as int];
                    assert(places.contains(Place { worker, hash, path }));
                }
            }
        }
        assert(sizes.contains_key(worker));
    }
}

/// Nothing is stored where matching does not get.
proof fn lemma_no_block_beyond(
    tree: TreeState,
    paths: Seq<Seq<u64>>,
    places: Set<Place>,
    sequence: Seq<LocalBlockHash>,
    worker: WorkerWithDpRank,
    len: int,
)
    requires
        mirrors(tree, paths, places),
        tree.matched(0, sequence, false).len() < len <= sequence.len(),
    ensures
        !stored_at(places, worker, way_of(sequence).take(len)),
{
    let found = tree.matched(0, sequence, false);
    let way = way_of(sequence);
    let end = found.len() as int;
    lemma_matched_way(tree, paths, 0, sequence);
    if stored_at(places, worker, way.take(len)) {
        let hash = choose|hash: u64| #[trigger]
            places.contains(Place { worker, hash, path: way.take(len) });
        assert(places.contains(Place { worker, hash, path: way.take(len) }));
        let block = tree.lookup[worker][hash] as int;
        assert(valid_table(tree.lookup[worker], tree.blocks.len()));
        let next = lemma_comes_through(tree, paths, block, end + 1);
        assert(way.take(len).take(end + 1) =~= way.take(end + 1));
        assert(next > 0);
        assert(hangs(tree, paths, next));
        let above = choose|above: int|
            {
                &&& 0 <= above < tree.blocks.len()
                &&& paths[next] == (#[trigger] paths[above]).push(paths[next].last())
                &&& tree.blocks[above].children.contains_key(paths[next].last())
                &&& tree.blocks[above].children[paths[next].last()] == next
            };
        assert(paths[next].last() == way[end]);
        assert(paths[above] =~= way.take(end)) by {
            assert(paths[next].drop_last() =~= paths[above]);
            assert(way.take(end + 1).drop_last() =~= way.take(end));
        }
        if end == 0 {
            assert(paths[above] =~= paths[0]);
        } else {
            assert(paths[0] + way.take(end) =~= way.take(end));
            assert(paths[found[end - 1]] == paths[above]);
        }
    }
}

/// The length of the longest way.
spec fn longest(paths: Seq<Seq<u64>>) -> nat
    decreases paths.len(),
{
    if paths.len() == 0 {
        0
    } else if longest(paths.drop_last()) < paths.last().len() {
        paths.last().len()
    } else {
        longest(paths.drop_last())
    }
}

proof fn lemma_longest(paths: Seq<Seq<u64>>, block: int)
    requires
        0 <= block < paths.len(),
    ensures
        paths[block].len() <= longest(paths),
    decreases paths.len(),
{
    if block < paths.len() - 1 {
        lemma_longest(paths.drop_last(), block);
        assert(paths.drop_last()[block] == paths[block]);
    }
}

/// Each level holds the blocks whose ways have its length.
proof fn lemma_level_ways(tree: TreeState, paths: Seq<Seq<u64>>, depth: nat, visit: Visit)
    requires
        tree.valid(),
        has_paths(tree, paths),
        tree.level(depth).contains(visit),
    ensures
        0 < visit.block < paths.len(),
        paths[visit.block].len() == depth + 1,
    decreases depth,
{
    lemma_level(tree, depth);
    assert(is_link(tree, visit));
    assert(paths[visit.block] == paths[visit.above].push(visit.tokens));
    if depth > 0 {
        let less = (depth - 1) as nat;
        let i = choose|i: int|
            0 <= i < tree.level(less).len() && (#[trigger] tree.level(less)[i]).block
                == visit.above;
        assert(tree.level(less).contains(tree.level(less)[i]));
        lemma_level_ways(tree, paths, less, tree.level(less)[i]);
    }
}

/// Every way down ends.
proof fn lemma_ways_end(tree: TreeState, paths: Seq<Seq<u64>>)
    requires
        tree.valid(),
        has_paths(tree, paths),
    ensures
        tree.finite_depth(),
{
    let depth = longest(paths);
    if tree.level(depth).len() > 0 {
        let visit = tree.level(depth)[0];
        assert(tree.level(depth).contains(visit));
        lemma_level_ways(tree, paths, depth, visit);
        lemma_longest(paths, visit.block);
    }
}

/// Every block but the root is reached.
proof fn lemma_all_reached(tree: TreeState, paths: Seq<Seq<u64>>, block: int)
    requires
        tree.valid(),
        has_paths(tree, paths),
        tree.finite_depth(),
        0 < block < paths.len(),
    ensures
        reached(tree, block),
    decreases paths[block].len(),
{
    assert(hangs(tree, paths, block));
    let above = choose|above: int|
        {
            &&& 0 <= above < tree.blocks.len()
            &&& paths[block] == (#[trigger] paths[above]).push(paths[block].last())
            &&& tree.blocks[above].children.contains_key(paths[block].last())
            &&& tree.blocks[above].children[paths[block].last()] == block
        };
    let visit = Visit { block, above, tokens: paths[block].last() };
    assert(is_link(tree, visit));
    lemma_visits(tree);
    if above > 0 {
        lemma_all_reached(tree, paths, above);
    }
    assert(tree.all_visits().contains(visit));
    let i = choose|i: int| 0 <= i < tree.all_visits().len() && tree.all_visits()[i] == visit;
    assert(tree.all_visits()[i].block == block);
}

/// A tree that store events made can be rebuilt from its dump.
proof fn lemma_rebuildable(tree: TreeState, paths: Seq<Seq<u64>>, places: Set<Place>)
    requires
        mirrors(tree, paths, places),
        one_place_each(places),
    ensures
        rebuildable(tree),
{
    lemma_ways_end(tree, paths);
    lemma_visits(tree);
    assert forall|visit: Visit, worker: WorkerWithDpRank|
        #![trigger is_link(tree, visit), tree.blocks[visit.block].workers.contains_key(worker)]
        is_link(tree, visit) && reached(tree, visit.above)
            && tree.blocks[visit.block].workers.contains_key(
            worker,
        ) implies tree.blocks[visit.above].workers.contains_key(worker) by {
        let i = choose|i: int|
            0 <= i < tree.all_visits().len() && (#[trigger] tree.all_visits()[i]).block
                == visit.above;
        assert(is_link(tree, tree.all_visits()[i]));
        assert(visit.above > 0);
        assert(hangs(tree, paths, visit.above));
        assert(paths[visit.block] == paths[visit.above].push(visit.tokens));
        assert(paths[visit.block].take(paths[visit.above].len() as int) =~= paths[visit.above]);
        lemma_held_if_stored(tree, paths, places, visit.block, worker);
        lemma_stored_above(
            places,
            worker,
            paths[visit.block],
            paths[visit.above].len() as int,
        );
        lemma_held_if_stored(tree, paths, places, visit.above, worker);
    }
    assert forall|a: int, b: int, worker: WorkerWithDpRank|
        #![trigger tree.blocks[a].workers[worker], tree.blocks[b].workers[worker]]
        reached(tree, a) && reached(tree, b) && tree.blocks[a].workers.contains_key(worker)
            && tree.blocks[b].workers.contains_key(worker) && tree.blocks[a].workers[worker]
            == tree.blocks[b].workers[worker] implies a == b by {
        let i = choose|i: int|
            0 <= i < tree.all_visits().len() && (#[trigger] tree.all_visits()[i]).block == a;
        let j = choose|j: int|
            0 <= j < tree.all_visits().len() && (#[trigger] tree.all_visits()[j]).block == b;
        assert(is_link(tree, tree.all_visits()[i]) && is_link(tree, tree.all_visits()[j]));
        let hash = tree.blocks[a].workers[worker].0;
        assert(places.contains(Place { worker, hash, path: paths[a] }));
        assert(places.contains(Place { worker, hash, path: paths[b] }));
        assert(paths[a] == paths[b]);
    }
}

/// Events that store single blocks do what replaying those blocks does.
proof fn lemma_events_replay(start: TreeState, events: Seq<RouterEvent>, records: Seq<StoredAt>)
    requires
        events.len() == records.len(),
        forall|i: int| 0 <= i < events.len() ==> stores(#[trigger] events[i], i, records[i]),
    ensures
        apply_all(start, events) == replay(start, records),
    decreases events.len(),
{
    if events.len() > 0 {
        let fewer = events.drop_last();
        let earlier = records.drop_last();
        assert forall|i: int| 0 <= i < fewer.len() implies stores(
            #[trigger] fewer[i],
            i,
            earlier[i],
        ) by {
            assert(stores(events[i], i, records[i]));
        }
        lemma_events_replay(start, fewer, earlier);
        let last = events.len() - 1;
        assert(stores(events[last], last, records[last]));
        assert(events.last().source() == records.last().worker);
    }
}

/// A dump rebuilds a tree that store events made, no worker storing under one hash in two places:
/// none of the dumped events fails on an empty tree, every sequence then scores every worker as it
/// did, and every worker that holds a block is known again.
pub proof fn law_dump_rebuilds_history(
    events: Seq<RouterEvent>,
    dumped: Seq<RouterEvent>,
    sequence: Seq<LocalBlockHash>,
    early_exit: bool,
    worker: WorkerWithDpRank,
)
    requires
        is_history(events),
        ({
            let tree = apply_all(TreeState::new(), events).0;
            &&& dumped.len() == tree.dump().len()
            &&& forall|i: int|
                0 <= i < dumped.len() ==> stores(#[trigger] dumped[i], i, tree.dump()[i])
        }),
    ensures
        ({
            let tree = apply_all(TreeState::new(), events).0;
            let (copy, fine) = apply_all(TreeState::new(), dumped);
            &&& tree.finite_depth()
            &&& fine
            &&& copy.valid()
            &&& copy.held_among(copy.matched(0, sequence, early_exit), worker) == tree.held_among(
                tree.matched(0, sequence, early_exit),
                worker,
            )
            &&& (exists|block: int|
                0 <= block < tree.blocks.len() && (
                #[trigger] tree.blocks[block]).workers.contains_key(worker))
                ==> copy.lookup.contains_key(worker)
        }),
{
    let tree = apply_all(TreeState::new(), events).0;
    let places = places_of(events);
    let paths = lemma_history(events);
    lemma_rebuildable(tree, paths, places);
    lemma_events_replay(TreeState::new(), dumped, tree.dump());
    let copy = apply_all(TreeState::new(), dumped).0;
    if exists|block: int|
        0 <= block < tree.blocks.len() && (#[trigger] tree.blocks[block]).workers.contains_key(
            worker,
        ) {
        let block = choose|block: int|
            0 <= block < tree.blocks.len() && (#[trigger] tree.blocks[block]).workers.contains_key(
                worker,
            );
        let hash = tree.blocks[block].workers[worker];
        assert(block > 0);
        lemma_all_reached(tree, paths, block);
        law_dump_rebuilds_tree(tree, sequence, early_exit, worker, hash);
        assert(reached(tree, block) && tree.blocks[block].workers.contains_key(worker)
            && tree.blocks[block].workers[worker] == hash);
    } else {
        law_dump_rebuilds_tree(
            tree,
            sequence,
            early_exit,
            worker,
            ExternalSequenceBlockHash(0),
        );
    }
}

} // verus!
