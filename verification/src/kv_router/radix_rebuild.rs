//! Rebuilding a radix tree from its own dump.
use crate::kv_router::protocols::{
    ExternalSequenceBlockHash, KvCacheStoredBlockData, LocalBlockHash, WorkerWithDpRank,
};
use crate::kv_router::radix_dump::{
    hashes_in_order, lemma_all_visits, lemma_hashes_listed, lemma_workers_listed, workers_in_order,
    StoredAt, Visit,
};
use crate::kv_router::radix_state::{
    lemma_hold_valid, lemma_link_valid, lemma_with_worker_valid, BlockState,
    TreeState, WorkerState,
};
use vstd::prelude::*;

verus! {

/// Applies single stored blocks one after the other; the flag tells whether all were stored.
pub open spec fn replay(start: TreeState, records: Seq<StoredAt>) -> (TreeState, bool)
    decreases records.len(),
{
    if records.len() == 0 {
        (start, true)
    } else {
        let (before, stored) = replay(start, records.drop_last());
        let record = records.last();
        let (after, result) = before.track(record.worker).store(
            record.worker,
            record.parent_hash,
            seq![record.block],
        );
        (after, stored && result is Ok)
    }
}

/// A link of the tree.
pub open spec fn is_link(tree: TreeState, visit: Visit) -> bool {
    &&& 0 <= visit.above < tree.blocks.len()
    &&& tree.blocks[visit.above].children.contains_key(visit.tokens)
    &&& tree.blocks[visit.above].children[visit.tokens] == visit.block
    &&& 0 < visit.block < tree.blocks.len()
}

proof fn lemma_below(tree: TreeState, block: int, visit: Visit)
    requires
        tree.valid(),
        0 <= block < tree.blocks.len(),
    ensures
        tree.below(block).contains(visit) <==> visit.above == block && is_link(tree, visit),
{
    let children = tree.blocks[block].children;
    let hashes = hashes_in_order(children.dom());
    lemma_hashes_listed(children.dom());
    let below = tree.below(block);
    if below.contains(visit) {
        let i = choose|i: int| 0 <= i < below.len() && below[i] == visit;
        assert(hashes.contains(hashes[i]));
        assert(children.contains_key(hashes[i]));
    }
    if visit.above == block && is_link(tree, visit) {
        assert(hashes.contains(visit.tokens));
        let i = choose|i: int| 0 <= i < hashes.len() && hashes[i] == visit.tokens;
        assert(below[i] == visit);
    }
}

/// Membership in the children of several visited blocks.
proof fn lemma_below_all(tree: TreeState, visits: Seq<Visit>, visit: Visit)
    requires
        tree.valid(),
        forall|i: int| 0 <= i < visits.len() ==> is_link(tree, #[trigger] visits[i]),
    ensures
        tree.below_all(visits).contains(visit) <==> is_link(tree, visit) && exists|i: int|
            0 <= i < visits.len() && (#[trigger] visits[i]).block == visit.above,
    decreases visits.len(),
{
    if visits.len() > 0 {
        let shorter = visits.drop_last();
        let last = visits.last();
        assert(is_link(tree, visits[visits.len() - 1]));
        assert forall|i: int| 0 <= i < shorter.len() implies is_link(
            tree,
            #[trigger] shorter[i],
        ) by {
            assert(shorter[i] == visits[i]);
        }
        lemma_below_all(tree, shorter, visit);
        lemma_below(tree, last.block, visit);
        let first = tree.below_all(shorter);
        let second = tree.below(last.block);
        let all = tree.below_all(visits);
        if all.contains(visit) {
            let i = choose|i: int| 0 <= i < all.len() && all[i] == visit;
            if i < first.len() {
                assert(first[i] == visit);
                let k = choose|k: int| 0 <= k < shorter.len() && (#[trigger] shorter[k]).block
                    == visit.above;
                assert(visits[k].block == visit.above);
            } else {
                assert(second[i - first.len()] == visit);
                assert(visits[visits.len() - 1].block == visit.above);
            }
        }
        if is_link(tree, visit) && exists|i: int|
            0 <= i < visits.len() && (#[trigger] visits[i]).block == visit.above {
            let k = choose|k: int| 0 <= k < visits.len() && (#[trigger] visits[k]).block
                == visit.above;
            if k < shorter.len() {
                assert(shorter[k].block == visit.above);
                let i = choose|i: int| 0 <= i < first.len() && first[i] == visit;
                assert(all[i] == visit);
            } else {
                let i = choose|i: int| 0 <= i < second.len() && second[i] == visit;
                assert(all[first.len() + i] == visit);
            }
        }
    }
}

/// What a level holds: links from the root, or from the blocks of the level above.
pub proof fn lemma_level(tree: TreeState, depth: nat)
    requires
        tree.valid(),
    ensures
        forall|i: int|
            0 <= i < tree.level(depth).len() ==> is_link(tree, #[trigger] tree.level(depth)[i]),
        forall|visit: Visit| #[trigger]
            tree.level(depth).contains(visit) <==> is_link(tree, visit) && (if depth == 0 {
                visit.above == 0
            } else {
                exists|i: int|
                    0 <= i < tree.level((depth - 1) as nat).len() && (#[trigger] tree.level(
                        (depth - 1) as nat,
                    )[i]).block == visit.above
            }),
    decreases depth,
{
    let level = tree.level(depth);
    if depth == 0 {
        assert forall|visit: Visit| #[trigger]
            level.contains(visit) <==> is_link(tree, visit) && visit.above == 0 by {
            lemma_below(tree, 0, visit);
        }
    } else {
        lemma_level(tree, (depth - 1) as nat);
        assert forall|visit: Visit| #[trigger]
            level.contains(visit) <==> is_link(tree, visit) && exists|i: int|
                0 <= i < tree.level((depth - 1) as nat).len() && (#[trigger] tree.level(
                    (depth - 1) as nat,
                )[i]).block == visit.above by {
            lemma_below_all(tree, tree.level((depth - 1) as nat), visit);
        }
    }
    assert forall|i: int| 0 <= i < level.len() implies is_link(tree, #[trigger] level[i]) by {
        assert(level.contains(level[i]));
    }
}

/// The levels hold every level in turn.
proof fn lemma_levels(tree: TreeState, depth: nat)
    requires
        tree.valid(),
    ensures
        forall|i: int|
            0 <= i < tree.levels(depth).len() ==> is_link(tree, #[trigger] tree.levels(depth)[i]),
        forall|i: int|
            0 <= i < tree.levels(depth).len() ==> (#[trigger] tree.levels(depth)[i]).above == 0
                || visited_before(tree.levels(depth), i),
        forall|other: nat, visit: Visit|
            other < depth && #[trigger] tree.level(other).contains(visit) ==> tree.levels(
                depth,
            ).contains(visit),
        forall|i: int|
            0 <= i < tree.levels(depth).len() ==> in_some_level(
                tree,
                depth,
                #[trigger] tree.levels(depth)[i],
            ),
    decreases depth,
{
    if depth > 0 {
        let less = (depth - 1) as nat;
        lemma_levels(tree, less);
        lemma_level(tree, less);
        let first = tree.levels(less);
        let second = tree.level(less);
        let all = tree.levels(depth);
        assert(all =~= first + second);
        assert forall|i: int| 0 <= i < all.len() implies is_link(tree, #[trigger] all[i]) && (
        all[i].above == 0 || visited_before(all, i)) && in_some_level(tree, depth, all[i]) by {
            if i < first.len() {
                assert(all[i] == first[i]);
                if first[i].above != 0 {
                    assert(visited_before(first, i));
                    let j = choose|j: int| 0 <= j < i && (#[trigger] first[j]).block
                        == first[i].above;
                    assert(all[j].block == all[i].above);
                }
                assert(in_some_level(tree, less, first[i]));
                let other = choose|other: nat| other < less && #[trigger] tree.level(
                    other,
                ).contains(first[i]);
                assert(tree.level(other).contains(all[i]));
            } else {
                let at = i - first.len();
                assert(all[i] == second[at]);
                assert(second.contains(second[at]));
                if less > 0 {
                    let above = tree.level((less - 1) as nat);
                    let k = choose|k: int| 0 <= k < above.len() && (#[trigger] above[k]).block
                        == second[at].above;
                    assert(first =~= tree.levels((less - 1) as nat) + above);
                    let j = tree.levels((less - 1) as nat).len() + k;
                    assert(all[j].block == all[i].above);
                    assert(visited_before(all, i));
                }
                assert(tree.level(less).contains(all[i]));
            }
        }
        assert forall|other: nat, visit: Visit|
            other < depth && #[trigger] tree.level(other).contains(visit) implies all.contains(
            visit,
        ) by {
            if other == less {
                let i = choose|i: int| 0 <= i < second.len() && second[i] == visit;
                assert(all[first.len() + i] == visit);
            } else {
                let i = choose|i: int| 0 <= i < first.len() && first[i] == visit;
                assert(all[i] == visit);
            }
        }
    }
}

/// The block above visit `i` was itself visited earlier.
pub open spec fn visited_before(visits: Seq<Visit>, i: int) -> bool {
    exists|j: int| 0 <= j < i && (#[trigger] visits[j]).block == visits[i].above
}

spec fn in_some_level(tree: TreeState, depth: nat, visit: Visit) -> bool {
    exists|other: nat| other < depth && #[trigger] tree.level(other).contains(visit)
}

/// A block that links to itself is met on every deeper level.
proof fn lemma_self_link_never_ends(tree: TreeState, visit: Visit, depth: nat, deeper: nat)
    requires
        tree.valid(),
        visit.above == visit.block,
        is_link(tree, visit),
        tree.level(depth).contains(visit),
        depth <= deeper,
    ensures
        tree.level(deeper).contains(visit),
    decreases deeper,
{
    if depth < deeper {
        lemma_self_link_never_ends(tree, visit, depth, (deeper - 1) as nat);
        lemma_level(tree, deeper);
        let above = tree.level((deeper - 1) as nat);
        let i = choose|i: int| 0 <= i < above.len() && above[i] == visit;
        assert(above[i].block == visit.above);
    }
}

/// The visits of a tree of finite depth: links only, each below the root or below a block visited
/// before, none from a block to itself, and all links of the root and of visited blocks.
pub proof fn lemma_visits(tree: TreeState)
    requires
        tree.valid(),
        tree.finite_depth(),
    ensures
        forall|i: int|
            0 <= i < tree.all_visits().len() ==> {
                let visit = #[trigger] tree.all_visits()[i];
                &&& is_link(tree, visit)
                &&& visit.above != visit.block
                &&& visit.above == 0 || visited_before(tree.all_visits(), i)
            },
        forall|visit: Visit|
            #![trigger tree.all_visits().contains(visit)]
            is_link(tree, visit) && (visit.above == 0 || exists|i: int|
                0 <= i < tree.all_visits().len() && (#[trigger] tree.all_visits()[i]).block
                    == visit.above) ==> tree.all_visits().contains(visit),
{
    let end = choose|depth: nat| (#[trigger] tree.level(depth)).len() == 0;
    let visits = tree.all_visits();
    lemma_all_visits(tree, end);
    lemma_levels(tree, end);
    assert forall|i: int| 0 <= i < visits.len() implies {
        let visit = #[trigger] visits[i];
        &&& is_link(tree, visit)
        &&& visit.above != visit.block
        &&& visit.above == 0 || visited_before(visits, i)
    } by {
        let visit = tree.levels(end)[i];
        assert(in_some_level(tree, end, visit));
        let depth = choose|other: nat| other < end && #[trigger] tree.level(other).contains(visit);
        if visit.above == visit.block {
            lemma_self_link_never_ends(tree, visit, depth, end);
        }
    }
    assert forall|visit: Visit|
        #![trigger visits.contains(visit)]
        is_link(tree, visit) && (visit.above == 0 || exists|i: int|
            0 <= i < visits.len() && (#[trigger] visits[i]).block
                == visit.above) implies visits.contains(visit) by {
        if visit.above == 0 {
            lemma_level(tree, 0);
            assert(tree.level(0).contains(visit));
            if end == 0 {
                assert(tree.level(0).len() > 0);
            }
        } else {
            let i = choose|i: int| 0 <= i < visits.len() && (#[trigger] visits[i]).block
                == visit.above;
            let above = tree.levels(end)[i];
            assert(in_some_level(tree, end, above));
            let depth = choose|other: nat|
                other < end && #[trigger] tree.level(other).contains(above);
            lemma_level(tree, depth + 1);
            let level = tree.level(depth);
            let k = choose|k: int| 0 <= k < level.len() && level[k] == above;
            assert(level[k].block == visit.above);
            assert(tree.level(depth + 1).contains(visit));
            if depth + 1 == end {
                assert(tree.level(end).len() > 0);
            }
        }
    }
}

/// A way down from the root, one visit per level.
spec fn is_way_down(tree: TreeState, way: Seq<Visit>) -> bool {
    &&& forall|k: int| 0 <= k < way.len() ==> tree.level(k as nat).contains(#[trigger] way[k])
    &&& forall|k: int| 0 < k < way.len() ==> (#[trigger] way[k]).above == way[k - 1].block
}

proof fn lemma_way_down(tree: TreeState, depth: nat, visit: Visit) -> (way: Seq<Visit>)
    requires
        tree.valid(),
        tree.level(depth).contains(visit),
    ensures
        is_way_down(tree, way),
        way.len() == depth + 1,
        way.last() == visit,
    decreases depth,
{
    if depth == 0 {
        seq![visit]
    } else {
        lemma_level(tree, depth);
        let above = tree.level((depth - 1) as nat);
        let i = choose|i: int| 0 <= i < above.len() && (#[trigger] above[i]).block == visit.above;
        let shorter = lemma_way_down(tree, (depth - 1) as nat, above[i]);
        let way = shorter.push(visit);
        assert forall|k: int| 0 <= k < way.len() implies tree.level(k as nat).contains(
            #[trigger] way[k],
        ) by {
            if k < shorter.len() {
                assert(way[k] == shorter[k]);
            }
        }
        assert forall|k: int| 0 < k < way.len() implies (#[trigger] way[k]).above == way[k
            - 1].block by {
            if k < shorter.len() {
                assert(way[k] == shorter[k]);
            }
        }
        way
    }
}

/// Some visit of a level is to `block`.
spec fn level_meets(tree: TreeState, depth: nat, block: int) -> bool {
    exists|i: int| 0 <= i < tree.level(depth).len() && (#[trigger] tree.level(depth)[i]).block == block
}

/// From any visit to a block of the way, the rest of the way can be followed again.
proof fn lemma_follow(tree: TreeState, way: Seq<Visit>, from: int, to: int, depth: nat)
    requires
        tree.valid(),
        is_way_down(tree, way),
        0 <= from <= to < way.len(),
        level_meets(tree, depth, way[from].block),
    ensures
        level_meets(tree, (depth + (to - from)) as nat, way[to].block),
    decreases to - from,
{
    if from < to {
        lemma_follow(tree, way, from, to - 1, depth);
        let above = (depth + (to - 1 - from)) as nat;
        let below = (depth + (to - from)) as nat;
        lemma_level(tree, to as nat);
        lemma_level(tree, below);
        assert(tree.level(to as nat).contains(way[to]));
        assert(is_link(tree, way[to]));
        let i = choose|i: int|
            0 <= i < tree.level(above).len() && (#[trigger] tree.level(above)[i]).block == way[to
                - 1].block;
        assert(tree.level(above)[i].block == way[to].above);
        assert((below - 1) as nat == above);
        assert(tree.level(below).contains(way[to]));
        let k = choose|k: int| 0 <= k < tree.level(below).len() && tree.level(below)[k] == way[to];
        assert(tree.level(below)[k].block == way[to].block);
    }
}

/// A way that comes back to a block can be walked any number of times.
proof fn lemma_walk_again(tree: TreeState, way: Seq<Visit>, from: int, to: int, times: nat) -> (depth:
    nat)
    requires
        tree.valid(),
        is_way_down(tree, way),
        0 <= from < to < way.len(),
        way[from].block == way[to].block,
    ensures
        depth >= times,
        level_meets(tree, depth, way[from].block),
    decreases times,
{
    if times == 0 {
        let level = tree.level(from as nat);
        assert(level.contains(way[from]));
        let k = choose|k: int| 0 <= k < level.len() && level[k] == way[from];
        assert(level[k].block == way[from].block);
        from as nat
    } else {
        let depth = lemma_walk_again(tree, way, from, to, (times - 1) as nat);
        lemma_follow(tree, way, from, to, depth);
        (depth + (to - from)) as nat
    }
}

/// A tree that has as many levels as blocks has infinitely many.
pub proof fn lemma_too_deep(tree: TreeState)
    requires
        tree.valid(),
        tree.level(tree.blocks.len()).len() > 0,
    ensures
        !tree.finite_depth(),
{
    let count = tree.blocks.len();
    let level = tree.level(count);
    let way = lemma_way_down(tree, count, level[0]);
    let blocks = way.map_values(|visit: Visit| visit.block);
    let all = vstd::set_lib::set_int_range(0, count as int);
    vstd::set_lib::lemma_int_range(0, count as int);
    assert(blocks.to_set().subset_of(all)) by {
        assert forall|block: int| blocks.to_set().contains(block) implies all.contains(block) by {
            let k = choose|k: int| 0 <= k < blocks.len() && blocks[k] == block;
            lemma_level(tree, k as nat);
            assert(tree.level(k as nat).contains(way[k]));
        }
    }
    vstd::set_lib::lemma_len_subset(blocks.to_set(), all);
    if blocks.no_duplicates() {
        blocks.unique_seq_to_set();
    }
    let (i, j) = choose|i: int, j: int|
        0 <= i < blocks.len() && 0 <= j < blocks.len() && i != j && #[trigger] blocks[i]
            == #[trigger] blocks[j];
    let (from, to) = if i < j {
        (i, j)
    } else {
        (j, i)
    };
    assert(way[from].block == way[to].block);
    if tree.finite_depth() {
        let end = choose|depth: nat| (#[trigger] tree.level(depth)).len() == 0;
        let depth = lemma_walk_again(tree, way, from, to, end);
        crate::kv_router::radix_dump::lemma_levels_end(tree, end, depth);
    }
}

/// How far a copy of a tree has come: where each block stands in the copy, which workers hold
/// which blocks there, and which links are drawn.
pub struct Progress {
    pub place: Map<int, int>,
    pub done: Set<(int, WorkerWithDpRank)>,
    pub linked: Set<(int, u64)>,
}

impl Progress {
    pub open spec fn start() -> Progress {
        Progress { place: map![0int => 0int], done: Set::empty(), linked: Set::empty() }
    }

    /// Blocks have places of their own, and the copy has no other blocks.
    pub open spec fn places(self, tree: TreeState, copy: TreeState) -> bool {
        &&& self.place.dom().finite()
        &&& self.place.contains_key(0)
        &&& self.place[0] == 0
        &&& copy.blocks.len() == self.place.dom().len()
        &&& forall|block: int| #[trigger]
            self.place.contains_key(block) ==> 0 <= block < tree.blocks.len() && 0
                <= self.place[block] < copy.blocks.len()
        &&& forall|a: int, b: int|
            #![trigger self.place[a], self.place[b]]
            self.place.contains_key(a) && self.place.contains_key(b) && self.place[a]
                == self.place[b] ==> a == b
    }

    /// The copy's holders are those of the tree, as far as they are done.
    pub open spec fn holders(self, tree: TreeState, copy: TreeState) -> bool {
        &&& forall|block: int, worker: WorkerWithDpRank|
            #![trigger self.done.contains((block, worker))]
            #![trigger copy.blocks[self.place[block]].workers.contains_key(worker)]
            self.place.contains_key(block) ==> (copy.blocks[self.place[block]].workers.contains_key(
                worker,
            ) <==> self.done.contains((block, worker)))
        &&& forall|block: int, worker: WorkerWithDpRank| #[trigger]
            self.done.contains((block, worker)) ==> {
                &&& self.place.contains_key(block)
                &&& block != 0
                &&& tree.blocks[block].workers.contains_key(worker)
                &&& copy.blocks[self.place[block]].workers[worker]
                    == tree.blocks[block].workers[worker]
            }
    }

    /// The copy's links are those of the tree, as far as they are drawn.
    pub open spec fn links(self, tree: TreeState, copy: TreeState) -> bool {
        &&& forall|block: int, tokens: u64|
            #![trigger self.linked.contains((block, tokens))]
            #![trigger copy.blocks[self.place[block]].children.contains_key(tokens)]
            self.place.contains_key(block) ==> (
            copy.blocks[self.place[block]].children.contains_key(tokens) <==> self.linked.contains(
                (block, tokens),
            ))
        &&& forall|block: int, tokens: u64| #[trigger]
            self.linked.contains((block, tokens)) ==> {
                &&& self.place.contains_key(block)
                &&& tree.blocks[block].children.contains_key(tokens)
                &&& self.place.contains_key(tree.blocks[block].children[tokens] as int)
                &&& copy.blocks[self.place[block]].children[tokens]
                    == self.place[tree.blocks[block].children[tokens] as int]
            }
    }

    /// The copy's tables name the places of the blocks that are done, and nothing else.
    pub open spec fn tables(self, tree: TreeState, copy: TreeState) -> bool {
        &&& forall|block: int, worker: WorkerWithDpRank| #[trigger]
            self.done.contains((block, worker)) ==> {
                let hash = tree.blocks[block].workers[worker].0;
                &&& copy.lookup.contains_key(worker)
                &&& copy.lookup[worker].contains_key(hash)
                &&& copy.lookup[worker][hash] == self.place[block]
            }
        &&& forall|worker: WorkerWithDpRank, hash: u64|
            #![trigger copy.lookup[worker].contains_key(hash)]
            copy.lookup.contains_key(worker) && copy.lookup[worker].contains_key(hash)
                ==> exists|block: int| #[trigger]
                self.done.contains((block, worker)) && tree.blocks[block].workers[worker].0 == hash
    }

    pub open spec fn copied(self, tree: TreeState, copy: TreeState) -> bool {
        &&& copy.valid()
        &&& self.places(tree, copy)
        &&& self.holders(tree, copy)
        &&& self.links(tree, copy)
        &&& self.tables(tree, copy)
    }

    /// The progress once `worker` holds the visited block.
    pub open spec fn with(self, copy: TreeState, visit: Visit, worker: WorkerWithDpRank) -> Progress {
        Progress {
            place: if self.place.contains_key(visit.block) {
                self.place
            } else {
                self.place.insert(visit.block, copy.blocks.len() as int)
            },
            done: self.done.insert((visit.block, worker)),
            linked: self.linked.insert((visit.above, visit.tokens)),
        }
    }
}

/// The record of one holder of a visited block.
pub open spec fn record_of(tree: TreeState, visit: Visit, worker: WorkerWithDpRank) -> StoredAt {
    StoredAt {
        worker,
        parent_hash: if tree.blocks[visit.above].workers.contains_key(worker) {
            Some(tree.blocks[visit.above].workers[worker])
        } else {
            None
        },
        block: KvCacheStoredBlockData {
            block_hash: tree.blocks[visit.block].workers[worker],
            tokens_hash: LocalBlockHash(visit.tokens),
        },
    }
}

/// Replaying the record of one holder draws one link and adds one holder.
#[verifier::spinoff_prover]
#[verifier::rlimit(50)]
proof fn lemma_replay_one(
    tree: TreeState,
    copy: TreeState,
    progress: Progress,
    visit: Visit,
    worker: WorkerWithDpRank,
)
    requires
        tree.valid(),
        progress.copied(tree, copy),
        is_link(tree, visit),
        visit.above != visit.block,
        tree.blocks[visit.block].workers.contains_key(worker),
        progress.place.contains_key(visit.above),
        visit.above == 0 || progress.done.contains((visit.above, worker)),
        !progress.place.contains_key(visit.block) || progress.linked.contains(
            (visit.above, visit.tokens),
        ) || progress.done.contains((visit.block, worker)),
        forall|block: int| #[trigger]
            progress.done.contains((block, worker)) && tree.blocks[block].workers[worker]
                == tree.blocks[visit.block].workers[worker] ==> block == visit.block,
    ensures
        ({
            let record = record_of(tree, visit, worker);
            let (after, result) = copy.track(worker).store(
                worker,
                record.parent_hash,
                seq![record.block],
            );
            &&& result is Ok
            &&& progress.with(copy, visit, worker).copied(tree, after)
        }),
{
    reveal_with_fuel(WorkerState::store, 2);
    let record = record_of(tree, visit, worker);
    let known = copy.track(worker);
    let above = progress.place[visit.above];
    let hash = record.block.block_hash;
    let next = progress.with(copy, visit, worker);
    assert(known.lookup.contains_key(worker));
    assert(known.valid());
    assert(known.store_parent(worker, record.parent_hash) == Some(above)) by {
        if visit.above != 0 {
            assert(progress.done.contains((visit.above, worker)));
        }
    }
    let state = known.of_worker(worker);
    assert(state.valid());
    if !progress.place.contains_key(visit.block) {
        lemma_room(tree, progress.place, visit.block);
    }
    let child = state.child_for(above, record.block) as int;
    let linked = state.link(above, record.block);
    assert(child == next.place[visit.block]) by {
        if progress.linked.contains((visit.above, visit.tokens)) {
            assert(copy.blocks[above].children.contains_key(visit.tokens));
        } else {
            assert(!copy.blocks[above].children.contains_key(visit.tokens));
            if known.lookup[worker].contains_key(hash.0) {
                assert(copy.lookup.contains_key(worker));
                assert(copy.lookup[worker].contains_key(hash.0));
                let block = choose|block: int| #[trigger]
                    progress.done.contains((block, worker))
                        && tree.blocks[block].workers[worker].0 == hash.0;
                assert(block == visit.block);
            } else {
                assert(!progress.done.contains((visit.block, worker)));
            }
        }
    }
    lemma_link_valid(state, above, record.block);
    assert(child != above) by {
        if progress.place.contains_key(visit.block) {
            assert(progress.place[visit.block] != progress.place[visit.above]);
        }
    }
    lemma_hold_valid(linked, worker, child, hash);
    let held = linked.hold(worker, child, hash);
    let run = seq![record.block];
    assert(run.skip(1) =~= Seq::empty());
    assert(run[0] == record.block);
    let chain = Set::<int>::empty().insert(above);
    assert(!chain.contains(child));
    assert(state.store(worker, above, run, Set::empty()) == (held, true));
    let after = known.with_worker(worker, held);
    lemma_with_worker_valid(known, worker, held);
    assert(next.places(tree, after)) by {
        assert forall|a: int, b: int|
            #![trigger next.place[a], next.place[b]]
            next.place.contains_key(a) && next.place.contains_key(b) && next.place[a]
                == next.place[b] implies a == b by {
            assert(progress.place.contains_key(a) ==> progress.place[a] < copy.blocks.len());
            assert(progress.place.contains_key(b) ==> progress.place[b] < copy.blocks.len());
        }
    }
    assert forall|block: int| #[trigger] next.place.contains_key(block) implies {
        let at = next.place[block];
        &&& after.blocks[at].workers == if block == visit.block {
            linked.blocks[at].workers.insert(worker, hash)
        } else {
            linked.blocks[at].workers
        }
        &&& after.blocks[at].children == linked.blocks[at].children
    } by {
        if block != visit.block {
            assert(next.place[block] != next.place[visit.block]);
        }
    }
    assert forall|block: int| #[trigger] progress.place.contains_key(block) implies {
        let at = progress.place[block];
        &&& linked.blocks[at].workers == copy.blocks[at].workers
        &&& linked.blocks[at].children == if block == visit.above {
            copy.blocks[at].children.insert(visit.tokens, child as usize)
        } else {
            copy.blocks[at].children
        }
    } by {
        let at = progress.place[block];
        if block != visit.above {
            assert(progress.place[block] != progress.place[visit.above]);
        } else if copy.blocks[at].children.contains_key(visit.tokens) {
            assert(copy.blocks[at].children.insert(visit.tokens, child as usize)
                =~= copy.blocks[at].children);
        }
    }
    if !progress.place.contains_key(visit.block) {
        assert(linked.blocks[child] == BlockState::new());
    }
    assert(next.holders(tree, after)) by {
        assert forall|block: int, other: WorkerWithDpRank|
            next.place.contains_key(block) implies (
        #[trigger] after.blocks[next.place[block]].workers.contains_key(other)
            <==> next.done.contains((block, other))) by {
            assert(progress.place.contains_key(block) || block == visit.block);
            if !progress.place.contains_key(block) {
                assert(!progress.done.contains((block, other)));
            } else {
                assert(copy.blocks[progress.place[block]].workers.contains_key(other)
                    <==> progress.done.contains((block, other)));
            }
        }
        assert forall|block: int, other: WorkerWithDpRank| #[trigger]
            next.done.contains((block, other)) implies {
            &&& next.place.contains_key(block)
            &&& block != 0
            &&& tree.blocks[block].workers.contains_key(other)
            &&& after.blocks[next.place[block]].workers[other] == tree.blocks[block].workers[other]
        } by {
            if (block, other) != (visit.block, worker) {
                assert(progress.done.contains((block, other)));
            }
        }
    }
    assert(next.links(tree, after)) by {
        assert forall|block: int, tokens: u64| next.place.contains_key(block) implies (
        #[trigger] after.blocks[next.place[block]].children.contains_key(tokens)
            <==> next.linked.contains((block, tokens))) by {
            assert(progress.place.contains_key(block) || block == visit.block);
            if !progress.place.contains_key(block) {
                assert(!progress.linked.contains((block, tokens)));
            } else {
                assert(copy.blocks[progress.place[block]].children.contains_key(tokens)
                    <==> progress.linked.contains((block, tokens)));
            }
        }
        assert forall|block: int, tokens: u64| #[trigger]
            next.linked.contains((block, tokens)) implies {
            &&& next.place.contains_key(block)
            &&& tree.blocks[block].children.contains_key(tokens)
            &&& next.place.contains_key(tree.blocks[block].children[tokens] as int)
            &&& after.blocks[next.place[block]].children[tokens]
                == next.place[tree.blocks[block].children[tokens] as int]
        } by {
            if (block, tokens) != (visit.above, visit.tokens) {
                assert(progress.linked.contains((block, tokens)));
            }
        }
    }
    assert(next.tables(tree, after)) by {
        assert forall|block: int, other: WorkerWithDpRank| #[trigger]
            next.done.contains((block, other)) implies {
            let hash = tree.blocks[block].workers[other].0;
            &&& after.lookup.contains_key(other)
            &&& after.lookup[other].contains_key(hash)
            &&& after.lookup[other][hash] == next.place[block]
        } by {
            if (block, other) != (visit.block, worker) {
                assert(progress.done.contains((block, other)));
                assert(progress.place.contains_key(block));
                if other == worker && tree.blocks[block].workers[other].0 == hash.0 {
                    assert(tree.blocks[block].workers[worker]
                        == tree.blocks[visit.block].workers[worker]);
                }
            }
        }
        assert forall|other: WorkerWithDpRank, named: u64|
            after.lookup.contains_key(other) && #[trigger] after.lookup[other].contains_key(
                named,
            ) implies exists|block: int| #[trigger]
            next.done.contains((block, other)) && tree.blocks[block].workers[other].0 == named by {
            if other == worker && named == hash.0 {
                assert(next.done.contains((visit.block, worker)));
            } else {
                assert(copy.lookup.contains_key(other) && copy.lookup[other].contains_key(named));
                let block = choose|block: int| #[trigger]
                    progress.done.contains((block, other))
                        && tree.blocks[block].workers[other].0 == named;
                assert(next.done.contains((block, other)));
            }
        }
    }
}

/// While a block of the tree has no place, a place is left for it.
proof fn lemma_room(tree: TreeState, place: Map<int, int>, block: int)
    requires
        tree.valid(),
        place.dom().finite(),
        forall|b: int| #[trigger] place.contains_key(b) ==> 0 <= b < tree.blocks.len(),
        0 <= block < tree.blocks.len(),
        !place.contains_key(block),
    ensures
        place.dom().len() < tree.blocks.len(),
{
    let all = vstd::set_lib::set_int_range(0, tree.blocks.len() as int);
    vstd::set_lib::lemma_int_range(0, tree.blocks.len() as int);
    assert(place.dom().insert(block).subset_of(all));
    vstd::set_lib::lemma_len_subset(place.dom().insert(block), all);
}

impl Progress {
    /// The progress once all of `workers` hold the visited block.
    pub open spec fn with_all(
        self,
        copy: TreeState,
        visit: Visit,
        workers: Seq<WorkerWithDpRank>,
    ) -> Progress {
        Progress {
            place: if workers.len() == 0 || self.place.contains_key(visit.block) {
                self.place
            } else {
                self.place.insert(visit.block, copy.blocks.len() as int)
            },
            done: self.done.union(
                Set::new(
                    |pair: (int, WorkerWithDpRank)|
                        pair.0 == visit.block && workers.contains(pair.1),
                ),
            ),
            linked: if workers.len() == 0 {
                self.linked
            } else {
                self.linked.insert((visit.above, visit.tokens))
            },
        }
    }
}

/// Replaying in two parts is replaying the whole.
proof fn lemma_replay_concat(start: TreeState, first: Seq<StoredAt>, second: Seq<StoredAt>)
    ensures
        ({
            let (between, first_stored) = replay(start, first);
            let (after, second_stored) = replay(between, second);
            replay(start, first + second) == (after, first_stored && second_stored)
        }),
    decreases second.len(),
{
    if second.len() == 0 {
        assert(first + second =~= first);
    } else {
        lemma_replay_concat(start, first, second.drop_last());
        assert((first + second).drop_last() =~= first + second.drop_last());
        assert((first + second).last() == second.last());
    }
}

/// Replaying the first holders of a visited block adds them to the copy.
proof fn lemma_replay_holders(
    tree: TreeState,
    copy: TreeState,
    progress: Progress,
    visit: Visit,
    count: int,
)
    requires
        tree.valid(),
        progress.copied(tree, copy),
        is_link(tree, visit),
        visit.above != visit.block,
        progress.place.contains_key(visit.above),
        visit.above == 0 || forall|worker: WorkerWithDpRank| #[trigger]
            tree.blocks[visit.block].workers.contains_key(worker) ==> progress.done.contains(
                (visit.above, worker),
            ),
        progress.place.contains_key(visit.block) ==> forall|worker: WorkerWithDpRank| #[trigger]
            tree.blocks[visit.block].workers.contains_key(worker) ==> progress.done.contains(
                (visit.block, worker),
            ),
        forall|block: int, worker: WorkerWithDpRank| #[trigger]
            progress.done.contains((block, worker))
                && tree.blocks[visit.block].workers.contains_key(worker)
                && tree.blocks[block].workers[worker] == tree.blocks[visit.block].workers[worker]
                ==> block == visit.block,
        0 <= count <= tree.records_at(visit).len(),
    ensures
        ({
            let workers = workers_in_order(tree.blocks[visit.block].workers.dom());
            let (after, stored) = replay(copy, tree.records_at(visit).take(count));
            &&& stored
            &&& progress.with_all(copy, visit, workers.take(count)).copied(tree, after)
        }),
    decreases count,
{
    let held = tree.blocks[visit.block].workers;
    let workers = workers_in_order(held.dom());
    lemma_workers_listed(held.dom());
    let records = tree.records_at(visit);
    if count == 0 {
        let now = progress.with_all(copy, visit, workers.take(0));
        assert(now.done =~= progress.done);
        assert(now == progress);
    } else {
        lemma_replay_holders(tree, copy, progress, visit, count - 1);
        let worker = workers[count - 1];
        let listed = workers.take(count - 1);
        let (between, stored) = replay(copy, records.take(count - 1));
        let now = progress.with_all(copy, visit, listed);
        assert(workers.contains(worker));
        assert(held.contains_key(worker));
        assert(records[count - 1] == record_of(tree, visit, worker));
        assert(records.take(count).drop_last() =~= records.take(count - 1));
        assert(records.take(count).last() == records[count - 1]);
        assert(tree.blocks[visit.block].workers.contains_key(worker));
        assert forall|block: int| #[trigger]
            now.done.contains((block, worker)) && tree.blocks[block].workers[worker]
                == held[worker] implies block == visit.block by {
            if !progress.done.contains((block, worker)) {
                assert(block == visit.block);
            }
        }
        lemma_replay_one(tree, between, now, visit, worker);
        let next = progress.with_all(copy, visit, workers.take(count));
        let reached = now.with(between, visit, worker);
        assert forall|other: WorkerWithDpRank| workers.take(count).contains(other)
            <==> listed.contains(other) || other == worker by {
            assert(workers.take(count) =~= listed.push(worker));
            crate::seqs::lemma_push_contains(listed, worker, other);
        }
        assert forall|pair: (int, WorkerWithDpRank)| #[trigger]
            next.done.contains(pair) <==> reached.done.contains(pair) by {
            assert(workers.take(count).contains(pair.1) <==> listed.contains(pair.1) || pair.1
                == worker);
            assert(reached.done.contains(pair) <==> now.done.contains(pair) || pair == (
                visit.block,
                worker,
            ));
        }
        assert(next.done =~= reached.done);
        assert(next.linked =~= reached.linked);
        if count == 1 {
            assert(records.take(0) =~= Seq::empty());
        }
        assert(next.place =~= reached.place);
    }
}

/// Some way leads from the root to `block`.
pub open spec fn reached(tree: TreeState, block: int) -> bool {
    exists|i: int| 0 <= i < tree.all_visits().len() && (#[trigger] tree.all_visits()[i]).block == block
}

/// What a tree must be like for its dump to rebuild it: every way down ends, whoever holds a
/// block holds the block above it too, and no worker knows two blocks by the same hash.
pub open spec fn rebuildable(tree: TreeState) -> bool {
    &&& tree.finite_depth()
    &&& forall|visit: Visit, worker: WorkerWithDpRank|
        #![trigger is_link(tree, visit), tree.blocks[visit.block].workers.contains_key(worker)]
        is_link(tree, visit) && reached(tree, visit.above)
            && tree.blocks[visit.block].workers.contains_key(worker)
            ==> tree.blocks[visit.above].workers.contains_key(worker)
    &&& forall|a: int, b: int, worker: WorkerWithDpRank|
        #![trigger tree.blocks[a].workers[worker], tree.blocks[b].workers[worker]]
        reached(tree, a) && reached(tree, b) && tree.blocks[a].workers.contains_key(worker)
            && tree.blocks[b].workers.contains_key(worker) && tree.blocks[a].workers[worker]
            == tree.blocks[b].workers[worker] ==> a == b
}

/// The holders of the visited blocks.
pub open spec fn visited_holders(tree: TreeState, visits: Seq<Visit>) -> Set<
    (int, WorkerWithDpRank),
> {
    Set::new(
        |pair: (int, WorkerWithDpRank)|
            tree.blocks[pair.0].workers.contains_key(pair.1) && exists|i: int|
                0 <= i < visits.len() && (#[trigger] visits[i]).block == pair.0,
    )
}

/// The links to visited blocks that somebody holds.
pub open spec fn visited_links(tree: TreeState, visits: Seq<Visit>) -> Set<(int, u64)> {
    Set::new(
        |pair: (int, u64)|
            exists|i: int|
                0 <= i < visits.len() && (#[trigger] visits[i]).above == pair.0
                    && visits[i].tokens == pair.1 && is_held(tree, visits[i].block),
    )
}

/// Somebody holds the block.
pub open spec fn is_held(tree: TreeState, block: int) -> bool {
    tree.blocks[block].workers.dom().len() > 0
}

/// Replaying the records of the first visits copies that part of the tree.
#[verifier::spinoff_prover]
proof fn lemma_replay_visits(tree: TreeState, count: int) -> (progress: Progress)
    requires
        tree.valid(),
        rebuildable(tree),
        0 <= count <= tree.all_visits().len(),
    ensures
        ({
            let visits = tree.all_visits().take(count);
            let (copy, stored) = replay(TreeState::new(), tree.records(visits));
            &&& stored
            &&& progress.copied(tree, copy)
            &&& progress.done == visited_holders(tree, visits)
            &&& progress.linked == visited_links(tree, visits)
            &&& forall|block: int| #[trigger]
                progress.place.contains_key(block) <==> block == 0 || (is_held(tree, block)
                    && exists|i: int|
                    0 <= i < visits.len() && (#[trigger] visits[i]).block == block)
        }),
    decreases count,
{
    let all = tree.all_visits();
    lemma_visits(tree);
    if count == 0 {
        let progress = Progress::start();
        let visits = all.take(0);
        let copy = TreeState::new();
        assert(tree.records(visits) =~= Seq::empty());
        assert(progress.done =~= visited_holders(tree, visits));
        assert(progress.linked =~= visited_links(tree, visits));
        assert(progress.place.dom() =~= set![0int]);
        assert(progress.copied(tree, copy));
        progress
    } else {
        let before = lemma_replay_visits(tree, count - 1);
        let earlier = all.take(count - 1);
        let visits = all.take(count);
        let visit = all[count - 1];
        let copy = replay(TreeState::new(), tree.records(earlier)).0;
        assert(visits.drop_last() =~= earlier);
        assert(visits.last() == visit);
        assert(is_link(tree, visit));
        let held = tree.blocks[visit.block].workers;
        assert(held.dom().finite());
        assert(reached(tree, visit.block));
        let workers = workers_in_order(held.dom());
        lemma_workers_listed(held.dom());
        let records = tree.records_at(visit);
        lemma_replay_concat(TreeState::new(), tree.records(earlier), records);
        assert(records.take(records.len() as int) =~= records);
        if !is_held(tree, visit.block) {
            assert(held.dom() =~= Set::empty());
            if workers.len() > 0 {
                assert(workers.contains(workers[0]));
            }
            assert(records =~= Seq::empty());
            assert(visited_holders(tree, visits) =~= before.done) by {
                assert forall|pair: (int, WorkerWithDpRank)|
                    visited_holders(tree, visits).contains(pair) <==> before.done.contains(
                        pair,
                    ) by {
                    lemma_visited_step(earlier, visit, pair.0);
                    assert(visits =~= earlier.push(visit));
                }
            }
            assert(visited_links(tree, visits) =~= before.linked) by {
                assert forall|pair: (int, u64)|
                    visited_links(tree, visits).contains(pair) <==> before.linked.contains(
                        pair,
                    ) by {
                    lemma_link_step(tree, earlier, visit, pair);
                    assert(visits =~= earlier.push(visit));
                }
            }
            assert forall|block: int| #[trigger]
                before.place.contains_key(block) <==> block == 0 || (is_held(tree, block)
                    && exists|i: int|
                    0 <= i < visits.len() && (#[trigger] visits[i]).block == block) by {
                lemma_visited_step(earlier, visit, block);
                assert(visits =~= earlier.push(visit));
            }
            before
        } else {
            let witness = held.dom().choose();
            assert(held.dom().contains(witness));
            assert(workers.contains(witness));
            if visit.above != 0 {
                assert(visited_before(all, count - 1));
                let j = choose|j: int| 0 <= j < count - 1 && (#[trigger] all[j]).block
                    == visit.above;
                assert(earlier[j].block == visit.above);
                assert(reached(tree, visit.above));
                assert forall|worker: WorkerWithDpRank| #[trigger]
                    held.contains_key(worker) implies before.done.contains(
                    (visit.above, worker),
                ) by {
                    assert(tree.blocks[visit.above].workers.contains_key(worker));
                }
                assert(held.contains_key(witness));
                assert(tree.blocks[visit.above].workers.dom().contains(witness));
                assert(tree.blocks[visit.above].workers.dom().finite());
                assert(is_held(tree, visit.above)) by {
                    if tree.blocks[visit.above].workers.dom().len() == 0 {
                        assert(tree.blocks[visit.above].workers.dom() =~= Set::empty());
                    }
                }
            }
            assert(before.place.contains_key(visit.above));
            assert forall|block: int, worker: WorkerWithDpRank| #[trigger]
                before.done.contains((block, worker)) && held.contains_key(worker)
                    && tree.blocks[block].workers[worker] == held[worker] implies block
                == visit.block by {
                let i = choose|i: int| 0 <= i < earlier.len() && (#[trigger] earlier[i]).block
                    == block;
                assert(all[i].block == block);
                assert(reached(tree, block));
            }
            lemma_replay_holders(tree, copy, before, visit, records.len() as int);
            assert(workers.take(records.len() as int) =~= workers);
            let after = before.with_all(copy, visit, workers);
            assert(workers.len() > 0);
            assert(visited_holders(tree, visits) =~= after.done) by {
                assert forall|pair: (int, WorkerWithDpRank)|
                    visited_holders(tree, visits).contains(pair) <==> after.done.contains(
                        pair,
                    ) by {
                    lemma_visited_step(earlier, visit, pair.0);
                    assert(visits =~= earlier.push(visit));
                    assert(workers.contains(pair.1) <==> held.dom().contains(pair.1));
                }
            }
            assert(visited_links(tree, visits) =~= after.linked) by {
                assert forall|pair: (int, u64)|
                    visited_links(tree, visits).contains(pair) <==> after.linked.contains(
                        pair,
                    ) by {
                    lemma_link_step(tree, earlier, visit, pair);
                    assert(visits =~= earlier.push(visit));
                }
            }
            assert forall|block: int| #[trigger]
                after.place.contains_key(block) <==> block == 0 || (is_held(tree, block)
                    && exists|i: int|
                    0 <= i < visits.len() && (#[trigger] visits[i]).block == block) by {
                lemma_visited_step(earlier, visit, block);
                assert(visits =~= earlier.push(visit));
                assert(before.place.contains_key(block) <==> block == 0 || (is_held(tree, block)
                    && exists|i: int|
                    0 <= i < earlier.len() && (#[trigger] earlier[i]).block == block));
            }
            after
        }
    }
}

proof fn lemma_visited_step(earlier: Seq<Visit>, visit: Visit, block: int)
    ensures
        (exists|i: int|
            0 <= i < earlier.push(visit).len() && (#[trigger] earlier.push(visit)[i]).block
                == block) <==> (visit.block == block || exists|i: int|
            0 <= i < earlier.len() && (#[trigger] earlier[i]).block == block),
{
    let longer = earlier.push(visit);
    if exists|i: int| 0 <= i < earlier.len() && (#[trigger] earlier[i]).block == block {
        let i = choose|i: int| 0 <= i < earlier.len() && (#[trigger] earlier[i]).block == block;
        assert(longer[i].block == block);
    }
    if exists|i: int| 0 <= i < longer.len() && (#[trigger] longer[i]).block == block {
        let i = choose|i: int| 0 <= i < longer.len() && (#[trigger] longer[i]).block == block;
        if i < earlier.len() {
            assert(earlier[i].block == block);
        }
    }
    assert(longer[earlier.len() as int] == visit);
}

proof fn lemma_link_step(tree: TreeState, earlier: Seq<Visit>, visit: Visit, pair: (int, u64))
    ensures
        visited_links(tree, earlier.push(visit)).contains(pair) <==> visited_links(
            tree,
            earlier,
        ).contains(pair) || (visit.above == pair.0 && visit.tokens == pair.1 && is_held(
            tree,
            visit.block,
        )),
{
    let longer = earlier.push(visit);
    if visited_links(tree, earlier).contains(pair) {
        let i = choose|i: int|
            0 <= i < earlier.len() && (#[trigger] earlier[i]).above == pair.0 && earlier[i].tokens
                == pair.1 && is_held(tree, earlier[i].block);
        assert(longer[i] == earlier[i]);
    }
    if visited_links(tree, longer).contains(pair) {
        let i = choose|i: int|
            0 <= i < longer.len() && (#[trigger] longer[i]).above == pair.0 && longer[i].tokens
                == pair.1 && is_held(tree, longer[i].block);
        if i < earlier.len() {
            assert(earlier[i] == longer[i]);
        }
    }
    assert(longer[earlier.len() as int] == visit);
}

/// Counting holders from the front.
proof fn lemma_held_among_front(
    tree: TreeState,
    first: int,
    rest: Seq<int>,
    worker: WorkerWithDpRank,
)
    ensures
        tree.held_among(seq![first] + rest, worker) == tree.held_among(rest, worker)
            + if tree.blocks[first].workers.contains_key(worker) {
            1nat
        } else {
            0nat
        },
    decreases rest.len(),
{
    let whole = seq![first] + rest;
    if rest.len() == 0 {
        assert(whole.drop_last() =~= Seq::empty());
        assert(rest =~= Seq::empty());
        assert(whole.last() == first);
        assert(tree.held_among(Seq::empty(), worker) == 0);
    } else {
        lemma_held_among_front(tree, first, rest.drop_last(), worker);
        assert(whole.drop_last() =~= seq![first] + rest.drop_last());
        assert(whole.last() == rest.last());
    }
}

/// Nobody holds anything below a block that nobody holds.
proof fn lemma_nothing_held_below(
    tree: TreeState,
    at: int,
    sequence: Seq<LocalBlockHash>,
    early_exit: bool,
    worker: WorkerWithDpRank,
)
    requires
        tree.valid(),
        rebuildable(tree),
        0 <= at < tree.blocks.len(),
        reached(tree, at),
        !is_held(tree, at),
    ensures
        tree.held_among(tree.matched(at, sequence, early_exit), worker) == 0,
    decreases sequence.len(),
{
    assert(tree.blocks[at].workers.dom().finite());
    assert(tree.blocks[at].workers.dom() =~= Set::empty());
    if sequence.len() > 0 && tree.blocks[at].children.contains_key(sequence[0].0) {
        let next = tree.blocks[at].children[sequence[0].0] as int;
        let visit = Visit { block: next, above: at, tokens: sequence[0].0 };
        assert(is_link(tree, visit));
        lemma_visits(tree);
        assert(tree.all_visits().contains(visit));
        assert(reached(tree, next)) by {
            let i = choose|i: int|
                0 <= i < tree.all_visits().len() && tree.all_visits()[i] == visit;
            assert(tree.all_visits()[i].block == next);
        }
        assert forall|other: WorkerWithDpRank| !tree.blocks[next].workers.contains_key(other) by {
            if tree.blocks[next].workers.contains_key(other) {
                assert(tree.blocks[visit.above].workers.contains_key(other));
            }
        }
        assert(tree.blocks[next].workers.dom() =~= Set::empty());
        lemma_nothing_held_below(tree, next, sequence.skip(1), early_exit, worker);
        lemma_held_among_front(
            tree,
            next,
            tree.matched(next, sequence.skip(1), early_exit),
            worker,
        );
        lemma_held_among_front(tree, next, Seq::empty(), worker);
        assert(seq![next] + Seq::<int>::empty() =~= seq![next]);
    }
}

/// A complete copy scores every sequence as the tree does, from any copied block on.
proof fn lemma_same_score(
    tree: TreeState,
    copy: TreeState,
    progress: Progress,
    at: int,
    sequence: Seq<LocalBlockHash>,
    early_exit: bool,
    worker: WorkerWithDpRank,
)
    requires
        tree.valid(),
        rebuildable(tree),
        progress.copied(tree, copy),
        progress.done == visited_holders(tree, tree.all_visits()),
        progress.linked == visited_links(tree, tree.all_visits()),
        forall|block: int| #[trigger]
            progress.place.contains_key(block) <==> block == 0 || (is_held(tree, block) && reached(
                tree,
                block,
            )),
        progress.place.contains_key(at),
    ensures
        tree.held_among(tree.matched(at, sequence, early_exit), worker) == copy.held_among(
            copy.matched(progress.place[at], sequence, early_exit),
            worker,
        ),
    decreases sequence.len(),
{
    if sequence.len() > 0 {
        let tokens = sequence[0].0;
        let there = progress.place[at];
        assert(copy.blocks[there].children.contains_key(tokens) <==> progress.linked.contains(
            (at, tokens),
        ));
        if tree.blocks[at].children.contains_key(tokens) {
            let next = tree.blocks[at].children[tokens] as int;
            let visit = Visit { block: next, above: at, tokens };
            assert(is_link(tree, visit));
            lemma_visits(tree);
            assert(tree.all_visits().contains(visit));
            let i = choose|i: int|
                0 <= i < tree.all_visits().len() && tree.all_visits()[i] == visit;
            assert(tree.all_visits()[i].block == next);
            assert(reached(tree, next));
            if is_held(tree, next) {
                assert(progress.linked.contains((at, tokens)));
                assert(progress.place.contains_key(next));
                let copied = progress.place[next];
                assert forall|other: WorkerWithDpRank|
                    copy.blocks[copied].workers.contains_key(other)
                        <==> tree.blocks[next].workers.contains_key(other) by {
                    assert(copy.blocks[progress.place[next]].workers.contains_key(other)
                        <==> progress.done.contains((next, other)));
                }
                assert(copy.blocks[copied].workers =~= tree.blocks[next].workers) by {
                    assert forall|other: WorkerWithDpRank|
                        tree.blocks[next].workers.contains_key(
                            other,
                        ) implies copy.blocks[copied].workers[other]
                        == tree.blocks[next].workers[other] by {
                        assert(progress.done.contains((next, other)));
                    }
                }
                lemma_same_score(
                    tree,
                    copy,
                    progress,
                    next,
                    sequence.skip(1),
                    early_exit,
                    worker,
                );
                lemma_held_among_front(
                    tree,
                    next,
                    tree.matched(next, sequence.skip(1), early_exit),
                    worker,
                );
                lemma_held_among_front(
                    copy,
                    copied,
                    copy.matched(copied, sequence.skip(1), early_exit),
                    worker,
                );
                lemma_held_among_front(tree, next, Seq::empty(), worker);
                lemma_held_among_front(copy, copied, Seq::empty(), worker);
                assert(seq![next] + Seq::<int>::empty() =~= seq![next]);
                assert(seq![copied] + Seq::<int>::empty() =~= seq![copied]);
            } else {
                assert(!progress.linked.contains((at, tokens))) by {
                    if progress.linked.contains((at, tokens)) {
                        assert(progress.place.contains_key(next));
                    }
                }
                assert(tree.blocks[next].workers.dom().finite());
                assert(tree.blocks[next].workers.dom() =~= Set::empty());
                lemma_nothing_held_below(tree, next, sequence.skip(1), early_exit, worker);
                lemma_held_among_front(
                    tree,
                    next,
                    tree.matched(next, sequence.skip(1), early_exit),
                    worker,
                );
            }
        }
    }
}

/// A dump rebuilds its tree: applied to an empty tree, every record is stored; then every
/// sequence scores every worker as it did, and the worker's table names the hashes of the blocks
/// that it holds below the root.
pub proof fn law_dump_rebuilds_tree(
    tree: TreeState,
    sequence: Seq<LocalBlockHash>,
    early_exit: bool,
    worker: WorkerWithDpRank,
    hash: ExternalSequenceBlockHash,
)
    requires
        tree.valid(),
        rebuildable(tree),
    ensures
        ({
            let (copy, stored) = replay(TreeState::new(), tree.dump());
            &&& stored
            &&& copy.valid()
            &&& copy.held_among(copy.matched(0, sequence, early_exit), worker) == tree.held_among(
                tree.matched(0, sequence, early_exit),
                worker,
            )
            &&& (copy.lookup.contains_key(worker) && copy.lookup[worker].contains_key(hash.0))
                <==> exists|block: int|
                reached(tree, block) && (#[trigger] tree.blocks[block]).workers.contains_key(worker)
                    && tree.blocks[block].workers[worker] == hash
        }),
{
    let visits = tree.all_visits();
    assert(visits.take(visits.len() as int) =~= visits);
    let progress = lemma_replay_visits(tree, visits.len() as int);
    let copy = replay(TreeState::new(), tree.dump()).0;
    lemma_same_score(tree, copy, progress, 0, sequence, early_exit, worker);
    if copy.lookup.contains_key(worker) && copy.lookup[worker].contains_key(hash.0) {
        let block = choose|block: int| #[trigger]
            progress.done.contains((block, worker)) && tree.blocks[block].workers[worker].0
                == hash.0;
        assert(reached(tree, block));
        assert(tree.blocks[block].workers[worker] == hash);
    }
    if exists|block: int|
        reached(tree, block) && (#[trigger] tree.blocks[block]).workers.contains_key(worker)
            && tree.blocks[block].workers[worker] == hash {
        let block = choose|block: int|
            reached(tree, block) && (#[trigger] tree.blocks[block]).workers.contains_key(worker)
                && tree.blocks[block].workers[worker] == hash;
        assert(progress.done.contains((block, worker)));
    }
}

} // verus!
