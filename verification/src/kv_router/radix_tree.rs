//! The prefix tree of cached blocks, shared by all workers.
use crate::kv_router::overlap::{
    lemma_listed_once, score_of, times_listed, OverlapScores,
};
use crate::kv_router::protocols::{
    ExternalSequenceBlockHash, KvCacheEvent, KvCacheEventData, KvCacheStoreData,
    KvCacheStoredBlockData, LocalBlockHash, WorkerId, WorkerWithDpRank,
};
use crate::kv_router::radix_dump::{
    hashes_in_order, lemma_all_visits, lemma_hashes_in_order, lemma_records_concat,
    lemma_workers_in_order, stores, workers_in_order, StoredAt, Visit,
};
use crate::kv_router::radix_laws::{law_cleared_worker_stays_known, lemma_drop_only_takes};
use crate::kv_router::radix_rebuild::lemma_too_deep;
use crate::kv_router::radix_state::{
    lemma_drop_valid, lemma_forget_valid, lemma_held_among, lemma_held_among_first,
    lemma_hold_valid, lemma_link_valid, lemma_matched_blocks, lemma_still_tracked,
    lemma_use_blocks, lemma_with_worker_valid, lemma_without_twice, lemma_without_valid,
    no_new_holders, recent, use_blocks, valid_blocks, valid_table, BlockState, KvCacheEventError,
    TreeState, WorkerState,
};
use crate::kv_router::worker_map::{lists_in_order, WorkerMap};
use crate::seqs::{lemma_push_contains, lemma_take_next, lists_increasing};
use std::collections::{BTreeMap, HashMap, HashSet, VecDeque};
use std::time::Instant;
use vstd::prelude::*;

verus! {

broadcast use vstd::std_specs::hash::group_hash_axioms;

/// A cache event of a worker.
#[derive(Clone, Debug, PartialEq)]
pub struct RouterEvent {
    pub worker_id: WorkerId,
    pub event: KvCacheEvent,
}

impl RouterEvent {
    pub fn new(worker_id: WorkerId, event: KvCacheEvent) -> (router_event: Self)
        ensures
            router_event == (RouterEvent { worker_id, event }),
    {
        RouterEvent { worker_id, event }
    }

    /// The worker and rank that the event is about.
    pub open spec fn source(self) -> WorkerWithDpRank {
        WorkerWithDpRank { worker_id: self.worker_id, dp_rank: self.event.dp_rank }
    }
}

/// A block of the tree.
pub struct RadixBlock {
    children: BTreeMap<u64, usize>,
    workers: WorkerMap<ExternalSequenceBlockHash>,
    recent_uses: VecDeque<u64>,
}

impl View for RadixBlock {
    type V = BlockState;

    closed spec fn view(&self) -> BlockState {
        BlockState {
            children: self.children@,
            workers: self.workers@,
            uses: self.recent_uses@,
        }
    }
}

impl RadixBlock {
    pub fn new() -> (block: Self)
        ensures
            block@ == BlockState::new(),
    {
        RadixBlock {
            children: BTreeMap::new(),
            workers: WorkerMap::new(),
            recent_uses: VecDeque::new(),
        }
    }

    /// The number of children.
    pub fn num_children(&self) -> (count: usize)
        ensures
            count == self@.children.len(),
    {
        broadcast use vstd::laws_cmp::group_laws_cmp;

        self.children.len()
    }

    /// The number of workers that hold the block.
    pub fn num_workers(&self) -> (count: usize)
        ensures
            count == self@.workers.len(),
    {
        self.workers.len()
    }

    /// The hash that a worker knows the block by.
    pub fn worker_hash(&self, worker: &WorkerWithDpRank) -> (hash: Option<
        ExternalSequenceBlockHash,
    >)
        ensures
            hash == (if self@.workers.contains_key(*worker) {
                Some(self@.workers[*worker])
            } else {
                None
            }),
    {
        match self.workers.get(worker) {
            Some(hash) => Some(*hash),
            None => None,
        }
    }

    fn child(&self, tokens_hash: u64) -> (child: Option<usize>)
        ensures
            child == (if self@.children.contains_key(tokens_hash) {
                Some(self@.children[tokens_hash])
            } else {
                None
            }),
    {
        broadcast use vstd::laws_cmp::group_laws_cmp;

        match self.children.get(&tokens_hash) {
            Some(child) => Some(*child),
            None => None,
        }
    }

    fn child_hashes(&self) -> (hashes: Vec<u64>)
        ensures
            lists_increasing(hashes@, self@.children.dom()),
    {
        broadcast use vstd::laws_cmp::group_laws_cmp;

        let mut hashes: Vec<u64> = Vec::new();
        let ghost keys = vstd::std_specs::iter::IteratorSpec::remaining(
            &vstd::std_specs::btree::spec_keys_iter(&self.children),
        );
        for key in iter: self.children.keys()
            invariant
                iter.seq() == keys,
                hashes@.len() == iter.index(),
                forall|i: int| 0 <= i < iter.index() ==> #[trigger] hashes@[i] == *keys[i],
        {
            hashes.push(*key);
        }
        proof {
            assert(keys.unref().to_set() == self.children@.dom());
            assert(hashes@ =~= keys.unref());
            assert forall|member: u64| #[trigger]
                hashes@.contains(member) <==> self@.children.dom().contains(member) by {
                assert(hashes@.to_set().contains(member) <==> hashes@.contains(member));
            }
            assert forall|i: int, j: int| 0 <= i < j < hashes@.len() implies hashes@[i] < hashes@[j] by {
                assert(vstd::std_specs::cmp::OrdSpec::cmp_spec(&keys[i], &keys[j]) is Less);
            }
        }
        hashes
    }

    fn link(&mut self, tokens_hash: u64, child: usize)
        ensures
            final(self)@ == (BlockState {
                children: old(self)@.children.insert(tokens_hash, child),
                ..old(self)@
            }),
    {
        broadcast use vstd::laws_cmp::group_laws_cmp;

        self.children.insert(tokens_hash, child);
    }

    fn hold(&mut self, worker: WorkerWithDpRank, hash: ExternalSequenceBlockHash)
        ensures
            final(self)@ == (BlockState {
                workers: old(self)@.workers.insert(worker, hash),
                ..old(self)@
            }),
    {
        self.workers.insert(worker, hash);
    }

    fn release(&mut self, worker: &WorkerWithDpRank)
        ensures
            final(self)@ == old(self)@.without(set![*worker]),
    {
        self.workers.remove(worker);
        if self.workers.is_empty() {
            self.children.clear();
        }
        assert(old(self)@.workers.remove_keys(set![*worker]) =~= old(self)@.workers.remove(*worker));
        assert(self@ =~= old(self)@.without(set![*worker]));
    }

    /// Forgets uses older than `window`, counts the others and records a new one.
    fn use_at(&mut self, now: u64, window: u64) -> (count: usize)
        ensures
            count == recent(old(self)@.uses, now, window).len(),
            final(self)@ == (BlockState {
                uses: recent(old(self)@.uses, now, window).push(now),
                ..old(self)@
            }),
    {
        while self.recent_uses.len() > 0 && now > self.recent_uses[0] && now - self.recent_uses[0]
            > window
            invariant
                recent(self@.uses, now, window) == recent(old(self)@.uses, now, window),
                self@.children == old(self)@.children,
                self@.workers == old(self)@.workers,
            decreases self.recent_uses@.len(),
        {
            let ghost before = self@.uses;
            self.recent_uses.pop_front();
            assert(self@.uses =~= before.skip(1));
        }
        let count: usize = self.recent_uses.len();
        self.recent_uses.push_back(now);
        count
    }
}

/// A block that a walk over the tree came to.
#[derive(Clone, Copy)]
struct Found {
    block: usize,
    above: usize,
    tokens: u64,
}

impl Found {
    spec fn visit(self) -> Visit {
        Visit { block: self.block as int, above: self.above as int, tokens: self.tokens }
    }
}

spec fn found_visits(level: Seq<Found>) -> Seq<Visit> {
    level.map_values(|found: Found| found.visit())
}

spec fn all_in(tree: TreeState, level: Seq<Found>) -> bool {
    forall|i: int|
        0 <= i < level.len() ==> 0 < (#[trigger] level[i]).block < tree.blocks.len()
            && level[i].above < tree.blocks.len()
}

/// The prefix tree of all cached blocks.
pub struct RadixTree {
    blocks: Vec<RadixBlock>,
    lookup: WorkerMap<HashMap<u64, usize>>,
    expiration_nanos: Option<u64>,
    created: Instant,
}

/// The standard library's monotonic clock reading.
#[verifier::external_type_specification]
#[verifier::external_body]
pub struct ExInstant(Instant);

/// Calls `std::time::Instant::now`. Nothing is claimed of the reading.
#[verifier::external_body]
fn read_clock() -> (reading: Instant) {
    Instant::now()
}

/// Calls `std::time::Instant::elapsed` and gives the time in nanoseconds. Nothing is claimed of
/// the time that has passed.
#[verifier::external_body]
fn elapsed_nanos(since: &Instant) -> (nanos: u64) {
    since.elapsed().as_nanos() as u64
}

/// The states of a run of blocks.
pub closed spec fn block_states(blocks: Seq<RadixBlock>) -> Seq<BlockState> {
    blocks.map_values(|block: RadixBlock| block@)
}

impl View for RadixTree {
    type V = TreeState;

    closed spec fn view(&self) -> TreeState {
        TreeState {
            blocks: block_states(self.blocks@),
            lookup: self.lookup@.map_values(|table: HashMap<u64, usize>| table@),
        }
    }
}

/// Stores a run of blocks below `parent` for one worker.
fn store_run(
    blocks: &mut Vec<RadixBlock>,
    table: &mut HashMap<u64, usize>,
    worker: WorkerWithDpRank,
    parent: usize,
    run: &Vec<KvCacheStoredBlockData>,
) -> (stored: bool)
    requires
        parent < old(blocks)@.len(),
        (WorkerState { blocks: block_states(old(blocks)@), table: old(table)@ }).valid(),
    ensures
        ({
            let before = WorkerState { blocks: block_states(old(blocks)@), table: old(table)@ };
            let (after, ok) = before.store(worker, parent as int, run@, Set::empty());
            &&& stored == ok
            &&& block_states(final(blocks)@) == after.blocks
            &&& final(table)@ == after.table
            &&& after.valid()
            &&& after.blocks.len() >= before.blocks.len()
            &&& no_new_holders(before.blocks, after.blocks, worker)
        }),
{
    let ghost outcome = (WorkerState { blocks: block_states(blocks@), table: table@ }).store(
        worker,
        parent as int,
        run@,
        Set::empty(),
    );
    let mut above: HashSet<usize> = HashSet::new();
    let ghost mut chain: Set<int> = Set::empty();
    let mut current: usize = parent;
    let mut index: usize = 0;
    assert(run@.skip(0) =~= run@);
    while index < run.len()
        invariant
            index <= run@.len(),
            current < blocks@.len(),
            old(blocks)@.len() <= blocks@.len(),
            no_new_holders(block_states(old(blocks)@), block_states(blocks@), worker),
            (WorkerState { blocks: block_states(blocks@), table: table@ }).valid(),
            forall|block: usize| #[trigger] above@.contains(block) <==> chain.contains(block as int),
            forall|block: int| #[trigger] chain.contains(block) ==> 0 <= block <= usize::MAX,
            outcome == (WorkerState {
                blocks: block_states(old(blocks)@),
                table: old(table)@,
            }).store(worker, parent as int, run@, Set::empty()),
            outcome == (WorkerState { blocks: block_states(blocks@), table: table@ }).store(
                worker,
                current as int,
                run@.skip(index as int),
                chain,
            ),
        decreases run@.len() - index,
    {
        let stored = run[index];
        let ghost before = WorkerState { blocks: block_states(blocks@), table: table@ };
        assert(run@.skip(index as int)[0] == stored);
        assert(run@.skip(index as int).skip(1) =~= run@.skip(index + 1));
        let child: usize = match blocks[current].child(stored.tokens_hash.0) {
            Some(child) => child,
            None => {
                let child: usize = match table.get(&stored.block_hash.0) {
                    Some(child) => *child,
                    None => {
                        let child: usize = blocks.len();
                        blocks.push(RadixBlock::new());
                        child
                    },
                };
                blocks[current].link(stored.tokens_hash.0, child);
                child
            },
        };
        let ghost linked = before.link(current as int, stored);
        let count: usize = blocks.len();
        proof {
            assert(block_states(blocks@).len() == count);
            assert(block_states(blocks@) =~= linked.blocks);
            lemma_link_valid(before, current as int, stored);
        }
        above.insert(current);
        proof {
            chain = chain.insert(current as int);
        }
        if above.contains(&child) {
            return false;
        }
        blocks[child].hold(worker, stored.block_hash);
        table.insert(stored.block_hash.0, child);
        proof {
            let held = linked.hold(worker, child as int, stored.block_hash);
            lemma_hold_valid(linked, worker, child as int, stored.block_hash);
            assert(block_states(blocks@) =~= held.blocks);
            assert(table@ =~= held.table);
        }
        current = child;
        index += 1;
    }
    assert(run@.skip(index as int) =~= Seq::empty());
    true
}

/// Drops blocks of one worker, up to the first that the worker does not know.
fn drop_run(
    blocks: &mut Vec<RadixBlock>,
    table: &mut HashMap<u64, usize>,
    worker: WorkerWithDpRank,
    hashes: &Vec<ExternalSequenceBlockHash>,
) -> (dropped: bool)
    requires
        (WorkerState { blocks: block_states(old(blocks)@), table: old(table)@ }).valid(),
    ensures
        ({
            let before = WorkerState { blocks: block_states(old(blocks)@), table: old(table)@ };
            let (after, ok) = before.drop_blocks(worker, hashes@);
            &&& dropped == ok
            &&& block_states(final(blocks)@) == after.blocks
            &&& final(table)@ == after.table
            &&& after.valid()
        }),
{
    let ghost outcome = (WorkerState { blocks: block_states(blocks@), table: table@ }).drop_blocks(
        worker,
        hashes@,
    );
    let mut index: usize = 0;
    assert(hashes@.skip(0) =~= hashes@);
    while index < hashes.len()
        invariant
            index <= hashes@.len(),
            (WorkerState { blocks: block_states(blocks@), table: table@ }).valid(),
            outcome == (WorkerState {
                blocks: block_states(old(blocks)@),
                table: old(table)@,
            }).drop_blocks(worker, hashes@),
            outcome == (WorkerState { blocks: block_states(blocks@), table: table@ }).drop_blocks(
                worker,
                hashes@.skip(index as int),
            ),
        decreases hashes@.len() - index,
    {
        let hash: u64 = hashes[index].0;
        let ghost before = WorkerState { blocks: block_states(blocks@), table: table@ };
        assert(hashes@.skip(index as int)[0].0 == hash);
        assert(hashes@.skip(index as int).skip(1) =~= hashes@.skip(index + 1));
        let block: usize = match table.get(&hash) {
            Some(block) => *block,
            None => {
                return false;
            },
        };
        blocks[block].release(&worker);
        table.remove(&hash);
        proof {
            let after = before.drop_block(worker, hash);
            assert(block_states(blocks@) =~= after.blocks);
            assert(table@ =~= after.table);
            lemma_without_valid(before.blocks, block as int, set![worker]);
        }
        index += 1;
    }
    assert(hashes@.skip(index as int) =~= Seq::empty());
    true
}

/// Takes `worker` off every block of a table.
fn release_table(
    blocks: &mut Vec<RadixBlock>,
    table: &HashMap<u64, usize>,
    worker: WorkerWithDpRank,
)
    requires
        valid_blocks(block_states(old(blocks)@)),
        valid_table(table@, old(blocks)@.len()),
    ensures
        final(blocks)@.len() == old(blocks)@.len(),
        forall|block: int|
            0 <= block < old(blocks)@.len() ==> #[trigger] block_states(final(blocks)@)[block]
                == if table@.contains_value(block as usize) {
                block_states(old(blocks)@)[block].without(set![worker])
            } else {
                block_states(old(blocks)@)[block]
            },
{
    let ghost before = block_states(blocks@);
    let ghost values = vstd::std_specs::iter::IteratorSpec::remaining(
        &vstd::std_specs::hash::spec_values_iter(table),
    ).unref();
    proof {
        assert(values.to_set() == table@.values());
    }
    for value in iter: table.values()
        invariant
            iter.seq().unref() == values,
            values.to_set() == table@.values(),
            blocks@.len() == old(blocks)@.len(),
            before == block_states(old(blocks)@),
            before.len() <= usize::MAX,
            valid_table(table@, old(blocks)@.len()),
            forall|block: int|
                0 <= block < before.len() ==> #[trigger] block_states(blocks@)[block]
                    == if values.take(iter.index() as int).contains(block as usize) {
                    before[block].without(set![worker])
                } else {
                    before[block]
                },
    {
        let ghost index = iter.index() as int;
        let ghost earlier = block_states(blocks@);
        let block: usize = *value;
        proof {
            assert(values[index] == block);
            assert(values.to_set().contains(block));
        }
        blocks[block].release(&worker);
        proof {
            let now = block_states(blocks@);
            assert(now =~= earlier.update(block as int, earlier[block as int].without(set![worker])));
            lemma_without_twice(before[block as int], set![worker], set![worker]);
            assert(set![worker].union(set![worker]) =~= set![worker]);
            assert forall|at: int| 0 <= at < before.len() implies #[trigger] now[at]
                == if values.take(index + 1).contains(at as usize) {
                before[at].without(set![worker])
            } else {
                before[at]
            } by {
                assert(values.take(index + 1) =~= values.take(index).push(block));
                assert(earlier[at] == if values.take(index).contains(at as usize) {
                    before[at].without(set![worker])
                } else {
                    before[at]
                });
                lemma_push_contains(values.take(index), block, at as usize);
            }
        }
    }
    proof {
        assert(values.take(values.len() as int) =~= values);
        assert forall|at: int| 0 <= at < before.len() implies #[trigger] block_states(blocks@)[at]
            == if table@.contains_value(at as usize) {
            before[at].without(set![worker])
        } else {
            before[at]
        } by {
            assert(values.to_set().contains(at as usize) <==> table@.values().contains(at as usize));
            assert(table@.values().contains(at as usize) <==> table@.contains_value(at as usize));
        }
    }
}

impl Default for RadixTree {
    fn default() -> (tree: Self)
        ensures
            tree.wf(),
            tree@ == TreeState::new(),
            tree.expiration() == None::<u64>,
    {
        RadixTree::new()
    }
}

impl RadixTree {
    /// The representation is sound: every link and table entry leads to a block.
    pub open spec fn wf(&self) -> bool {
        self@.valid()
    }

    /// How long a use of a block counts, in nanoseconds; uses are not counted where it is absent.
    pub closed spec fn expiration(&self) -> Option<u64> {
        self.expiration_nanos
    }

    /// A tree that counts uses of its blocks for the given time.
    pub fn new_with_frequency(expiration_nanos: Option<u64>) -> (tree: Self)
        ensures
            tree.wf(),
            tree@ == TreeState::new(),
            tree.expiration() == expiration_nanos,
    {
        let mut blocks: Vec<RadixBlock> = Vec::new();
        blocks.push(RadixBlock::new());
        let tree = RadixTree { blocks, lookup: WorkerMap::new(), expiration_nanos, created: read_clock() };
        assert(tree@.blocks =~= TreeState::new().blocks);
        assert(tree@.lookup =~= Map::empty());
        tree
    }

    pub fn new() -> (tree: Self)
        ensures
            tree.wf(),
            tree@ == TreeState::new(),
            tree.expiration() == None::<u64>,
    {
        RadixTree::new_with_frequency(None)
    }

    /// Applies a cache event. An event that fails leaves behind what it did before it failed.
    pub fn apply_event(&mut self, event: RouterEvent) -> (result: Result<(), KvCacheEventError>)
        requires
            old(self).wf(),
        ensures
            final(self).wf(),
            final(self).expiration() == old(self).expiration(),
            (final(self)@, result) == old(self)@.apply(event.source(), event.event.data),
            old(self)@.holders_tracked() ==> final(self)@.holders_tracked(),
    {
        let worker = WorkerWithDpRank::new(event.worker_id, event.event.dp_rank);
        let ghost before = self@;
        let ghost known = self@.track(worker);
        let mut table: HashMap<u64, usize> = match self.lookup.remove(&worker) {
            Some(table) => table,
            None => HashMap::new(),
        };
        proof {
            assert(table@ == known.lookup[worker]);
            assert(known.lookup.insert(worker, table@) =~= known.lookup);
            assert(valid_table(table@, known.blocks.len()));
        }
        match event.event.data {
            KvCacheEventData::Stored(store) => {
                let parent: usize = match store.parent_hash {
                    Some(hash) => match table.get(&hash.0) {
                        Some(block) => *block,
                        None => {
                            self.lookup.insert(worker, table);
                            assert(self@ =~= known);
                            return Err(KvCacheEventError::ParentBlockNotFound);
                        },
                    },
                    None => 0,
                };
                let stored = store_run(&mut self.blocks, &mut table, worker, parent, &store.blocks);
                self.lookup.insert(worker, table);
                proof {
                    let (state, ok) = known.of_worker(worker).store(
                        worker,
                        parent as int,
                        store.blocks@,
                        Set::empty(),
                    );
                    assert(self@ =~= known.with_worker(worker, state));
                    lemma_with_worker_valid(known, worker, state);
                    if before.holders_tracked() {
                        lemma_still_tracked(before, self@, worker);
                    }
                }
                if stored {
                    Ok(())
                } else {
                    Err(KvCacheEventError::InvalidBlockSequence)
                }
            },
            KvCacheEventData::Removed(remove) => {
                let removed = drop_run(&mut self.blocks, &mut table, worker, &remove.block_hashes);
                self.lookup.insert(worker, table);
                proof {
                    let (state, ok) = known.of_worker(worker).drop_blocks(
                        worker,
                        remove.block_hashes@,
                    );
                    assert(self@ =~= known.with_worker(worker, state));
                    lemma_drop_valid(known.of_worker(worker), worker, remove.block_hashes@);
                    lemma_drop_only_takes(known.of_worker(worker), worker, remove.block_hashes@);
                    if before.holders_tracked() {
                        lemma_still_tracked(before, self@, worker);
                    }
                    lemma_with_worker_valid(known, worker, state);
                }
                if removed {
                    Ok(())
                } else {
                    Err(KvCacheEventError::BlockNotFound)
                }
            },
            KvCacheEventData::Cleared => {
                self.lookup.insert(worker, table);
                assert(self@ =~= known);
                self.clear_all_blocks(worker.worker_id);
                proof {
                    if before.holders_tracked() {
                        law_cleared_worker_stays_known(known, worker.worker_id);
                    }
                }
                Ok(())
            },
        }
    }

    /// Matches the start of a sequence at time `now`, in nanoseconds. There is no answer where a
    /// worker without a table holds a matching block.
    pub fn try_find_matches_at(
        &mut self,
        sequence: &[LocalBlockHash],
        early_exit: bool,
        now: u64,
    ) -> (answer: Option<OverlapScores>)
        requires
            old(self).wf(),
            sequence@.len() <= u32::MAX || old(self)@.countable(
                old(self)@.matched(0, sequence@, early_exit),
            ),
        ensures
            final(self).wf(),
            final(self).expiration() == old(self).expiration(),
            final(self)@ == old(self)@.after_match(
                sequence@,
                early_exit,
                now,
                old(self).expiration(),
            ),
            answer is Some <==> old(self)@.holders_among_tracked(
                old(self)@.matched(0, sequence@, early_exit),
            ),
            answer matches Some(found) ==> {
                &&& found.frequencies@ == old(self)@.match_frequencies(
                    sequence@,
                    early_exit,
                    now,
                    old(self).expiration(),
                )
                &&& old(self)@.scores_of(
                    old(self)@.matched(0, sequence@, early_exit),
                    found.scores@,
                    found.tree_sizes@,
                )
            },
    {
        let ghost before = self@;
        let ghost whole = before.matched(0, sequence@, early_exit);
        let ghost mut done: Seq<int> = Seq::empty();
        let mut found = OverlapScores::new();
        let mut current: usize = 0;
        let mut index: usize = 0;
        let mut walking = true;
        proof {
            assert(sequence@.skip(0) =~= sequence@);
            assert(Seq::<int>::empty() + whole =~= whole);
            lemma_matched_blocks(before, 0, sequence@, early_exit);
            assert forall|worker: WorkerWithDpRank| #[trigger]
                before.held_among(whole, worker) <= u32::MAX by {
                lemma_held_among(before, whole, worker);
            }
        }
        while walking && index < sequence.len()
            invariant
                before == old(self)@,
                before.valid(),
                before.countable(whole),
                self.expiration_nanos == old(self).expiration_nanos,
                self@.lookup == before.lookup,
                index <= sequence@.len(),
                done.len() <= index,
                current < before.blocks.len(),
                whole == before.matched(0, sequence@, early_exit),
                whole.len() <= sequence@.len(),
                forall|i: int| 0 <= i < whole.len() ==> 0 < #[trigger] whole[i] < before.blocks.len(),
                done.is_prefix_of(whole),
                walking ==> whole == done + before.matched(
                    current as int,
                    sequence@.skip(index as int),
                    early_exit,
                ),
                !walking ==> whole == done,
                self@.blocks == (match self.expiration_nanos {
                    None => before.blocks,
                    Some(window) => use_blocks(before.blocks, done, now, window).0,
                }),
                found.frequencies@ == (match self.expiration_nanos {
                    None => Seq::empty(),
                    Some(window) => use_blocks(before.blocks, done, now, window).1,
                }),
                found.tree_sizes@ == Map::<WorkerWithDpRank, usize>::empty(),
                forall|worker: WorkerWithDpRank| #[trigger]
                    score_of(found.scores@, worker) == before.held_among(done, worker),
                forall|worker: WorkerWithDpRank| #[trigger]
                    found.scores@.contains_key(worker) <==> before.held_among(done, worker) > 0,
            decreases sequence@.len() - index,
        {
            let ghost rest = sequence@.skip(index as int);
            let tokens_hash: u64 = sequence[index].0;
            let ghost known = done;
            proof {
                assert(rest[0].0 == tokens_hash);
                assert(rest.skip(1) =~= sequence@.skip(index + 1));
                assert forall|i: int| 0 <= i < done.len() implies 0 <= #[trigger] done[i]
                    < before.blocks.len() by {
                    assert(whole[i] == done[i]);
                }
                match self.expiration_nanos {
                    None => {},
                    Some(window) => {
                        lemma_use_blocks(before.blocks, done, now, window);
                    },
                }
                assert(self@.blocks.len() == before.blocks.len());
                assert(self@.blocks[current as int].children
                    == before.blocks[current as int].children);
            }
            match self.blocks[current].child(tokens_hash) {
                None => {
                    proof {
                        assert(whole =~= done);
                    }
                    walking = false;
                },
                Some(next) => {
                    proof {
                        assert(before.blocks[current as int].children.contains_key(tokens_hash));
                        assert(next < before.blocks.len());
                        assert(self@.blocks[next as int].workers
                            == before.blocks[next as int].workers);
                        let tail = before.matched(current as int, rest, early_exit);
                        assert(tail[0] == next as int);
                        assert(whole[done.len() as int] == next as int);
                    }
                    let workers = self.blocks[next].workers.keys();
                    proof {
                        assert(self.blocks@[next as int]@ == self@.blocks[next as int]);
                        assert forall|worker: WorkerWithDpRank| #[trigger]
                            score_of(found.scores@, worker) + times_listed(workers@, worker)
                                <= u32::MAX by {
                            lemma_listed_once(workers@, worker);
                            let more = done.push(next as int);
                            assert(whole.take(more.len() as int) =~= more);
                            assert(more.drop_last() =~= done);
                            lemma_held_among_first(before, whole, more.len() as int, worker);
                            assert(before.held_among(whole, worker) <= u32::MAX);
                        }
                    }
                    found.update_scores(workers.as_slice());
                    proof {
                        done = done.push(next as int);
                        assert(done.drop_last() =~= known);
                        assert forall|worker: WorkerWithDpRank|
                            #![trigger score_of(found.scores@, worker)]
                            #![trigger found.scores@.contains_key(worker)]
                            {
                                &&& score_of(found.scores@, worker) == before.held_among(
                                    done,
                                    worker,
                                )
                                &&& found.scores@.contains_key(worker) <==> before.held_among(
                                    done,
                                    worker,
                                ) > 0
                            } by {
                            lemma_listed_once(workers@, worker);
                            assert(workers@.contains(worker)
                                <==> before.blocks[next as int].workers.contains_key(worker));
                        }
                    }
                    match self.expiration_nanos {
                        None => {},
                        Some(window) => {
                            let ghost earlier = self@.blocks;
                            let count: usize = self.blocks[next].use_at(now, window);
                            found.add_frequency(count);
                            proof {
                                assert(self@.blocks =~= use_blocks(
                                    before.blocks,
                                    done,
                                    now,
                                    window,
                                ).0);
                            }
                        },
                    }
                    if early_exit && workers.len() == 1 {
                        proof {
                            assert(whole =~= done);
                        }
                        walking = false;
                    } else {
                        proof {
                            let tail = before.matched(next as int, rest.skip(1), early_exit);
                            assert(whole =~= known + (seq![next as int] + tail));
                            assert(known + (seq![next as int] + tail) =~= done + tail);
                        }
                        current = next;
                    }
                    proof {
                        assert(done =~= whole.take(done.len() as int));
                    }
                },
            }
            index += 1;
        }
        proof {
            if walking {
                assert(sequence@.skip(index as int) =~= Seq::empty());
                assert(whole =~= done);
            }
            match self.expiration_nanos {
                None => {},
                Some(window) => {
                    lemma_use_blocks(before.blocks, done, now, window);
                    lemma_used_valid(before, self@);
                },
            }
        }
        proof {
            assert forall|worker: WorkerWithDpRank| #[trigger]
                found.scores@.contains_key(worker) implies found.scores@[worker]
                == before.held_among(whole, worker) by {
                assert(score_of(found.scores@, worker) == before.held_among(done, worker));
            }
        }
        let workers = found.scores.keys();
        let mut at: usize = 0;
        while at < workers.len()
            invariant
                before.valid(),
                before == old(self)@,
                self.wf(),
                self.expiration_nanos == old(self).expiration_nanos,
                self@ == before.after_match(sequence@, early_exit, now, self.expiration_nanos),
                self@.lookup == before.lookup,
                at <= workers@.len(),
                whole == before.matched(0, sequence@, early_exit),
                forall|i: int| 0 <= i < whole.len() ==> 0 < #[trigger] whole[i] < before.blocks.len(),
                lists_in_order(workers@, found.scores@.dom()),
                forall|worker: WorkerWithDpRank| #[trigger]
                    found.scores@.contains_key(worker) <==> before.held_among(whole, worker) > 0,
                forall|worker: WorkerWithDpRank| #[trigger]
                    found.scores@.contains_key(worker) ==> found.scores@[worker]
                        == before.held_among(whole, worker),
                found.frequencies@ == before.match_frequencies(
                    sequence@,
                    early_exit,
                    now,
                    self.expiration_nanos,
                ),
                forall|worker: WorkerWithDpRank| #[trigger]
                    found.tree_sizes@.contains_key(worker) <==> workers@.take(
                        at as int,
                    ).contains(worker),
                forall|worker: WorkerWithDpRank| #[trigger]
                    found.tree_sizes@.contains_key(worker) ==> before.lookup.contains_key(worker)
                        && found.tree_sizes@[worker] == before.lookup[worker].len(),
            decreases workers@.len() - at,
        {
            let worker = workers[at];
            proof {
                lemma_take_next(workers@, at as int);
                assert(workers@.contains(worker));
                assert forall|other: WorkerWithDpRank| workers@.take(at + 1).contains(other)
                    <==> workers@.take(at as int).contains(other) || other == worker by {
                    lemma_push_contains(workers@.take(at as int), worker, other);
                }
            }
            let size: usize = match self.lookup.get(&worker) {
                Some(table) => table.len(),
                None => {
                    assert(!self@.lookup.contains_key(worker));
                    return None;
                },
            };
            assert(self@.lookup.contains_key(worker));
            found.tree_sizes.insert(worker, size);
            at += 1;
        }
        proof {
            assert(workers@.take(at as int) =~= workers@);
            assert(found.tree_sizes@.dom() =~= found.scores@.dom());
            assert forall|worker: WorkerWithDpRank| #[trigger]
                before.held_among(whole, worker) > 0 implies before.lookup.contains_key(worker) by {
                assert(found.scores@.contains_key(worker));
                assert(found.tree_sizes@.contains_key(worker));
            }
        }
        Some(found)
    }

    /// Matches the start of a sequence at time `now`, in nanoseconds.
    pub fn find_matches_at(
        &mut self,
        sequence: Vec<LocalBlockHash>,
        early_exit: bool,
        now: u64,
    ) -> (found: OverlapScores)
        requires
            old(self).wf(),
            old(self)@.holders_tracked(),
            sequence@.len() <= u32::MAX || old(self)@.countable(
                old(self)@.matched(0, sequence@, early_exit),
            ),
        ensures
            final(self).wf(),
            final(self).expiration() == old(self).expiration(),
            final(self)@ == old(self)@.after_match(
                sequence@,
                early_exit,
                now,
                old(self).expiration(),
            ),
            found.frequencies@ == old(self)@.match_frequencies(
                sequence@,
                early_exit,
                now,
                old(self).expiration(),
            ),
            old(self)@.scores_of(
                old(self)@.matched(0, sequence@, early_exit),
                found.scores@,
                found.tree_sizes@,
            ),
    {
        proof {
            let matched = self@.matched(0, sequence@, early_exit);
            lemma_matched_blocks(self@, 0, sequence@, early_exit);
            assert forall|worker: WorkerWithDpRank| #[trigger]
                self@.held_among(matched, worker) > 0 implies self@.lookup.contains_key(worker) by {
                lemma_holder_exists(self@, matched, worker);
            }
        }
        match self.try_find_matches_at(sequence.as_slice(), early_exit, now) {
            Some(found) => found,
            None => OverlapScores::new(),
        }
    }

    /// Matches the start of a sequence now. Which uses of the blocks still count depends on the
    /// time of the call.
    pub fn find_matches(&mut self, sequence: Vec<LocalBlockHash>, early_exit: bool) -> (found:
        OverlapScores)
        requires
            old(self).wf(),
            old(self)@.holders_tracked(),
            sequence@.len() <= u32::MAX || old(self)@.countable(
                old(self)@.matched(0, sequence@, early_exit),
            ),
        ensures
            final(self).wf(),
            final(self).expiration() == old(self).expiration(),
            old(self)@.scores_of(
                old(self)@.matched(0, sequence@, early_exit),
                found.scores@,
                found.tree_sizes@,
            ),
            exists|now: u64|
                {
                    &&& final(self)@ == #[trigger] old(self)@.after_match(
                        sequence@,
                        early_exit,
                        now,
                        old(self).expiration(),
                    )
                    &&& found.frequencies@ == old(self)@.match_frequencies(
                        sequence@,
                        early_exit,
                        now,
                        old(self).expiration(),
                    )
                },
    {
        let now: u64 = elapsed_nanos(&self.created);
        self.find_matches_at(sequence, early_exit, now)
    }

    /// The workers that the tree knows, in worker order.
    pub fn known_workers(&self) -> (workers: Vec<WorkerWithDpRank>)
        ensures
            lists_in_order(workers@, self@.lookup.dom()),
            workers@.len() == self@.lookup.len(),
    {
        let workers = self.lookup.keys();
        assert(self@.lookup.dom() =~= self.lookup@.dom());
        workers
    }

    /// The number of hashes in a worker's table.
    pub fn worker_size(&self, worker: &WorkerWithDpRank) -> (size: Option<usize>)
        ensures
            size is Some <==> self@.lookup.contains_key(*worker),
            size matches Some(size) ==> size == self@.lookup[*worker].len(),
    {
        match self.lookup.get(worker) {
            Some(table) => Some(table.len()),
            None => None,
        }
    }

    /// The block that a worker knows by an external hash.
    pub fn known_block(&self, worker: &WorkerWithDpRank, hash: ExternalSequenceBlockHash) -> (block:
        Option<&RadixBlock>)
        requires
            self.wf(),
        ensures
            block is Some <==> self@.lookup.contains_key(*worker)
                && self@.lookup[*worker].contains_key(hash.0),
            block matches Some(block) ==> block@
                == self@.blocks[self@.lookup[*worker][hash.0] as int],
    {
        match self.lookup.get(worker) {
            Some(table) => match table.get(&hash.0) {
                Some(block) => {
                    assert(self@.lookup.contains_key(*worker));
                    assert(valid_table(self@.lookup[*worker], self@.blocks.len()));
                    assert(self@.lookup[*worker].contains_key(hash.0));
                    Some(&self.blocks[*block])
                },
                None => None,
            },
            None => None,
        }
    }

    /// The block at the end of a path of token hashes from the root, which the empty path names.
    pub fn block_at(&self, path: &[LocalBlockHash]) -> (block: Option<&RadixBlock>)
        requires
            self.wf(),
        ensures
            block is Some <==> self@.matched(0, path@, false).len() == path@.len(),
            block matches Some(block) ==> block@ == self@.blocks[if path@.len() == 0 {
                0
            } else {
                self@.matched(0, path@, false).last()
            }],
    {
        let ghost whole = self@.matched(0, path@, false);
        let ghost mut done: Seq<int> = Seq::empty();
        let mut current: usize = 0;
        let mut index: usize = 0;
        proof {
            assert(path@.skip(0) =~= path@);
            assert(Seq::<int>::empty() + whole =~= whole);
        }
        while index < path.len()
            invariant
                self.wf(),
                index <= path@.len(),
                done.len() == index,
                current < self@.blocks.len(),
                whole == self@.matched(0, path@, false),
                whole == done + self@.matched(current as int, path@.skip(index as int), false),
                current as int == if index == 0 {
                    0
                } else {
                    done.last()
                },
            decreases path@.len() - index,
        {
            let ghost rest = path@.skip(index as int);
            let tokens_hash: u64 = path[index].0;
            assert(rest[0].0 == tokens_hash);
            assert(rest.skip(1) =~= path@.skip(index + 1));
            match self.blocks[current].child(tokens_hash) {
                None => {
                    return None;
                },
                Some(next) => {
                    proof {
                        assert(self@.blocks[current as int].children.contains_key(tokens_hash));
                        let tail = self@.matched(next as int, rest.skip(1), false);
                        assert(whole =~= done + (seq![next as int] + tail));
                        done = done.push(next as int);
                        assert(whole =~= done + tail);
                    }
                    current = next;
                },
            }
            index += 1;
        }
        proof {
            assert(path@.skip(index as int) =~= Seq::empty());
            assert(whole =~= done);
        }
        Some(&self.blocks[current])
    }

    /// Writes the tree down as store events, one per block and worker, level by level, unless
    /// some way down never ends.
    pub fn try_dump_tree_as_events(&self) -> (dumped: Option<Vec<RouterEvent>>)
        requires
            self.wf(),
        ensures
            dumped is Some <==> self@.finite_depth(),
            dumped matches Some(events) ==> {
                &&& events@.len() == self@.dump().len()
                &&& forall|i: int|
                    0 <= i < events@.len() ==> stores(#[trigger] events@[i], i, self@.dump()[i])
            },
    {
        let mut events: Vec<RouterEvent> = Vec::new();
        let mut level: Vec<Found> = Vec::new();
        let count: usize = self.blocks.len();
        let mut depth: usize = 0;
        self.push_children(0, &mut level);
        proof {
            assert(found_visits(level@) =~= self@.level(0));
        }
        while level.len() > 0
            invariant
                self.wf(),
                count == self@.blocks.len(),
                depth <= count,
                found_visits(level@) == self@.level(depth as nat),
                all_in(self@, level@),
                events@.len() == self@.records(self@.levels(depth as nat)).len(),
                forall|i: int|
                    0 <= i < events@.len() ==> stores(
                        #[trigger] events@[i],
                        i,
                        self@.records(self@.levels(depth as nat))[i],
                    ),
            decreases count - depth,
        {
            if depth == count {
                proof {
                    assert(found_visits(level@).len() == level@.len());
                    lemma_too_deep(self@);
                }
                return None;
            }
            let ghost earlier = self@.records(self@.levels(depth as nat));
            let mut next: Vec<Found> = Vec::new();
            let mut index: usize = 0;
            proof {
                assert(found_visits(level@).take(0) =~= Seq::empty());
                assert(earlier + Seq::<StoredAt>::empty() =~= earlier);
            }
            while index < level.len()
                invariant
                    self.wf(),
                    index <= level@.len(),
                    all_in(self@, level@),
                    all_in(self@, next@),
                    found_visits(next@) == self@.below_all(found_visits(level@).take(index as int)),
                    events@.len() == (earlier + self@.records(
                        found_visits(level@).take(index as int),
                    )).len(),
                    forall|i: int|
                        0 <= i < events@.len() ==> stores(
                            #[trigger] events@[i],
                            i,
                            (earlier + self@.records(found_visits(level@).take(index as int)))[i],
                        ),
                decreases level@.len() - index,
            {
                let found = level[index];
                let ghost visits = found_visits(level@);
                proof {
                    lemma_take_next(visits, index as int);
                    assert(visits[index as int] == found.visit());
                    assert(all_in(self@, level@));
                    assert(level@[index as int].block < self@.blocks.len());
                }
                let ghost before = earlier + self@.records(visits.take(index as int));
                self.push_events(&found, &mut events);
                proof {
                    let after = earlier + self@.records(visits.take(index + 1));
                    assert(after =~= before + self@.records_at(found.visit()));
                    assert forall|i: int| 0 <= i < events@.len() implies stores(
                        #[trigger] events@[i],
                        i,
                        after[i],
                    ) by {
                        if i < before.len() {
                            assert(after[i] == before[i]);
                        } else {
                            assert(after[i] == self@.records_at(found.visit())[i - before.len()]);
                        }
                    }
                }
                self.push_children(found.block, &mut next);
                index += 1;
            }
            proof {
                assert(found_visits(level@).take(index as int) =~= found_visits(level@));
                lemma_records_concat(
                    self@,
                    self@.levels(depth as nat),
                    self@.level(depth as nat),
                );
            }
            depth += 1;
            level = next;
        }
        proof {
            assert(found_visits(level@).len() == 0);
            assert(self@.level(depth as nat).len() == 0);
            lemma_all_visits(self@, depth as nat);
        }
        Some(events)
    }

    /// Writes the tree down as store events, one per block and worker, level by level. Applied
    /// to an empty tree they rebuild this one.
    pub fn dump_tree_as_events(&self) -> (events: Vec<RouterEvent>)
        requires
            self.wf(),
            self@.finite_depth(),
        ensures
            events@.len() == self@.dump().len(),
            forall|i: int|
                0 <= i < events@.len() ==> stores(#[trigger] events@[i], i, self@.dump()[i]),
    {
        match self.try_dump_tree_as_events() {
            Some(events) => events,
            None => Vec::new(),
        }
    }

    /// Appends the children of a block, by increasing token hash.
    fn push_children(&self, block: usize, level: &mut Vec<Found>)
        requires
            self.wf(),
            block < self@.blocks.len(),
            all_in(self@, old(level)@),
        ensures
            all_in(self@, final(level)@),
            found_visits(final(level)@) == found_visits(old(level)@) + self@.below(block as int),
    {
        let hashes = self.blocks[block].child_hashes();
        let ghost before = level@;
        let ghost children = self@.blocks[block as int].children;
        proof {
            assert(self.blocks@[block as int]@ == self@.blocks[block as int]);
            lemma_hashes_in_order(hashes@, children.dom());
        }
        let mut index: usize = 0;
        proof {
            assert(self@.below(block as int).take(0) =~= Seq::empty());
        }
        while index < hashes.len()
            invariant
                self.wf(),
                block < self@.blocks.len(),
                children == self@.blocks[block as int].children,
                self@.blocks[block as int] == self.blocks@[block as int]@,
                index <= hashes@.len(),
                hashes@ == hashes_in_order(children.dom()),
                lists_increasing(hashes@, children.dom()),
                all_in(self@, level@),
                found_visits(level@) =~= found_visits(before) + self@.below(block as int).take(
                    index as int,
                ),
            decreases hashes@.len() - index,
        {
            let tokens: u64 = hashes[index];
            assert(hashes@.contains(tokens));
            assert(self@.blocks[block as int].children.contains_key(tokens));
            match self.blocks[block].child(tokens) {
                Some(child) => {
                    let ghost visits = found_visits(level@);
                    let ghost listed = level@;
                    level.push(Found { block: child, above: block, tokens });
                    proof {
                        lemma_take_next(self@.below(block as int), index as int);
                        assert(found_visits(level@) =~= visits.push(level@.last().visit()));
                        assert forall|i: int| 0 <= i < level@.len() implies 0 < (
                        #[trigger] level@[i]).block < self@.blocks.len() && level@[i].above
                            < self@.blocks.len() by {
                            if i < listed.len() {
                                assert(level@[i] == listed[i]);
                            }
                        }
                    }
                },
                None => {},
            }
            index += 1;
        }
        proof {
            assert(self@.below(block as int).take(index as int) =~= self@.below(block as int));
        }
    }

    /// Appends the store events of the workers that hold a block.
    fn push_events(&self, found: &Found, events: &mut Vec<RouterEvent>)
        requires
            self.wf(),
            0 < found.block < self@.blocks.len(),
            found.above < self@.blocks.len(),
        ensures
            ({
                let records = self@.records_at(found.visit());
                let before = old(events)@;
                &&& final(events)@.len() == before.len() + records.len()
                &&& forall|i: int| 0 <= i < before.len() ==> #[trigger] final(events)@[i] == before[i]
                &&& forall|i: int|
                    before.len() <= i < final(events)@.len() ==> stores(
                        #[trigger] final(events)@[i],
                        i,
                        records[i - before.len()],
                    )
            }),
    {
        let workers = self.blocks[found.block].workers.keys();
        let ghost before = events@;
        let ghost held = self@.blocks[found.block as int].workers;
        let ghost above = self@.blocks[found.above as int].workers;
        let ghost records = self@.records_at(found.visit());
        proof {
            assert(self.blocks@[found.block as int]@ == self@.blocks[found.block as int]);
            assert(self.blocks@[found.above as int]@ == self@.blocks[found.above as int]);
            lemma_workers_in_order(workers@, held.dom());
        }
        let mut index: usize = 0;
        while index < workers.len()
            invariant
                0 < found.block < self@.blocks.len(),
                found.above < self@.blocks.len(),
                self.blocks@[found.block as int]@.workers == held,
                self.blocks@[found.above as int]@.workers == above,
                self@.blocks.len() == self.blocks@.len(),
                held == self@.blocks[found.block as int].workers,
                above == self@.blocks[found.above as int].workers,
                records == self@.records_at(found.visit()),
                index <= workers@.len(),
                workers@ == workers_in_order(held.dom()),
                lists_in_order(workers@, held.dom()),
                events@.len() == before.len() + index,
                forall|i: int| 0 <= i < before.len() ==> #[trigger] events@[i] == before[i],
                forall|i: int|
                    before.len() <= i < events@.len() ==> stores(
                        #[trigger] events@[i],
                        i,
                        records[i - before.len()],
                    ),
            decreases workers@.len() - index,
        {
            let worker = workers[index];
            assert(workers@.contains(worker));
            let parent_hash = self.blocks[found.above].worker_hash(&worker);
            match self.blocks[found.block].worker_hash(&worker) {
                Some(block_hash) => {
                    let ghost listed = events@;
                    let mut blocks: Vec<KvCacheStoredBlockData> = Vec::new();
                    blocks.push(
                        KvCacheStoredBlockData {
                            block_hash,
                            tokens_hash: LocalBlockHash(found.tokens),
                        },
                    );
                    assert(blocks@ =~= seq![records[index as int].block]);
                    let event_id: u64 = events.len() as u64;
                    let data = KvCacheEventData::Stored(KvCacheStoreData { parent_hash, blocks });
                    events.push(
                        RouterEvent::new(
                            worker.worker_id,
                            KvCacheEvent { event_id, data, dp_rank: worker.dp_rank },
                        ),
                    );
                    proof {
                        assert forall|i: int| before.len() <= i < events@.len() implies stores(
                            #[trigger] events@[i],
                            i,
                            records[i - before.len()],
                        ) by {
                            if i < listed.len() {
                                assert(events@[i] == listed[i]);
                            }
                        }
                        assert forall|i: int| 0 <= i < before.len() implies #[trigger] events@[i]
                            == before[i] by {
                            assert(events@[i] == listed[i]);
                        }
                    }
                },
                None => {},
            }
            index += 1;
        }
    }

    /// The ids of all known workers, in increasing order.
    pub fn get_workers(&self) -> (worker_ids: Vec<WorkerId>)
        ensures
            forall|i: int, j: int|
                0 <= i < j < worker_ids@.len() ==> worker_ids@[i] < worker_ids@[j],
            forall|worker_id: WorkerId| #[trigger]
                worker_ids@.contains(worker_id) <==> exists|worker: WorkerWithDpRank| #[trigger]
                    self@.lookup.contains_key(worker) && worker.worker_id == worker_id,
            names_workers(worker_ids@, self@.lookup),
    {
        let workers = self.lookup.keys();
        let mut worker_ids: Vec<WorkerId> = Vec::new();
        let mut index: usize = 0;
        while index < workers.len()
            invariant
                index <= workers@.len(),
                lists_in_order(workers@, self@.lookup.dom()),
                forall|i: int, j: int|
                    0 <= i < j < worker_ids@.len() ==> worker_ids@[i] < worker_ids@[j],
                worker_ids@.len() > 0 ==> index > 0 && worker_ids@.last() == workers@[index
                    - 1].worker_id,
                index > 0 ==> worker_ids@.len() > 0,
                forall|i: int|
                    0 <= i < index ==> worker_ids@.contains((#[trigger] workers@[i]).worker_id),
                forall|worker_id: WorkerId| #[trigger]
                    worker_ids@.contains(worker_id) ==> exists|worker: WorkerWithDpRank| #[trigger]
                        self@.lookup.contains_key(worker) && worker.worker_id == worker_id,
            decreases workers@.len() - index,
        {
            let worker = workers[index];
            let ghost earlier = worker_ids@;
            proof {
                assert(workers@.contains(worker));
                assert(self@.lookup.contains_key(worker));
                if index > 0 {
                    assert(workers@[index - 1].precedes(workers@[index as int]));
                }
            }
            let count: usize = worker_ids.len();
            if count == 0 || worker_ids[count - 1] != worker.worker_id {
                worker_ids.push(worker.worker_id);
                proof {
                    assert forall|i: int| 0 <= i <= index implies worker_ids@.contains(
                        (#[trigger] workers@[i]).worker_id,
                    ) by {
                        lemma_push_contains(earlier, worker.worker_id, workers@[i].worker_id);
                    }
                    assert forall|worker_id: WorkerId| #[trigger]
                        worker_ids@.contains(worker_id) implies exists|worker: WorkerWithDpRank|
                     #[trigger]
                        self@.lookup.contains_key(worker) && worker.worker_id == worker_id by {
                        lemma_push_contains(earlier, worker.worker_id, worker_id);
                    }
                }
            } else {
                assert(worker_ids@[count - 1] == worker.worker_id);
            }
            index += 1;
        }
        proof {
            assert forall|worker_id: WorkerId|
                (exists|worker: WorkerWithDpRank| #[trigger]
                    self@.lookup.contains_key(worker) && worker.worker_id
                        == worker_id) implies #[trigger] worker_ids@.contains(worker_id) by {
                let worker = choose|worker: WorkerWithDpRank| #[trigger]
                    self@.lookup.contains_key(worker) && worker.worker_id == worker_id;
                assert(workers@.contains(worker));
                let i = choose|i: int| 0 <= i < workers@.len() && workers@[i] == worker;
                assert(worker_ids@.contains(workers@[i].worker_id));
            }
        }
        worker_ids
    }

    /// The number of table entries of all workers together, or the largest number there is.
    pub fn current_size(&self) -> (size: usize)
        requires
            self.wf(),
        ensures
            size as int == if self@.entries().len() <= usize::MAX {
                self@.entries().len() as int
            } else {
                usize::MAX as int
            },
            self@.entries().finite(),
    {
        let workers = self.lookup.keys();
        let mut size: usize = 0;
        let mut index: usize = 0;
        proof {
            assert(self@.entries_of(workers@.take(0)) =~= Set::empty());
        }
        while index < workers.len()
            invariant
                self.wf(),
                index <= workers@.len(),
                lists_in_order(workers@, self@.lookup.dom()),
                self@.entries_of(workers@.take(index as int)).finite(),
                size as int == if self@.entries_of(workers@.take(index as int)).len() <= usize::MAX {
                    self@.entries_of(workers@.take(index as int)).len() as int
                } else {
                    usize::MAX as int
                },
            decreases workers@.len() - index,
        {
            let worker = workers[index];
            let ghost listed = workers@.take(index as int);
            proof {
                assert(workers@.contains(worker));
                assert(self@.lookup.contains_key(worker));
                assert(valid_table(self@.lookup[worker], self@.blocks.len()));
                assert(!listed.contains(worker)) by {
                    if listed.contains(worker) {
                        let i = choose|i: int| 0 <= i < listed.len() && listed[i] == worker;
                        assert(workers@[i].precedes(workers@[index as int]));
                    }
                }
                lemma_take_next(workers@, index as int);
                lemma_entries_step(self@, listed, worker);
            }
            let count: usize = match self.lookup.get(&worker) {
                Some(table) => table.len(),
                None => 0,
            };
            size = size.saturating_add(count);
            index += 1;
        }
        proof {
            assert(workers@.take(index as int) =~= workers@);
            assert(self@.entries_of(workers@) =~= self@.entries());
        }
        size
    }

    /// Takes every rank of a worker off the blocks of its table.
    fn remove_or_clear_worker_blocks(&mut self, worker_id: WorkerId, keep_worker: bool)
        requires
            old(self).wf(),
        ensures
            final(self).wf(),
            final(self).expiration() == old(self).expiration(),
            final(self)@ == old(self)@.forget(worker_id, keep_worker),
    {
        let ghost before = self@;
        let workers = self.lookup.keys();
        let mut index: usize = 0;
        proof {
            assert forall|block: int| 0 <= block < before.blocks.len() implies ranks_among(
                before,
                worker_id,
                workers@.take(0),
                block,
            ) == Set::<WorkerWithDpRank>::empty() by {
                assert(ranks_among(before, worker_id, workers@.take(0), block) =~= Set::empty());
            }
        }
        while index < workers.len()
            invariant
                index <= workers@.len(),
                before == old(self)@,
                before.valid(),
                self.expiration_nanos == old(self).expiration_nanos,
                lists_in_order(workers@, before.lookup.dom()),
                self@.blocks.len() == before.blocks.len(),
                valid_blocks(self@.blocks),
                forall|block: int|
                    0 <= block < before.blocks.len() ==> #[trigger] self@.blocks[block]
                        == without_ranks(
                        before.blocks[block],
                        ranks_among(before, worker_id, workers@.take(index as int), block),
                    ),
                forall|worker: WorkerWithDpRank| #[trigger]
                    self@.lookup.contains_key(worker) <==> before.lookup.contains_key(worker) && (
                    keep_worker || worker.worker_id != worker_id || !workers@.take(
                        index as int,
                    ).contains(worker)),
                forall|worker: WorkerWithDpRank| #[trigger]
                    self@.lookup.contains_key(worker) ==> self@.lookup[worker] == if worker.worker_id
                        == worker_id && workers@.take(index as int).contains(worker) {
                        Map::empty()
                    } else {
                        before.lookup[worker]
                    },
            decreases workers@.len() - index,
        {
            let worker = workers[index];
            let ghost listed = workers@.take(index as int);
            let ghost earlier = self@;
            proof {
                lemma_take_next(workers@, index as int);
                assert(workers@.contains(worker));
                assert forall|other: WorkerWithDpRank| workers@.take(index + 1).contains(other)
                    <==> listed.contains(other) || other == worker by {
                    lemma_push_contains(listed, worker, other);
                }
                assert(!listed.contains(worker)) by {
                    if listed.contains(worker) {
                        let i = choose|i: int| 0 <= i < listed.len() && listed[i] == worker;
                        assert(workers@[i].precedes(workers@[index as int]));
                    }
                }
                assert(earlier.lookup.contains_key(worker));
            }
            if worker.worker_id == worker_id {
                let table: HashMap<u64, usize> = match self.lookup.remove(&worker) {
                    Some(table) => table,
                    None => HashMap::new(),
                };
                release_table(&mut self.blocks, &table, worker);
                if keep_worker {
                    self.lookup.insert(worker, HashMap::new());
                }
                proof {
                    assert(table@ == before.lookup[worker]);
                    assert(self@.lookup =~= if keep_worker {
                        earlier.lookup.insert(worker, Map::empty())
                    } else {
                        earlier.lookup.remove(worker)
                    });
                    assert(self@.blocks == block_states(self.blocks@));
                    assert forall|block: int| 0 <= block < before.blocks.len() implies {
                        &&& #[trigger] self@.blocks[block] == without_ranks(
                            before.blocks[block],
                            ranks_among(before, worker_id, workers@.take(index + 1), block),
                        )
                    } by {
                        assert(earlier.blocks[block] == without_ranks(
                            before.blocks[block],
                            ranks_among(before, worker_id, listed, block),
                        ));
                        lemma_ranks_step(before, worker_id, listed, worker, block);
                    }
                    lemma_released_valid(earlier.blocks, self@.blocks, worker);
                }
            } else {
                proof {
                    assert forall|block: int| 0 <= block < before.blocks.len() implies {
                        &&& #[trigger] self@.blocks[block] == without_ranks(
                            before.blocks[block],
                            ranks_among(before, worker_id, workers@.take(index + 1), block),
                        )
                    } by {
                        assert(ranks_among(before, worker_id, workers@.take(index + 1), block)
                            =~= ranks_among(before, worker_id, listed, block));
                    }
                }
            }
            index += 1;
        }
        proof {
            assert(workers@.take(index as int) =~= workers@);
            let after = before.forget(worker_id, keep_worker);
            assert forall|block: int| 0 <= block < before.blocks.len() implies #[trigger]
                self@.blocks[block] == after.blocks[block] by {
                assert(ranks_among(before, worker_id, workers@, block) =~= before.ranks_at(
                    worker_id,
                    block,
                ));
            }
            assert(self@.blocks =~= after.blocks);
            assert(self@.lookup =~= after.lookup);
            lemma_forget_valid(before, worker_id, keep_worker);
        }
    }

    /// Forgets a worker with all its ranks.
    pub fn remove_worker(&mut self, worker_id: WorkerId)
        requires
            old(self).wf(),
        ensures
            final(self).wf(),
            final(self).expiration() == old(self).expiration(),
            final(self)@ == old(self)@.forget(worker_id, false),
    {
        self.remove_or_clear_worker_blocks(worker_id, false);
    }

    /// Drops all blocks of a worker and keeps its ranks known.
    pub fn clear_all_blocks(&mut self, worker_id: WorkerId)
        requires
            old(self).wf(),
        ensures
            final(self).wf(),
            final(self).expiration() == old(self).expiration(),
            final(self)@ == old(self)@.forget(worker_id, true),
    {
        self.remove_or_clear_worker_blocks(worker_id, true);
    }
}

/// Whether each worker with a table is named.
pub open spec fn names_workers(
    ids: Seq<WorkerId>,
    lookup: Map<WorkerWithDpRank, Map<u64, usize>>,
) -> bool {
    forall|worker: WorkerWithDpRank| #[trigger]
        lookup.contains_key(worker) ==> ids.contains(worker.worker_id)
}

/// The ranks of a worker that are listed and whose tables lead to `block`.
spec fn ranks_among(
    tree: TreeState,
    worker_id: WorkerId,
    listed: Seq<WorkerWithDpRank>,
    block: int,
) -> Set<WorkerWithDpRank> {
    Set::new(
        |worker: WorkerWithDpRank|
            listed.contains(worker) && worker.worker_id == worker_id && tree.knows(worker, block),
    )
}

/// The block without `ranks`; a block that loses nobody is left alone.
spec fn without_ranks(block: BlockState, ranks: Set<WorkerWithDpRank>) -> BlockState {
    if ranks == Set::<WorkerWithDpRank>::empty() {
        block
    } else {
        block.without(ranks)
    }
}

proof fn lemma_ranks_step(
    tree: TreeState,
    worker_id: WorkerId,
    listed: Seq<WorkerWithDpRank>,
    worker: WorkerWithDpRank,
    block: int,
)
    requires
        tree.valid(),
        worker.worker_id == worker_id,
        tree.lookup.contains_key(worker),
        0 <= block < tree.blocks.len(),
    ensures
        ({
            let before = without_ranks(
                tree.blocks[block],
                ranks_among(tree, worker_id, listed, block),
            );
            let after = without_ranks(
                tree.blocks[block],
                ranks_among(tree, worker_id, listed.push(worker), block),
            );
            after == if tree.lookup[worker].contains_value(block as usize) {
                before.without(set![worker])
            } else {
                before
            }
        }),
{
    let ranks = ranks_among(tree, worker_id, listed, block);
    let more = ranks_among(tree, worker_id, listed.push(worker), block);
    assert forall|other: WorkerWithDpRank| listed.push(worker).contains(other) <==> listed.contains(
        other,
    ) || other == worker by {
        lemma_push_contains(listed, worker, other);
    }
    let table = tree.lookup[worker];
    if table.contains_value(block as usize) {
        let hash = choose|hash: u64| #[trigger]
            table.contains_key(hash) && table[hash] == block as usize;
        assert(table.contains_key(hash) && table[hash] == block);
        assert(tree.knows(worker, block));
        assert(more =~= ranks.union(set![worker]));
        assert(more.contains(worker));
        lemma_without_twice(tree.blocks[block], ranks, set![worker]);
        if ranks == Set::<WorkerWithDpRank>::empty() {
            assert(more =~= set![worker]);
        }
    } else {
        assert(!tree.knows(worker, block)) by {
            if tree.knows(worker, block) {
                let hash = choose|hash: u64| #[trigger]
                    table.contains_key(hash) && table[hash] == block;
                assert(table.contains_value(block as usize));
            }
        }
        assert(more =~= ranks);
    }
}

proof fn lemma_released_valid(
    before: Seq<BlockState>,
    after: Seq<BlockState>,
    worker: WorkerWithDpRank,
)
    requires
        valid_blocks(before),
        after.len() == before.len(),
        forall|block: int|
            0 <= block < before.len() ==> #[trigger] after[block] == before[block] || after[block]
                == before[block].without(set![worker]),
    ensures
        valid_blocks(after),
{
    assert forall|at: int| 0 <= at < after.len() implies {
        &&& (#[trigger] after[at]).children.dom().finite()
        &&& after[at].workers.dom().finite()
        &&& after[at].workers.dom().subset_of(before[at].workers.dom())
        &&& after[at].children == before[at].children || after[at].children == Map::<
            u64,
            usize,
        >::empty()
    } by {
        assert(before[at].children.dom().finite());
        assert(before[at].workers.dom().finite());
        assert(after[at].workers.dom().subset_of(before[at].workers.dom()));
        vstd::set_lib::lemma_len_subset(after[at].workers.dom(), before[at].workers.dom());
    }
    assert forall|at: int, tokens: u64|
        0 <= at < after.len() && #[trigger] after[at].children.contains_key(tokens) implies 0
        < after[at].children[tokens] < after.len() by {
        assert(before[at].children.contains_key(tokens));
    }
    assert(after[0].workers =~= Map::empty());
}

/// A worker that holds some of the blocks holds one of them.
proof fn lemma_holder_exists(tree: TreeState, blocks: Seq<int>, worker: WorkerWithDpRank)
    requires
        tree.held_among(blocks, worker) > 0,
    ensures
        exists|i: int|
            0 <= i < blocks.len() && tree.blocks[#[trigger] blocks[i]].workers.contains_key(worker),
    decreases blocks.len(),
{
    let last = blocks.len() - 1;
    if !tree.blocks[blocks[last]].workers.contains_key(worker) {
        lemma_holder_exists(tree, blocks.drop_last(), worker);
        let i = choose|i: int|
            0 <= i < blocks.drop_last().len()
                && tree.blocks[#[trigger] blocks.drop_last()[i]].workers.contains_key(worker);
        assert(blocks[i] == blocks.drop_last()[i]);
    }
}

/// A tree in which only the times of uses changed is as valid as before.
proof fn lemma_used_valid(before: TreeState, after: TreeState)
    requires
        before.valid(),
        after.lookup == before.lookup,
        after.blocks.len() == before.blocks.len(),
        forall|block: int|
            0 <= block < before.blocks.len() ==> {
                &&& (#[trigger] after.blocks[block]).children == before.blocks[block].children
                &&& after.blocks[block].workers == before.blocks[block].workers
            },
    ensures
        after.valid(),
{
    assert forall|block: int, tokens: u64|
        0 <= block < after.blocks.len()
            && #[trigger] after.blocks[block].children.contains_key(tokens) implies 0
        < after.blocks[block].children[tokens] < after.blocks.len() by {
        assert(before.blocks[block].children.contains_key(tokens));
    }
    assert forall|block: int| 0 <= block < after.blocks.len() implies {
        &&& (#[trigger] after.blocks[block]).children.dom().finite()
        &&& after.blocks[block].workers.dom().finite()
    } by {
        assert(before.blocks[block].children.dom().finite());
    }
}

/// A worker that is not listed yet adds the entries of its table.
pub proof fn lemma_entries_step(
    tree: TreeState,
    listed: Seq<WorkerWithDpRank>,
    worker: WorkerWithDpRank,
)
    requires
        tree.valid(),
        tree.lookup.contains_key(worker),
        !listed.contains(worker),
        tree.entries_of(listed).finite(),
    ensures
        tree.entries_of(listed.push(worker)).finite(),
        tree.entries_of(listed.push(worker)).len() == tree.entries_of(listed).len()
            + tree.lookup[worker].len(),
{
    let hashes = tree.lookup[worker].dom();
    let entry_of = |hash: u64| (worker, hash);
    let added = hashes.map(entry_of);
    assert(valid_table(tree.lookup[worker], tree.blocks.len()));
    vstd::set_lib::lemma_map_size(hashes, added, entry_of);
    assert forall|entry: (WorkerWithDpRank, u64)| #[trigger]
        tree.entries_of(listed.push(worker)).contains(entry) <==> tree.entries_of(listed).union(
            added,
        ).contains(entry) by {
        lemma_push_contains(listed, worker, entry.0);
        if added.contains(entry) {
            let hash = choose|hash: u64| hashes.contains(hash) && entry_of(hash) == entry;
            assert(tree.lookup[worker].contains_key(hash));
        }
        if entry.0 == worker && tree.lookup[worker].contains_key(entry.1) {
            assert(entry_of(entry.1) == entry);
            assert(added.contains(entry));
        }
    }
    assert(tree.entries_of(listed.push(worker)) =~= tree.entries_of(listed).union(added));
    assert(tree.entries_of(listed).disjoint(added)) by {
        assert forall|entry: (WorkerWithDpRank, u64)|
            tree.entries_of(listed).contains(entry) implies !added.contains(entry) by {
        }
    }
    vstd::set_lib::lemma_set_disjoint_lens(tree.entries_of(listed), added);
}

} // verus!
