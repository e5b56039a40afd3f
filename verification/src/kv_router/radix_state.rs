//! The mathematical state of a radix tree and what each cache event does to it.
//!
//! Blocks are numbered in the order of their creation; block zero is the root.
use crate::kv_router::protocols::{
    ExternalSequenceBlockHash, KvCacheEventData, KvCacheStoredBlockData, LocalBlockHash, WorkerId,
    WorkerWithDpRank,
};
use vstd::prelude::*;

verus! {

/// Why a cache event could not be applied in full.
#[derive(Clone, Copy, Debug, PartialEq, Eq, Structural)]
pub enum KvCacheEventError {
    ParentBlockNotFound,
    BlockNotFound,
    InvalidBlockSequence,
}

impl KvCacheEventError {
    /// The text shown for the error.
    pub fn message(&self) -> (text: &'static str)
        ensures
            text@ == (match *self {
                KvCacheEventError::ParentBlockNotFound => "Failed to find parent block"@,
                KvCacheEventError::BlockNotFound => "Failed to find block"@,
                KvCacheEventError::InvalidBlockSequence => "Invalid block sequence"@,
            }),
    {
        match self {
            KvCacheEventError::ParentBlockNotFound => "Failed to find parent block",
            KvCacheEventError::BlockNotFound => "Failed to find block",
            KvCacheEventError::InvalidBlockSequence => "Invalid block sequence",
        }
    }
}

/// One block: its children by token hash, the workers that hold it with the hash that each
/// knows it by, and the times of its recent uses.
#[verifier::ext_equal]
pub struct BlockState {
    pub children: Map<u64, usize>,
    pub workers: Map<WorkerWithDpRank, ExternalSequenceBlockHash>,
    pub uses: Seq<u64>,
}

impl BlockState {
    pub open spec fn new() -> BlockState {
        BlockState { children: Map::empty(), workers: Map::empty(), uses: Seq::empty() }
    }

    /// The block once `gone` no longer hold it: one without workers loses its children.
    pub open spec fn without(self, gone: Set<WorkerWithDpRank>) -> BlockState {
        let workers = self.workers.remove_keys(gone);
        BlockState {
            children: if workers == Map::<WorkerWithDpRank, ExternalSequenceBlockHash>::empty() {
                Map::empty()
            } else {
                self.children
            },
            workers,
            uses: self.uses,
        }
    }
}

/// The blocks of a tree together with the table of one worker, from external hash to block.
#[verifier::ext_equal]
pub struct WorkerState {
    pub blocks: Seq<BlockState>,
    pub table: Map<u64, usize>,
}

impl WorkerState {
    /// The block that a stored block becomes below `parent`: the child that is there, else the
    /// block that the worker knows by this hash, else a new one.
    pub open spec fn child_for(self, parent: int, stored: KvCacheStoredBlockData) -> usize {
        if self.blocks[parent].children.contains_key(stored.tokens_hash.0) {
            self.blocks[parent].children[stored.tokens_hash.0]
        } else if self.table.contains_key(stored.block_hash.0) {
            self.table[stored.block_hash.0]
        } else {
            self.blocks.len() as usize
        }
    }

    /// The state once that block is a child of `parent`.
    pub open spec fn link(self, parent: int, stored: KvCacheStoredBlockData) -> WorkerState {
        let child = self.child_for(parent, stored);
        if self.blocks[parent].children.contains_key(stored.tokens_hash.0) {
            self
        } else {
            let blocks = if self.table.contains_key(stored.block_hash.0) {
                self.blocks
            } else {
                self.blocks.push(BlockState::new())
            };
            let above = blocks[parent];
            WorkerState {
                blocks: blocks.update(
                    parent,
                    BlockState {
                        children: above.children.insert(stored.tokens_hash.0, child),
                        ..above
                    },
                ),
                table: self.table,
            }
        }
    }

    /// The state once `worker` holds `block` under `hash`.
    pub open spec fn hold(
        self,
        worker: WorkerWithDpRank,
        block: int,
        hash: ExternalSequenceBlockHash,
    ) -> WorkerState {
        let held = self.blocks[block];
        WorkerState {
            blocks: self.blocks.update(
                block,
                BlockState { workers: held.workers.insert(worker, hash), ..held },
            ),
            table: self.table.insert(hash.0, block as usize),
        }
    }

    /// Stores a run of blocks below `parent`, each below the one before. A block that is already
    /// part of the run, or the parent of it, ends the run: its link stays, nothing after it is
    /// stored, and the flag is false.
    pub open spec fn store(
        self,
        worker: WorkerWithDpRank,
        parent: int,
        run: Seq<KvCacheStoredBlockData>,
        above: Set<int>,
    ) -> (WorkerState, bool)
        decreases run.len(),
    {
        if run.len() == 0 {
            (self, true)
        } else {
            let child = self.child_for(parent, run[0]) as int;
            let linked = self.link(parent, run[0]);
            let chain = above.insert(parent);
            if chain.contains(child) {
                (linked, false)
            } else {
                linked.hold(worker, child, run[0].block_hash).store(
                    worker,
                    child,
                    run.skip(1),
                    chain,
                )
            }
        }
    }

    /// Drops one block that the worker knows by `hash`.
    pub open spec fn drop_block(self, worker: WorkerWithDpRank, hash: u64) -> WorkerState {
        let block = self.table[hash] as int;
        WorkerState {
            blocks: self.blocks.update(block, self.blocks[block].without(set![worker])),
            table: self.table.remove(hash),
        }
    }

    /// Drops blocks in turn, up to the first one that the worker does not know.
    pub open spec fn drop_blocks(
        self,
        worker: WorkerWithDpRank,
        hashes: Seq<ExternalSequenceBlockHash>,
    ) -> (WorkerState, bool)
        decreases hashes.len(),
    {
        if hashes.len() == 0 {
            (self, true)
        } else if !self.table.contains_key(hashes[0].0) {
            (self, false)
        } else {
            self.drop_block(worker, hashes[0].0).drop_blocks(worker, hashes.skip(1))
        }
    }

    /// Every block number in use is the number of a block other than the root.
    pub open spec fn valid(self) -> bool {
        &&& valid_blocks(self.blocks)
        &&& valid_table(self.table, self.blocks.len())
    }
}

/// The links of the blocks lead to blocks other than the root, and nobody holds the root.
pub open spec fn valid_blocks(blocks: Seq<BlockState>) -> bool {
    &&& 0 < blocks.len() <= usize::MAX
    &&& blocks[0].workers == Map::<WorkerWithDpRank, ExternalSequenceBlockHash>::empty()
    &&& forall|block: int, tokens: u64|
        #![trigger blocks[block].children.contains_key(tokens)]
        0 <= block < blocks.len() && blocks[block].children.contains_key(tokens) ==> 0
            < blocks[block].children[tokens] < blocks.len()
    &&& forall|block: int|
        0 <= block < blocks.len() ==> {
            &&& (#[trigger] blocks[block]).children.dom().finite()
            &&& blocks[block].workers.dom().finite()
        }
}

/// The entries of a table name blocks other than the root.
pub open spec fn valid_table(table: Map<u64, usize>, blocks: nat) -> bool {
    &&& table.dom().finite()
    &&& forall|hash: u64| #[trigger] table.contains_key(hash) ==> 0 < table[hash] < blocks
}

/// The blocks of a tree and the table of every worker that it tracks.
#[verifier::ext_equal]
pub struct TreeState {
    pub blocks: Seq<BlockState>,
    pub lookup: Map<WorkerWithDpRank, Map<u64, usize>>,
}

impl TreeState {
    /// A tree without blocks or workers.
    pub open spec fn new() -> TreeState {
        TreeState { blocks: seq![BlockState::new()], lookup: Map::empty() }
    }

    pub open spec fn valid(self) -> bool {
        &&& valid_blocks(self.blocks)
        &&& self.lookup.dom().finite()
        &&& forall|worker: WorkerWithDpRank| #[trigger]
            self.lookup.contains_key(worker) ==> valid_table(
                self.lookup[worker],
                self.blocks.len(),
            )
    }

    /// Every worker that holds a block is tracked.
    pub open spec fn holders_tracked(self) -> bool {
        forall|block: int, worker: WorkerWithDpRank|
            #![trigger self.blocks[block].workers.contains_key(worker)]
            0 <= block < self.blocks.len() && self.blocks[block].workers.contains_key(worker)
                ==> self.lookup.contains_key(worker)
    }

    /// Every worker that holds one of the blocks is tracked.
    pub open spec fn holders_among_tracked(self, blocks: Seq<int>) -> bool {
        forall|worker: WorkerWithDpRank| #[trigger]
            self.held_among(blocks, worker) > 0 ==> self.lookup.contains_key(worker)
    }

    /// Every block that `worker` holds is in the worker's table.
    pub open spec fn indexed(self, worker: WorkerWithDpRank) -> bool {
        forall|block: int|
            0 <= block < self.blocks.len() && (#[trigger] self.blocks[block]).workers.contains_key(
                worker,
            ) ==> self.knows(worker, block)
    }

    /// Some external hash leads `worker` to `block`.
    pub open spec fn knows(self, worker: WorkerWithDpRank, block: int) -> bool {
        self.lookup.contains_key(worker) && exists|hash: u64| #[trigger]
            self.lookup[worker].contains_key(hash) && self.lookup[worker][hash] == block
    }

    /// All table entries: each worker with each external hash that it knows.
    pub open spec fn entries(self) -> Set<(WorkerWithDpRank, u64)> {
        Set::new(
            |entry: (WorkerWithDpRank, u64)|
                self.lookup.contains_key(entry.0) && self.lookup[entry.0].contains_key(entry.1),
        )
    }

    /// The table entries of the listed workers.
    pub open spec fn entries_of(self, listed: Seq<WorkerWithDpRank>) -> Set<
        (WorkerWithDpRank, u64),
    > {
        Set::new(
            |entry: (WorkerWithDpRank, u64)|
                listed.contains(entry.0) && self.lookup.contains_key(entry.0)
                    && self.lookup[entry.0].contains_key(entry.1),
        )
    }

    /// The tree with an empty table for `worker`, if it had none.
    pub open spec fn track(self, worker: WorkerWithDpRank) -> TreeState {
        TreeState {
            lookup: if self.lookup.contains_key(worker) {
                self.lookup
            } else {
                self.lookup.insert(worker, Map::empty())
            },
            ..self
        }
    }

    pub open spec fn of_worker(self, worker: WorkerWithDpRank) -> WorkerState {
        WorkerState { blocks: self.blocks, table: self.lookup[worker] }
    }

    pub open spec fn with_worker(self, worker: WorkerWithDpRank, state: WorkerState) -> TreeState {
        TreeState { blocks: state.blocks, lookup: self.lookup.insert(worker, state.table) }
    }

    /// The ranks of a worker whose tables lead to `block`.
    pub open spec fn ranks_at(self, worker_id: WorkerId, block: int) -> Set<WorkerWithDpRank> {
        Set::new(
            |worker: WorkerWithDpRank|
                worker.worker_id == worker_id && self.knows(worker, block),
        )
    }

    /// The tree once no rank of a worker holds any block of its table. The ranks stay tracked,
    /// with empty tables, or are forgotten.
    pub open spec fn forget(self, worker_id: WorkerId, keep_worker: bool) -> TreeState {
        TreeState {
            blocks: Seq::new(
                self.blocks.len(),
                |block: int|
                    {
                        let ranks = self.ranks_at(worker_id, block);
                        if ranks == Set::<WorkerWithDpRank>::empty() {
                            self.blocks[block]
                        } else {
                            self.blocks[block].without(ranks)
                        }
                    },
            ),
            lookup: Map::new(
                |worker: WorkerWithDpRank|
                    self.lookup.contains_key(worker) && (keep_worker || worker.worker_id
                        != worker_id),
                |worker: WorkerWithDpRank|
                    if worker.worker_id == worker_id {
                        Map::empty()
                    } else {
                        self.lookup[worker]
                    },
            ),
        }
    }

    /// The block below which a run is stored: the root, or the one that the worker knows by the
    /// parent's hash.
    pub open spec fn store_parent(
        self,
        worker: WorkerWithDpRank,
        parent_hash: Option<ExternalSequenceBlockHash>,
    ) -> Option<int> {
        match parent_hash {
            None => Some(0),
            Some(hash) => if self.lookup[worker].contains_key(hash.0) {
                Some(self.lookup[worker][hash.0] as int)
            } else {
                None
            },
        }
    }

    /// What a store event of a known worker does to the tree, and how it ends.
    pub open spec fn store(
        self,
        worker: WorkerWithDpRank,
        parent_hash: Option<ExternalSequenceBlockHash>,
        run: Seq<KvCacheStoredBlockData>,
    ) -> (TreeState, Result<(), KvCacheEventError>) {
        match self.store_parent(worker, parent_hash) {
            None => (self, Err(KvCacheEventError::ParentBlockNotFound)),
            Some(parent) => {
                let (state, stored) = self.of_worker(worker).store(
                    worker,
                    parent,
                    run,
                    Set::empty(),
                );
                (
                    self.with_worker(worker, state),
                    if stored {
                        Ok(())
                    } else {
                        Err(KvCacheEventError::InvalidBlockSequence)
                    },
                )
            },
        }
    }

    /// What a cache event of `worker` does to the tree, and how it ends.
    pub open spec fn apply(self, worker: WorkerWithDpRank, data: KvCacheEventData) -> (
        TreeState,
        Result<(), KvCacheEventError>,
    ) {
        let known = self.track(worker);
        match data {
            KvCacheEventData::Stored(store) => known.store(
                worker,
                store.parent_hash,
                store.blocks@,
            ),
            KvCacheEventData::Removed(remove) => {
                let (state, removed) = known.of_worker(worker).drop_blocks(
                    worker,
                    remove.block_hashes@,
                );
                (
                    known.with_worker(worker, state),
                    if removed {
                        Ok(())
                    } else {
                        Err(KvCacheEventError::BlockNotFound)
                    },
                )
            },
            KvCacheEventData::Cleared => (known.forget(worker.worker_id, true), Ok(())),
        }
    }

    /// The blocks that match the start of a sequence, walking down from `at`. With `early_exit`
    /// the walk ends at the first block that a single worker holds.
    pub open spec fn matched(
        self,
        at: int,
        sequence: Seq<LocalBlockHash>,
        early_exit: bool,
    ) -> Seq<int>
        decreases sequence.len(),
    {
        if sequence.len() == 0 || !self.blocks[at].children.contains_key(sequence[0].0) {
            Seq::empty()
        } else {
            let next = self.blocks[at].children[sequence[0].0] as int;
            if early_exit && self.blocks[next].workers.len() == 1 {
                seq![next]
            } else {
                seq![next] + self.matched(next, sequence.skip(1), early_exit)
            }
        }
    }

    /// No worker holds more of the blocks than a score can count.
    pub open spec fn countable(self, blocks: Seq<int>) -> bool {
        forall|worker: WorkerWithDpRank| #[trigger] self.held_among(blocks, worker) <= u32::MAX
    }

    /// How many of the blocks `worker` holds.
    pub open spec fn held_among(self, blocks: Seq<int>, worker: WorkerWithDpRank) -> nat
        decreases blocks.len(),
    {
        if blocks.len() == 0 {
            0
        } else {
            self.held_among(blocks.drop_last(), worker)
                + if self.blocks[blocks.last()].workers.contains_key(worker) {
                1nat
            } else {
                0nat
            }
        }
    }
}

/// The uses of a block that are not older than `window`, given in order of time.
pub open spec fn recent(uses: Seq<u64>, now: u64, window: u64) -> Seq<u64>
    decreases uses.len(),
{
    if uses.len() > 0 && now - uses[0] > window {
        recent(uses.skip(1), now, window)
    } else {
        uses
    }
}

/// Uses the blocks one after the other at time `now`: what becomes of them, and how many recent
/// uses each had before, leaving out those without any.
pub open spec fn use_blocks(
    blocks: Seq<BlockState>,
    path: Seq<int>,
    now: u64,
    window: u64,
) -> (Seq<BlockState>, Seq<usize>)
    decreases path.len(),
{
    if path.len() == 0 {
        (blocks, Seq::empty())
    } else {
        let (before, counts) = use_blocks(blocks, path.drop_last(), now, window);
        let block = before[path.last()];
        let live = recent(block.uses, now, window);
        (
            before.update(path.last(), BlockState { uses: live.push(now), ..block }),
            if live.len() == 0 {
                counts
            } else {
                counts.push(live.len() as usize)
            },
        )
    }
}

impl TreeState {
    /// The tree after its matching blocks were used at `now`; uses count where a window is given.
    pub open spec fn after_match(
        self,
        sequence: Seq<LocalBlockHash>,
        early_exit: bool,
        now: u64,
        window: Option<u64>,
    ) -> TreeState {
        match window {
            None => self,
            Some(window) => TreeState {
                blocks: use_blocks(
                    self.blocks,
                    self.matched(0, sequence, early_exit),
                    now,
                    window,
                ).0,
                ..self
            },
        }
    }

    /// How often the matching blocks had been used before `now`.
    pub open spec fn match_frequencies(
        self,
        sequence: Seq<LocalBlockHash>,
        early_exit: bool,
        now: u64,
        window: Option<u64>,
    ) -> Seq<usize> {
        match window {
            None => Seq::empty(),
            Some(window) => use_blocks(
                self.blocks,
                self.matched(0, sequence, early_exit),
                now,
                window,
            ).1,
        }
    }

    /// The scores count, for each worker that holds some of the blocks, how many it holds; the
    /// sizes are those of the workers' tables.
    pub open spec fn scores_of(
        self,
        blocks: Seq<int>,
        scores: Map<WorkerWithDpRank, u32>,
        sizes: Map<WorkerWithDpRank, usize>,
    ) -> bool {
        &&& forall|worker: WorkerWithDpRank| #[trigger]
            scores.contains_key(worker) <==> self.held_among(blocks, worker) > 0
        &&& forall|worker: WorkerWithDpRank| #[trigger]
            scores.contains_key(worker) ==> scores[worker] == self.held_among(blocks, worker)
        &&& sizes.dom() == scores.dom()
        &&& forall|worker: WorkerWithDpRank| #[trigger]
            sizes.contains_key(worker) ==> sizes[worker] == self.lookup[worker].len()
    }
}

/// Using blocks changes nothing but the times of their uses.
pub proof fn lemma_use_blocks(blocks: Seq<BlockState>, path: Seq<int>, now: u64, window: u64)
    requires
        forall|i: int| 0 <= i < path.len() ==> 0 <= #[trigger] path[i] < blocks.len(),
    ensures
        use_blocks(blocks, path, now, window).0.len() == blocks.len(),
        forall|block: int|
            0 <= block < blocks.len() ==> {
                let used = #[trigger] use_blocks(blocks, path, now, window).0[block];
                used.children == blocks[block].children && used.workers == blocks[block].workers
            },
    decreases path.len(),
{
    if path.len() > 0 {
        lemma_use_blocks(blocks, path.drop_last(), now, window);
        let before = use_blocks(blocks, path.drop_last(), now, window).0;
        assert(0 <= path[path.len() - 1] < blocks.len());
        assert forall|block: int| 0 <= block < blocks.len() implies {
            let used = #[trigger] use_blocks(blocks, path, now, window).0[block];
            used.children == blocks[block].children && used.workers == blocks[block].workers
        } by {
            assert(before[block].children == blocks[block].children);
        }
    }
}

/// Matched blocks are blocks of the tree other than the root, and no more than the sequence has.
pub proof fn lemma_matched_blocks(
    tree: TreeState,
    at: int,
    sequence: Seq<LocalBlockHash>,
    early_exit: bool,
)
    requires
        valid_blocks(tree.blocks),
        0 <= at < tree.blocks.len(),
    ensures
        tree.matched(at, sequence, early_exit).len() <= sequence.len(),
        forall|i: int|
            0 <= i < tree.matched(at, sequence, early_exit).len() ==> 0 < #[trigger] tree.matched(
                at,
                sequence,
                early_exit,
            )[i] < tree.blocks.len(),
    decreases sequence.len(),
{
    if sequence.len() > 0 && tree.blocks[at].children.contains_key(sequence[0].0) {
        let next = tree.blocks[at].children[sequence[0].0] as int;
        lemma_matched_blocks(tree, next, sequence.skip(1), early_exit);
    }
}

/// A worker holds no more of some blocks than there are.
pub proof fn lemma_held_among(tree: TreeState, blocks: Seq<int>, worker: WorkerWithDpRank)
    ensures
        tree.held_among(blocks, worker) <= blocks.len(),
    decreases blocks.len(),
{
    if blocks.len() > 0 {
        lemma_held_among(tree, blocks.drop_last(), worker);
    }
}

/// A worker holds no more of the first blocks than of all.
pub proof fn lemma_held_among_first(
    tree: TreeState,
    blocks: Seq<int>,
    count: int,
    worker: WorkerWithDpRank,
)
    requires
        0 <= count <= blocks.len(),
    ensures
        tree.held_among(blocks.take(count), worker) <= tree.held_among(blocks, worker),
    decreases blocks.len(),
{
    if count < blocks.len() {
        lemma_held_among_first(tree, blocks.drop_last(), count, worker);
        assert(blocks.drop_last().take(count) =~= blocks.take(count));
    } else {
        assert(blocks.take(count) =~= blocks);
    }
}

/// Nobody but `worker` holds a block that they did not hold before.
pub open spec fn no_new_holders(
    before: Seq<BlockState>,
    after: Seq<BlockState>,
    worker: WorkerWithDpRank,
) -> bool {
    forall|block: int, holder: WorkerWithDpRank|
        #![trigger after[block].workers.contains_key(holder)]
        0 <= block < after.len() && holder != worker && after[block].workers.contains_key(holder)
            ==> block < before.len() && before[block].workers.contains_key(holder)
}

/// Where only a tracked worker gained blocks and nobody was forgotten, holders stay tracked.
pub proof fn lemma_still_tracked(before: TreeState, after: TreeState, worker: WorkerWithDpRank)
    requires
        before.holders_tracked(),
        no_new_holders(before.blocks, after.blocks, worker),
        after.lookup.contains_key(worker),
        forall|other: WorkerWithDpRank| #[trigger]
            before.lookup.contains_key(other) ==> after.lookup.contains_key(other),
    ensures
        after.holders_tracked(),
{
    assert forall|block: int, holder: WorkerWithDpRank|
        0 <= block < after.blocks.len() && #[trigger] after.blocks[block].workers.contains_key(
            holder,
        ) implies after.lookup.contains_key(holder) by {
        if holder != worker {
            assert(before.blocks[block].workers.contains_key(holder));
            assert(before.lookup.contains_key(holder));
        }
    }
}

/// Linking a stored block keeps the state valid, and the block is not the root.
pub proof fn lemma_link_valid(state: WorkerState, parent: int, stored: KvCacheStoredBlockData)
    requires
        state.valid(),
        0 <= parent < state.blocks.len(),
        state.link(parent, stored).blocks.len() <= usize::MAX,
    ensures
        state.link(parent, stored).valid(),
        0 < state.child_for(parent, stored) < state.link(parent, stored).blocks.len(),
        state.blocks.len() <= state.link(parent, stored).blocks.len(),
        state.link(parent, stored).table == state.table,
        forall|block: int|
            0 <= block < state.blocks.len() ==> (#[trigger] state.link(
                parent,
                stored,
            ).blocks[block]).workers == state.blocks[block].workers,
{
    let linked = state.link(parent, stored);
    assert forall|block: int, tokens: u64|
        0 <= block < linked.blocks.len()
            && #[trigger] linked.blocks[block].children.contains_key(tokens) implies 0
        < linked.blocks[block].children[tokens] < linked.blocks.len() by {
        if block < state.blocks.len() {
            assert(state.blocks[block].children.contains_key(tokens) ==> 0
                < state.blocks[block].children[tokens] < state.blocks.len());
        }
    }
    assert forall|block: int| 0 <= block < linked.blocks.len() implies {
        &&& (#[trigger] linked.blocks[block]).children.dom().finite()
        &&& linked.blocks[block].workers.dom().finite()
    } by {
        if block < state.blocks.len() {
            assert(state.blocks[block].children.dom().finite());
        }
    }
}

/// Letting a worker hold a block other than the root keeps the state valid.
pub proof fn lemma_hold_valid(
    state: WorkerState,
    worker: WorkerWithDpRank,
    block: int,
    hash: ExternalSequenceBlockHash,
)
    requires
        state.valid(),
        0 < block < state.blocks.len(),
    ensures
        state.hold(worker, block, hash).valid(),
{
    let held = state.hold(worker, block, hash);
    assert forall|at: int, tokens: u64|
        0 <= at < held.blocks.len()
            && #[trigger] held.blocks[at].children.contains_key(tokens) implies 0
        < held.blocks[at].children[tokens] < held.blocks.len() by {
        assert(state.blocks[at].children.contains_key(tokens));
    }
    assert forall|at: int| 0 <= at < held.blocks.len() implies {
        &&& (#[trigger] held.blocks[at]).children.dom().finite()
        &&& held.blocks[at].workers.dom().finite()
    } by {
        assert(state.blocks[at].children.dom().finite());
    }
}

/// Taking holders off a block keeps the blocks valid.
pub proof fn lemma_without_valid(
    blocks: Seq<BlockState>,
    block: int,
    gone: Set<WorkerWithDpRank>,
)
    requires
        valid_blocks(blocks),
        0 < block < blocks.len(),
    ensures
        valid_blocks(blocks.update(block, blocks[block].without(gone))),
{
    let after = blocks.update(block, blocks[block].without(gone));
    assert forall|at: int, tokens: u64|
        0 <= at < after.len()
            && #[trigger] after[at].children.contains_key(tokens) implies 0
        < after[at].children[tokens] < after.len() by {
        assert(blocks[at].children.contains_key(tokens));
    }
    assert forall|at: int| 0 <= at < after.len() implies {
        &&& (#[trigger] after[at]).children.dom().finite()
        &&& after[at].workers.dom().finite()
    } by {
        assert(blocks[at].children.dom().finite());
        assert(blocks[at].workers.dom().finite());
        assert(after[at].workers.dom().subset_of(blocks[at].workers.dom()));
        vstd::set_lib::lemma_len_subset(after[at].workers.dom(), blocks[at].workers.dom());
    }
}

/// Taking holders off a block in two steps is taking them off at once.
pub proof fn lemma_without_twice(
    block: BlockState,
    first: Set<WorkerWithDpRank>,
    second: Set<WorkerWithDpRank>,
)
    ensures
        block.without(first).without(second) == block.without(first.union(second)),
{
    let at_once = block.workers.remove_keys(first.union(second));
    assert(block.workers.remove_keys(first).remove_keys(second) =~= at_once);
    if block.workers.remove_keys(first) == Map::<
        WorkerWithDpRank,
        ExternalSequenceBlockHash,
    >::empty() {
        assert(at_once =~= Map::empty());
    }
}

/// Forgetting a worker keeps the tree valid.
pub proof fn lemma_forget_valid(tree: TreeState, worker_id: WorkerId, keep_worker: bool)
    requires
        tree.valid(),
    ensures
        tree.forget(worker_id, keep_worker).valid(),
{
    let after = tree.forget(worker_id, keep_worker);
    assert forall|at: int| 0 <= at < after.blocks.len() implies {
        &&& (#[trigger] after.blocks[at]).children.dom().finite()
        &&& after.blocks[at].workers.dom().finite()
        &&& after.blocks[at].workers.dom().subset_of(tree.blocks[at].workers.dom())
        &&& after.blocks[at].children == tree.blocks[at].children || after.blocks[at].children
            == Map::<u64, usize>::empty()
    } by {
        assert(tree.blocks[at].children.dom().finite());
        assert(tree.blocks[at].workers.dom().finite());
        assert(after.blocks[at].workers.dom().subset_of(tree.blocks[at].workers.dom()));
        vstd::set_lib::lemma_len_subset(
            after.blocks[at].workers.dom(),
            tree.blocks[at].workers.dom(),
        );
    }
    assert forall|at: int, tokens: u64|
        0 <= at < after.blocks.len()
            && #[trigger] after.blocks[at].children.contains_key(tokens) implies 0
        < after.blocks[at].children[tokens] < after.blocks.len() by {
        assert(tree.blocks[at].children.contains_key(tokens));
    }
    assert(after.blocks[0].workers =~= Map::empty());
    assert(after.lookup.dom().subset_of(tree.lookup.dom()));
    vstd::set_lib::lemma_len_subset(after.lookup.dom(), tree.lookup.dom());
}

/// Storing a run keeps the state valid and takes no block away.
pub proof fn lemma_store_valid(
    state: WorkerState,
    worker: WorkerWithDpRank,
    parent: int,
    run: Seq<KvCacheStoredBlockData>,
    above: Set<int>,
)
    requires
        state.valid(),
        0 <= parent < state.blocks.len(),
        state.blocks.len() + run.len() <= usize::MAX,
    ensures
        state.store(worker, parent, run, above).0.valid(),
        state.blocks.len() <= state.store(worker, parent, run, above).0.blocks.len(),
    decreases run.len(),
{
    if run.len() > 0 {
        let child = state.child_for(parent, run[0]) as int;
        let chain = above.insert(parent);
        let linked = state.link(parent, run[0]);
        lemma_link_valid(state, parent, run[0]);
        if !chain.contains(child) {
            lemma_hold_valid(linked, worker, child, run[0].block_hash);
            lemma_store_valid(
                linked.hold(worker, child, run[0].block_hash),
                worker,
                child,
                run.skip(1),
                chain,
            );
        }
    }
}

/// Dropping blocks keeps the state valid and leaves their number unchanged.
pub proof fn lemma_drop_valid(
    state: WorkerState,
    worker: WorkerWithDpRank,
    hashes: Seq<ExternalSequenceBlockHash>,
)
    requires
        state.valid(),
    ensures
        state.drop_blocks(worker, hashes).0.valid(),
        state.drop_blocks(worker, hashes).0.blocks.len() == state.blocks.len(),
    decreases hashes.len(),
{
    if hashes.len() > 0 && state.table.contains_key(hashes[0].0) {
        let hash = hashes[0].0;
        lemma_without_valid(state.blocks, state.table[hash] as int, set![worker]);
        lemma_drop_valid(state.drop_block(worker, hash), worker, hashes.skip(1));
    }
}

/// A valid state of one worker fits into a valid tree with no more blocks.
pub proof fn lemma_with_worker_valid(tree: TreeState, worker: WorkerWithDpRank, state: WorkerState)
    requires
        tree.valid(),
        state.valid(),
        state.blocks.len() >= tree.blocks.len(),
    ensures
        tree.with_worker(worker, state).valid(),
{
    let after = tree.with_worker(worker, state);
    assert forall|other: WorkerWithDpRank| #[trigger]
        after.lookup.contains_key(other) implies valid_table(
        after.lookup[other],
        after.blocks.len(),
    ) by {
        if other != worker {
            assert(tree.lookup.contains_key(other));
        }
    }
}

} // verus!
