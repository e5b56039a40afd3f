//! The index of cached blocks: requests, replies and the labels of its counters.
use crate::kv_router::approx::{
    cut_behind, leaves_before, lists_leaving, pruned_count, requeued, timers_with, wanted_count,
    BlockEntry, PruneConfig, PruneManager,
};
use crate::kv_router::hashing::{
    block_hashes, compute_block_hash_for_seq, compute_seq_hash_for_block, sequence_hashes,
};
use crate::kv_router::overlap::OverlapScores;
use crate::kv_router::protocols::{
    ExternalSequenceBlockHash, KvCacheEvent, KvCacheEventData, KvCacheRemoveData, KvCacheStoreData,
    KvCacheStoredBlockData, LocalBlockHash, SequenceHash, WorkerId, WorkerWithDpRank,
};
use crate::kv_router::radix_dump::stores;
use crate::kv_router::radix_state::{KvCacheEventError, TreeState};
use crate::kv_router::radix_tree::{RadixTree, RouterEvent};
use crate::text::join;
use vstd::prelude::*;

verus! {

/// Why the router could not answer.
#[derive(Clone, Debug, PartialEq, Eq)]
pub enum KvRouterError {
    BlockNotFound,
    IndexerOffline,
    IndexerDroppedRequest,
    PruneFailed(String),
}

impl KvRouterError {
    /// The text shown for the error.
    pub fn message(&self) -> (text: String)
        ensures
            text@ == (match *self {
                KvRouterError::BlockNotFound => "Block not found"@,
                KvRouterError::IndexerOffline => "Indexer is offline"@,
                KvRouterError::IndexerDroppedRequest => "Indexer is dropped request"@,
                KvRouterError::PruneFailed(reason) => "Prune operation failed: "@ + reason@,
            }),
    {
        match self {
            KvRouterError::BlockNotFound => String::from_str("Block not found"),
            KvRouterError::IndexerOffline => String::from_str("Indexer is offline"),
            KvRouterError::IndexerDroppedRequest => String::from_str("Indexer is dropped request"),
            KvRouterError::PruneFailed(reason) => join(
                "Prune operation failed: ",
                reason.as_str(),
            ),
        }
    }
}

/// Status labels of the counter of applied events.
pub const METRIC_STATUS_OK: &'static str = "ok";

pub const METRIC_STATUS_PARENT_NOT_FOUND: &'static str = "parent_block_not_found";

pub const METRIC_STATUS_BLOCK_NOT_FOUND: &'static str = "block_not_found";

pub const METRIC_STATUS_INVALID_BLOCK: &'static str = "invalid_block";

/// Event labels of the counter of applied events.
pub const METRIC_EVENT_STORED: &'static str = "stored";

pub const METRIC_EVENT_REMOVED: &'static str = "removed";

pub const METRIC_EVENT_CLEARED: &'static str = "cleared";

/// The label of an event.
pub fn get_event_type(event_data: &KvCacheEventData) -> (label: &'static str)
    ensures
        label@ == (match *event_data {
            KvCacheEventData::Stored(_) => METRIC_EVENT_STORED@,
            KvCacheEventData::Removed(_) => METRIC_EVENT_REMOVED@,
            KvCacheEventData::Cleared => METRIC_EVENT_CLEARED@,
        }),
{
    match event_data {
        KvCacheEventData::Stored(_) => METRIC_EVENT_STORED,
        KvCacheEventData::Removed(_) => METRIC_EVENT_REMOVED,
        KvCacheEventData::Cleared => METRIC_EVENT_CLEARED,
    }
}

/// The status label under which the outcome of an event is counted.
pub fn event_status(result: &Result<(), KvCacheEventError>) -> (label: &'static str)
    ensures
        label@ == (match *result {
            Ok(()) => METRIC_STATUS_OK@,
            Err(KvCacheEventError::ParentBlockNotFound) => METRIC_STATUS_PARENT_NOT_FOUND@,
            Err(KvCacheEventError::BlockNotFound) => METRIC_STATUS_BLOCK_NOT_FOUND@,
            Err(KvCacheEventError::InvalidBlockSequence) => METRIC_STATUS_INVALID_BLOCK@,
        }),
{
    match result {
        Ok(()) => METRIC_STATUS_OK,
        Err(KvCacheEventError::ParentBlockNotFound) => METRIC_STATUS_PARENT_NOT_FOUND,
        Err(KvCacheEventError::BlockNotFound) => METRIC_STATUS_BLOCK_NOT_FOUND,
        Err(KvCacheEventError::InvalidBlockSequence) => METRIC_STATUS_INVALID_BLOCK,
    }
}

/// The labels under which an applied event is counted.
#[derive(Clone, Copy, Debug)]
pub struct EventLabels {
    pub event_type: &'static str,
    pub status: &'static str,
}

/// The tree of cached blocks, with timers where blocks are only believed to be cached.
pub struct IndexState {
    tree: RadixTree,
    timers: Option<PruneManager<BlockEntry>>,
}

/// How many queue entries are allowed per timer.
pub const QUEUE_FACTOR: usize = 50;

/// A run of blocks, each with its own hash and its rolling hash.
pub open spec fn routed_run(
    local_hashes: Seq<LocalBlockHash>,
    sequence_hashes: Seq<SequenceHash>,
) -> Seq<KvCacheStoredBlockData> {
    Seq::new(
        local_hashes.len(),
        |i: int|
            KvCacheStoredBlockData {
                block_hash: ExternalSequenceBlockHash(sequence_hashes[i]),
                tokens_hash: local_hashes[i],
            },
    )
}

/// The timer keys of a run.
pub open spec fn routed_entries(
    worker: WorkerWithDpRank,
    sequence_hashes: Seq<SequenceHash>,
) -> Seq<BlockEntry> {
    Seq::new(
        sequence_hashes.len(),
        |i: int|
            BlockEntry {
                seq_position: i as usize,
                key: ExternalSequenceBlockHash(sequence_hashes[i]),
                worker,
            },
    )
}

/// The tree once the entries are dropped in turn; entries that it does not know are skipped.
pub open spec fn drop_entries(tree: TreeState, entries: Seq<BlockEntry>) -> TreeState
    decreases entries.len(),
{
    if entries.len() == 0 {
        tree
    } else {
        let before = drop_entries(tree, entries.drop_last());
        let entry = entries.last();
        let known = before.track(entry.worker);
        known.with_worker(
            entry.worker,
            known.of_worker(entry.worker).drop_blocks(entry.worker, seq![entry.key]).0,
        )
    }
}

/// Whether `pruned` are the keys given up first among the timers, as many as the size asks for.
pub open spec fn is_pruned(
    pruned: Seq<BlockEntry>,
    timers: Map<BlockEntry, u64>,
    config: PruneConfig,
    size: int,
) -> bool {
    &&& lists_leaving(pruned, timers)
    &&& pruned.len() == pruned_count(config, size, timers.len() as int)
    &&& forall|key: BlockEntry| #[trigger] pruned.contains(key) ==> timers.contains_key(key)
    &&& forall|key: BlockEntry, other: BlockEntry|
        #![trigger pruned.contains(key), timers.contains_key(other)]
        pruned.contains(key) && timers.contains_key(other) && !pruned.contains(other)
            ==> leaves_before((timers[key], key), (timers[other], other))
}

/// What becomes of the queue when entries are added to it and keys then given up.
pub open spec fn queued_and_cut(
    before: Seq<(u64, BlockEntry)>,
    after: Seq<(u64, BlockEntry)>,
    added: Seq<BlockEntry>,
    expiry: u64,
    timers: Map<BlockEntry, u64>,
    pruned: Seq<BlockEntry>,
    wanted: int,
) -> bool {
    exists|queued: Seq<(u64, BlockEntry)>|
        {
            &&& requeued(before, queued, added, expiry, timers, QUEUE_FACTOR)
            &&& #[trigger] cut_behind(queued, after, pruned, timers, wanted)
        }
}

/// The size by which pruning is decided.
pub open spec fn size_of(tree: TreeState) -> int {
    if tree.entries().len() <= usize::MAX {
        tree.entries().len() as int
    } else {
        usize::MAX as int
    }
}

impl IndexState {
    pub closed spec fn tree(&self) -> TreeState {
        self.tree@
    }

    /// How long a use of a block counts.
    pub closed spec fn expiration(&self) -> Option<u64> {
        self.tree.expiration()
    }

    /// The running timers, where there are any.
    pub closed spec fn timers(&self) -> Option<Map<BlockEntry, u64>> {
        match self.timers {
            Some(timers) => Some(timers.timers()),
            None => None,
        }
    }

    /// The queue of expiries, the next one first; there are none without timers.
    pub closed spec fn queue(&self) -> Seq<(u64, BlockEntry)> {
        match self.timers {
            Some(timers) => timers.queue(),
            None => Seq::empty(),
        }
    }

    /// When blocks are given up.
    pub closed spec fn config(&self) -> Option<PruneConfig> {
        match self.timers {
            Some(timers) => timers.config(),
            None => None,
        }
    }

    pub closed spec fn wf(&self) -> bool {
        &&& self.tree.wf()
        &&& self.timers matches Some(timers) ==> timers.wf() && timers.config() is Some
            && timers.ttl() == timers.config()->Some_0.ttl_nanos && timers.queue_factor()
            == QUEUE_FACTOR
    }

    /// An empty index; with a configuration, routed blocks are believed to be cached for a time.
    pub fn new(expiration_nanos: Option<u64>, prune_config: Option<PruneConfig>) -> (state: Self)
        ensures
            state.wf(),
            state.tree() == TreeState::new(),
            state.expiration() == expiration_nanos,
            state.config() == prune_config,
            state.timers() == (match prune_config {
                Some(_) => Some(Map::<BlockEntry, u64>::empty()),
                None => None,
            }),
            state.queue() == Seq::<(u64, BlockEntry)>::empty(),
    {
        IndexState {
            tree: RadixTree::new_with_frequency(expiration_nanos),
            timers: match prune_config {
                Some(config) => Some(PruneManager::new(QUEUE_FACTOR, config)),
                None => None,
            },
        }
    }

    /// Drops blocks that are no longer believed to be cached.
    fn drop_believed(&mut self, entries: Vec<BlockEntry>)
        requires
            old(self).wf(),
        ensures
            final(self).wf(),
            final(self).tree() == drop_entries(old(self).tree(), entries@),
            final(self).expiration() == old(self).expiration(),
            final(self).timers == old(self).timers,
            old(self).tree().holders_tracked() ==> final(self).tree().holders_tracked(),
    {
        let mut index: usize = 0;
        assert(entries@.take(0) =~= Seq::empty());
        while index < entries.len()
            invariant
                index <= entries@.len(),
                self.wf(),
                self.tree() == drop_entries(old(self).tree(), entries@.take(index as int)),
                self.expiration() == old(self).expiration(),
                self.timers == old(self).timers,
                old(self).tree().holders_tracked() ==> self.tree().holders_tracked(),
            decreases entries@.len() - index,
        {
            let entry = entries[index];
            let mut block_hashes: Vec<ExternalSequenceBlockHash> = Vec::new();
            block_hashes.push(entry.key);
            assert(block_hashes@ =~= seq![entry.key]);
            let event = RouterEvent::new(
                entry.worker.worker_id,
                KvCacheEvent {
                    event_id: 0,
                    data: KvCacheEventData::Removed(KvCacheRemoveData { block_hashes }),
                    dp_rank: entry.worker.dp_rank,
                },
            );
            assert(event.source() == entry.worker);
            let _ = self.tree.apply_event(event);
            proof {
                crate::seqs::lemma_take_next(entries@, index as int);
            }
            index += 1;
        }
        assert(entries@.take(index as int) =~= entries@);
    }

    /// Gives up the blocks whose time has come.
    pub fn expire(&mut self, now: u64)
        requires
            old(self).wf(),
        ensures
            final(self).wf(),
            final(self).config() == old(self).config(),
            final(self).expiration() == old(self).expiration(),
            match old(self).timers() {
                None => final(self).tree() == old(self).tree() && final(self).timers() is None,
                Some(timers) => exists|expired: Seq<BlockEntry>|
                    {
                        &&& lists_leaving(expired, timers)
                        &&& forall|key: BlockEntry| #[trigger]
                            expired.contains(key) <==> timers.contains_key(key) && timers[key]
                                <= now
                        &&& final(self).tree() == #[trigger] drop_entries(
                            old(self).tree(),
                            expired,
                        )
                        &&& final(self).timers() == Some(timers.remove_keys(expired.to_set()))
                    },
            },
            final(self).queue() == old(self).queue().filter(
                |entry: (u64, BlockEntry)| entry.0 > now,
            ),
            old(self).tree().holders_tracked() ==> final(self).tree().holders_tracked(),
    {
        let expired = match &mut self.timers {
            Some(timers) => timers.pop_expired(now),
            None => {
                return ;
            },
        };
        let ghost gone = expired@;
        self.drop_believed(expired);
        proof {
            let timers = old(self).timers()->Some_0;
            assert(lists_leaving(gone, timers));
            assert(self.tree() == drop_entries(old(self).tree(), gone));
            assert(self.timers() == Some(timers.remove_keys(gone.to_set())));
        }
    }

    /// Records that a request was routed to a worker: its blocks are stored and their timers
    /// started; a tree that has grown beyond the limit is pruned. Without a configuration, or
    /// where the blocks cannot be stored, no timer is started.
    pub fn process_routing_decision(
        &mut self,
        worker: WorkerWithDpRank,
        local_hashes: Vec<LocalBlockHash>,
        sequence_hashes: Vec<SequenceHash>,
        now: u64,
    )
        requires
            old(self).wf(),
            local_hashes@.len() == sequence_hashes@.len(),
            old(self).config() matches Some(config) ==> now + config.ttl_nanos <= u64::MAX,
        ensures
            final(self).wf(),
            final(self).config() == old(self).config(),
            final(self).expiration() == old(self).expiration(),
            match (old(self).timers(), old(self).config()) {
                (Some(timers), Some(config)) => {
                    let (stored, result) = old(self).tree().track(worker).store(
                        worker,
                        None,
                        routed_run(local_hashes@, sequence_hashes@),
                    );
                    let started = timers_with(
                        timers,
                        routed_entries(worker, sequence_hashes@),
                        (now + config.ttl_nanos) as u64,
                    );
                    if result is Err {
                        &&& final(self).tree() == stored
                        &&& final(self).timers() == Some(timers)
                        &&& final(self).queue() == old(self).queue()
                    } else {
                        exists|pruned: Seq<BlockEntry>|
                            {
                                &&& #[trigger] is_pruned(pruned, started, config, size_of(stored))
                                &&& final(self).tree() == drop_entries(stored, pruned)
                                &&& final(self).timers() == Some(
                                    started.remove_keys(pruned.to_set()),
                                )
                                &&& queued_and_cut(
                                    old(self).queue(),
                                    final(self).queue(),
                                    routed_entries(worker, sequence_hashes@),
                                    (now + config.ttl_nanos) as u64,
                                    started,
                                    pruned,
                                    wanted_count(config, size_of(stored)),
                                )
                            }
                    }
                },
                _ => final(self).tree() == old(self).tree() && final(self).timers() is None
                    && final(self).queue() == old(self).queue(),
            },
            old(self).tree().holders_tracked() ==> final(self).tree().holders_tracked(),
    {
        if self.timers.is_none() {
            return ;
        }
        let mut blocks: Vec<KvCacheStoredBlockData> = Vec::new();
        let mut entries: Vec<BlockEntry> = Vec::new();
        let mut index: usize = 0;
        while index < local_hashes.len()
            invariant
                index <= local_hashes@.len(),
                local_hashes@.len() == sequence_hashes@.len(),
                blocks@ =~= routed_run(local_hashes@, sequence_hashes@).take(index as int),
                entries@ =~= routed_entries(worker, sequence_hashes@).take(index as int),
            decreases local_hashes@.len() - index,
        {
            let block_hash = ExternalSequenceBlockHash(sequence_hashes[index]);
            blocks.push(KvCacheStoredBlockData { block_hash, tokens_hash: local_hashes[index] });
            entries.push(BlockEntry { seq_position: index, key: block_hash, worker });
            index += 1;
        }
        assert(blocks@ =~= routed_run(local_hashes@, sequence_hashes@));
        assert(entries@ =~= routed_entries(worker, sequence_hashes@));
        let event = RouterEvent::new(
            worker.worker_id,
            KvCacheEvent {
                event_id: 0,
                data: KvCacheEventData::Stored(KvCacheStoreData { parent_hash: None, blocks }),
                dp_rank: worker.dp_rank,
            },
        );
        assert(event.source() == worker);
        let result = self.tree.apply_event(event);
        if result.is_err() {
            return ;
        }
        let size: usize = self.tree.current_size();
        let ghost mut queued: Seq<(u64, BlockEntry)> = Seq::empty();
        let pruned = match &mut self.timers {
            Some(timers) => {
                timers.insert(entries, now);
                proof {
                    queued = timers.queue();
                }
                match timers.prune(size) {
                    Ok(pruned) => pruned,
                    Err(_) => Vec::new(),
                }
            },
            None => Vec::new(),
        };
        let ghost gone = pruned@;
        let ghost stored = self.tree();
        self.drop_believed(pruned);
        proof {
            let config = old(self).config()->Some_0;
            let started = timers_with(
                old(self).timers()->Some_0,
                routed_entries(worker, sequence_hashes@),
                (now + config.ttl_nanos) as u64,
            );
            let (expected, outcome) = old(self).tree().track(worker).store(
                worker,
                None,
                routed_run(local_hashes@, sequence_hashes@),
            );
            assert(stored == expected);
            assert(outcome == result);
            assert(is_pruned(gone, started, config, size_of(stored)));
            assert(cut_behind(
                queued,
                self.queue(),
                gone,
                started,
                wanted_count(config, size_of(stored)),
            ));
            assert(self.tree() == drop_entries(stored, gone));
            assert(self.timers() == Some(started.remove_keys(gone.to_set())));
        }
    }

    /// Records where a request with these tokens was routed.
    pub fn process_routing_decision_for_request(
        &mut self,
        tokens: &[u32],
        kv_block_size: u32,
        worker: WorkerWithDpRank,
        now: u64,
    )
        requires
            old(self).wf(),
            kv_block_size > 0,
            old(self).config() matches Some(config) ==> now + config.ttl_nanos <= u64::MAX,
        ensures
            final(self).wf(),
            final(self).config() == old(self).config(),
            final(self).expiration() == old(self).expiration(),
            ({
                let local = block_hashes(tokens@, kv_block_size as int);
                let rolling = sequence_hashes(local);
                match (old(self).timers(), old(self).config()) {
                    (Some(timers), Some(config)) => {
                        let (stored, result) = old(self).tree().track(worker).store(
                            worker,
                            None,
                            routed_run(local, rolling),
                        );
                        let started = timers_with(
                            timers,
                            routed_entries(worker, rolling),
                            (now + config.ttl_nanos) as u64,
                        );
                        if result is Err {
                            &&& final(self).tree() == stored
                            &&& final(self).timers() == Some(timers)
                            &&& final(self).queue() == old(self).queue()
                        } else {
                            exists|pruned: Seq<BlockEntry>|
                                {
                                    &&& #[trigger] is_pruned(
                                        pruned,
                                        started,
                                        config,
                                        size_of(stored),
                                    )
                                    &&& final(self).tree() == drop_entries(stored, pruned)
                                    &&& final(self).timers() == Some(
                                        started.remove_keys(pruned.to_set()),
                                    )
                                    &&& queued_and_cut(
                                        old(self).queue(),
                                        final(self).queue(),
                                        routed_entries(worker, rolling),
                                        (now + config.ttl_nanos) as u64,
                                        started,
                                        pruned,
                                        wanted_count(config, size_of(stored)),
                                    )
                                }
                        }
                    },
                    _ => final(self).tree() == old(self).tree() && final(self).timers() is None
                    && final(self).queue() == old(self).queue(),
                }
            }),
            old(self).tree().holders_tracked() ==> final(self).tree().holders_tracked(),
    {
        let local_hashes = compute_block_hash_for_seq(tokens, kv_block_size);
        let sequence_hashes = compute_seq_hash_for_block(local_hashes.as_slice());
        self.process_routing_decision(worker, local_hashes, sequence_hashes, now);
    }

    /// When a block may next be given up.
    pub fn next_expiry(&self) -> (expiry: Option<u64>)
        requires
            self.wf(),
        ensures
            expiry == (if self.queue().len() > 0 {
                Some(self.queue()[0].0)
            } else {
                None
            }),
            self.timers() matches Some(timers) ==> forall|key: BlockEntry| #[trigger]
                timers.contains_key(key) ==> expiry is Some && expiry->Some_0 <= timers[key],
    {
        match &self.timers {
            Some(timers) => {
                proof {
                    timers.lemma_queue();
                    assert forall|key: BlockEntry| #[trigger]
                        timers.timers().contains_key(key) implies timers.queue().len() > 0
                        && timers.queue()[0].0 <= timers.timers()[key] by {
                        let queue = timers.queue();
                        let entry = (timers.timers()[key], key);
                        let i = choose|i: int| 0 <= i < queue.len() && queue[i] == entry;
                        if i > 0 {
                            assert(!leaves_before(queue[i], queue[0]));
                        }
                    }
                }
                timers.peek_next_expiry()
            },
            None => None,
        }
    }

    /// Applies a cache event and tells how it is counted.
    pub fn apply_event(&mut self, event: RouterEvent) -> (labels: EventLabels)
        requires
            old(self).wf(),
        ensures
            final(self).wf(),
            final(self).config() == old(self).config(),
            final(self).timers() == old(self).timers(),
            final(self).queue() == old(self).queue(),
            final(self).expiration() == old(self).expiration(),
            ({
                let (tree, result) = old(self).tree().apply(event.source(), event.event.data);
                &&& final(self).tree() == tree
                &&& labels.event_type@ == (match event.event.data {
                    KvCacheEventData::Stored(_) => METRIC_EVENT_STORED@,
                    KvCacheEventData::Removed(_) => METRIC_EVENT_REMOVED@,
                    KvCacheEventData::Cleared => METRIC_EVENT_CLEARED@,
                })
                &&& labels.status@ == (match result {
                    Ok(()) => METRIC_STATUS_OK@,
                    Err(KvCacheEventError::ParentBlockNotFound) => METRIC_STATUS_PARENT_NOT_FOUND@,
                    Err(KvCacheEventError::BlockNotFound) => METRIC_STATUS_BLOCK_NOT_FOUND@,
                    Err(KvCacheEventError::InvalidBlockSequence) => METRIC_STATUS_INVALID_BLOCK@,
                })
            }),
            old(self).tree().holders_tracked() ==> final(self).tree().holders_tracked(),
    {
        let event_type = get_event_type(&event.event.data);
        let result = self.tree.apply_event(event);
        EventLabels { event_type, status: event_status(&result) }
    }

    /// Forgets a worker. Timers of its blocks run on.
    pub fn remove_worker(&mut self, worker_id: WorkerId)
        requires
            old(self).wf(),
        ensures
            final(self).wf(),
            final(self).config() == old(self).config(),
            final(self).timers() == old(self).timers(),
            final(self).queue() == old(self).queue(),
            final(self).expiration() == old(self).expiration(),
            final(self).tree() == old(self).tree().forget(worker_id, false),
    {
        self.tree.remove_worker(worker_id);
    }

    /// The ids of all known workers, in increasing order.
    pub fn get_workers(&self) -> (worker_ids: Vec<WorkerId>)
        ensures
            forall|i: int, j: int|
                0 <= i < j < worker_ids@.len() ==> worker_ids@[i] < worker_ids@[j],
            forall|worker_id: WorkerId| #[trigger]
                worker_ids@.contains(worker_id) <==> exists|worker: WorkerWithDpRank| #[trigger]
                    self.tree().lookup.contains_key(worker) && worker.worker_id == worker_id,
    {
        let worker_ids = self.tree.get_workers();
        assert(self.tree() == self.tree@);
        worker_ids
    }

    /// The tree as store events, unless some way down never ends.
    pub fn dump_events(&self) -> (dumped: Option<Vec<RouterEvent>>)
        requires
            self.wf(),
        ensures
            dumped is Some <==> self.tree().finite_depth(),
            dumped matches Some(events) ==> {
                &&& events@.len() == self.tree().dump().len()
                &&& forall|i: int|
                    0 <= i < events@.len() ==> stores(
                        #[trigger] events@[i],
                        i,
                        self.tree().dump()[i],
                    )
            },
    {
        self.tree.try_dump_tree_as_events()
    }

    /// Matches the start of a sequence; there is no answer where a worker without a table holds a
    /// matching block.
    pub fn find_matches(
        &mut self,
        sequence: Vec<LocalBlockHash>,
        early_exit: bool,
        now: u64,
    ) -> (answer: Option<OverlapScores>)
        requires
            old(self).wf(),
            sequence@.len() <= u32::MAX || old(self).tree().countable(
                old(self).tree().matched(0, sequence@, early_exit),
            ),
        ensures
            final(self).wf(),
            final(self).config() == old(self).config(),
            final(self).timers() == old(self).timers(),
            final(self).queue() == old(self).queue(),
            final(self).expiration() == old(self).expiration(),
            final(self).tree() == old(self).tree().after_match(
                sequence@,
                early_exit,
                now,
                old(self).expiration(),
            ),
            answer is Some <==> old(self).tree().holders_among_tracked(
                old(self).tree().matched(0, sequence@, early_exit),
            ),
            answer matches Some(found) ==> {
                &&& found.frequencies@ == old(self).tree().match_frequencies(
                    sequence@,
                    early_exit,
                    now,
                    old(self).expiration(),
                )
                &&& old(self).tree().scores_of(
                    old(self).tree().matched(0, sequence@, early_exit),
                    found.scores@,
                    found.tree_sizes@,
                )
            },
    {
        self.tree.try_find_matches_at(sequence.as_slice(), early_exit, now)
    }
}

} // verus!
