//! What timers and size limits do to blocks that are only believed to be cached.
use crate::kv_router::approx::{
    entries_at, in_leaving_order, leaves_before, lists_leaving, timers_with, BlockEntry, PruneManager,
    TimerKey,
};
use crate::kv_router::hashing::{compute_block_hash_for_seq, compute_seq_hash_for_block};
use crate::kv_router::indexer::{
    drop_entries, is_pruned, routed_entries, routed_run, size_of, EventLabels, IndexState, KvRouterError,
};
use crate::kv_router::protocols::{
    ExternalSequenceBlockHash, LocalBlockHash, SequenceHash, WorkerId, WorkerWithDpRank,
};
use crate::kv_router::radix_state::TreeState;
use crate::kv_router::radix_tree::RouterEvent;
use vstd::prelude::*;

verus! {

/// The timers of the keys inserted end one lifetime from now, whatever was left of them; those of
/// other keys stay as they are.
pub proof fn law_inserted_keys_live_one_lifetime<K: TimerKey>(
    manager: &mut PruneManager<K>,
    keys: Vec<K>,
    now: u64,
    key: K,
)
    requires
        now + old(manager).ttl() <= u64::MAX,
        call_ensures(PruneManager::<K>::insert, (manager, keys, now), ()),
    ensures
        keys@.contains(key) ==> final(manager).timers().contains_key(key)
            && final(manager).timers()[key] == now + old(manager).ttl(),
        !keys@.contains(key) ==> final(manager).timers().contains_key(key)
            == old(manager).timers().contains_key(key) && (old(manager).timers().contains_key(key)
            ==> final(manager).timers()[key] == old(manager).timers()[key]),
        forall|i: int, j: int|
            #![trigger final(manager).queue()[i], final(manager).queue()[j]]
            0 <= i < j < final(manager).queue().len() ==> final(manager).queue()[i].0
                <= final(manager).queue()[j].0,
{
    assert forall|i: int, j: int|
        #![trigger final(manager).queue()[i], final(manager).queue()[j]]
        0 <= i < j < final(manager).queue().len() implies final(manager).queue()[i].0
        <= final(manager).queue()[j].0 by {
        assert(in_leaving_order(final(manager).queue()));
        assert(!leaves_before(final(manager).queue()[j], final(manager).queue()[i]));
    }
}

/// The expiry told of a key is that of its timer, if it has one.
pub proof fn law_expiry_is_that_of_the_timer<K: TimerKey>(
    manager: &PruneManager<K>,
    key: &K,
    expiry: Option<u64>,
)
    requires
        call_ensures(PruneManager::<K>::get_expiry, (manager, key), expiry),
    ensures
        expiry is Some <==> manager.timers().contains_key(*key),
        expiry matches Some(expiry) ==> expiry == manager.timers()[*key],
{
}

/// What has expired is handed out, and nothing else: the keys whose timers end now or earlier,
/// those that end first coming first. Their timers are gone, the others stay.
pub proof fn law_timers_that_ended_are_handed_out<K: TimerKey>(
    manager: &mut PruneManager<K>,
    now: u64,
    expired: Vec<K>,
    key: K,
    i: int,
    j: int,
)
    requires
        call_ensures(PruneManager::<K>::pop_expired, (manager, now), expired),
    ensures
        expired@.contains(key) <==> old(manager).timers().contains_key(key)
            && old(manager).timers()[key] <= now,
        final(manager).timers().contains_key(key) <==> old(manager).timers().contains_key(key)
            && old(manager).timers()[key] > now,
        final(manager).timers().contains_key(key) ==> final(manager).timers()[key]
            == old(manager).timers()[key],
        0 <= i < j < expired@.len() ==> old(manager).timers()[expired@[i]]
            <= old(manager).timers()[expired@[j]],
        0 <= i < final(manager).queue().len() ==> final(manager).queue()[i].0 > now,
{
    assert(expired@.to_set().contains(key) <==> expired@.contains(key));
    if 0 <= i < j < expired@.len() {
        assert(leaves_before(
            (old(manager).timers()[expired@[i]], expired@[i]),
            (old(manager).timers()[expired@[j]], expired@[j]),
        ));
    }
    if 0 <= i < final(manager).queue().len() {
        old(manager).queue().lemma_filter_pred(|entry: (u64, K)| entry.0 > now, i);
    }
}

/// Of blocks that expire at the same time, those further down a sequence go first.
pub proof fn law_deeper_blocks_expire_first(
    manager: &mut PruneManager<BlockEntry>,
    now: u64,
    expired: Vec<BlockEntry>,
    i: int,
    j: int,
)
    requires
        call_ensures(PruneManager::<BlockEntry>::pop_expired, (manager, now), expired),
        0 <= i < j < expired@.len(),
        expired@[i].seq_position <= 0xffff_ffff_ffff_ffff,
        expired@[j].seq_position <= 0xffff_ffff_ffff_ffff,
        old(manager).timers()[expired@[i]] == old(manager).timers()[expired@[j]],
    ensures
        expired@[i].seq_position >= expired@[j].seq_position,
{
    assert(leaves_before(
        (old(manager).timers()[expired@[i]], expired@[i]),
        (old(manager).timers()[expired@[j]], expired@[j]),
    ));
}

/// Pruning takes nothing from a tree within its limit. Beyond it, as many keys go as the tree is
/// larger than the target, or all that have timers; those that go would have expired no later than
/// any that stays.
pub proof fn law_pruning_takes_what_expires_first<K: TimerKey>(
    manager: &mut PruneManager<K>,
    size: usize,
    pruned: Result<Vec<K>, KvRouterError>,
    key: K,
    other: K,
)
    requires
        call_ensures(PruneManager::<K>::prune, (manager, size), pruned),
    ensures
        pruned is Ok <==> old(manager).config() is Some,
        pruned matches Ok(keys) ==> {
            let config = old(manager).config()->Some_0;
            let timers = old(manager).timers();
            &&& size <= config.max_tree_size ==> keys@.len() == 0
            &&& size > config.max_tree_size && size > config.target_size && size
                - config.target_size <= timers.len() ==> keys@.len() == size - config.target_size
            &&& size > config.max_tree_size && size > config.target_size && size
                - config.target_size > timers.len() ==> keys@.len() == timers.len()
            &&& size <= config.target_size ==> keys@.len() == 0
            &&& keys@.contains(key) ==> timers.contains_key(key)
            &&& final(manager).timers().contains_key(key) <==> timers.contains_key(key)
                && !keys@.contains(key)
            &&& final(manager).timers().contains_key(key) ==> final(manager).timers()[key]
                == timers[key]
            &&& keys@.contains(key) && final(manager).timers().contains_key(other) ==> timers[key]
                <= timers[other]
        },
        pruned is Err ==> final(manager).timers() == old(manager).timers(),
{
    if let Ok(keys) = pruned {
        let timers = old(manager).timers();
        assert(keys@.to_set().contains(key) <==> keys@.contains(key));
        assert(keys@.to_set().contains(other) <==> keys@.contains(other));
        if keys@.contains(key) && final(manager).timers().contains_key(other) {
            assert(timers.contains_key(other) && !keys@.contains(other));
            assert(leaves_before((timers[key], key), (timers[other], other)));
        }
    }
}

/// The next expiry comes no later than any timer ends.
pub proof fn law_next_expiry_is_the_earliest(
    state: &IndexState,
    expiry: Option<u64>,
    key: BlockEntry,
)
    requires
        call_ensures(IndexState::next_expiry, (state,), expiry),
    ensures
        state.timers() matches Some(timers) ==> (timers.contains_key(key) ==> (
        expiry matches Some(first) && first <= timers[key])),
        expiry is Some <==> state.queue().len() > 0,
{
}

/// Once time has passed, exactly the timers that ended by then are gone.
pub proof fn law_expiring_ends_timers(state: &mut IndexState, now: u64, key: BlockEntry)
    requires
        call_ensures(IndexState::expire, (state, now), ()),
    ensures
        old(state).timers() is None ==> final(state).timers() is None && final(state).tree()
            == old(state).tree(),
        old(state).timers() matches Some(timers) ==> {
            &&& final(state).timers() is Some
            &&& final(state).timers()->Some_0.contains_key(key) <==> timers.contains_key(key)
                && timers[key] > now
            &&& final(state).timers()->Some_0.contains_key(key) ==> final(state).timers()->Some_0[key]
                == timers[key]
        },
        final(state).config() == old(state).config(),
{
    if let Some(timers) = old(state).timers() {
        let expired = choose|expired: Seq<BlockEntry>|
            {
                &&& lists_leaving(expired, timers)
                &&& forall|key: BlockEntry| #[trigger]
                    expired.contains(key) <==> timers.contains_key(key) && timers[key] <= now
                &&& final(state).tree() == #[trigger] drop_entries(
                    old(state).tree(),
                    expired,
                )
                &&& final(state).timers() == Some(timers.remove_keys(expired.to_set()))
            };
        assert(expired.to_set().contains(key) <==> expired.contains(key));
    }
}

/// Each block of a request that was routed and stored gets a timer of one lifetime, under its place
/// in the sequence, its rolling hash and its worker. Where one is missing because the tree had to
/// be pruned, no timer that is left ends earlier. No other timer is started.
pub proof fn law_routed_blocks_get_timers(
    state: &mut IndexState,
    worker: WorkerWithDpRank,
    local_hashes: Vec<LocalBlockHash>,
    rolling_hashes: Vec<SequenceHash>,
    now: u64,
    i: int,
    other: BlockEntry,
)
    requires
        local_hashes@.len() == rolling_hashes@.len(),
        old(state).config() is Some,
        old(state).timers() is Some,
        now + old(state).config()->Some_0.ttl_nanos <= u64::MAX,
        old(state).tree().track(worker).store(
            worker,
            None,
            routed_run(local_hashes@, rolling_hashes@),
        ).1 is Ok,
        call_ensures(
            IndexState::process_routing_decision,
            (state, worker, local_hashes, rolling_hashes, now),
            (),
        ),
        0 <= i < rolling_hashes@.len() <= usize::MAX,
    ensures
        final(state).timers() is Some,
        ({
            let entry = BlockEntry {
                seq_position: i as usize,
                key: ExternalSequenceBlockHash(rolling_hashes@[i]),
                worker,
            };
            let timers = final(state).timers()->Some_0;
            let ends = now + old(state).config()->Some_0.ttl_nanos;
            &&& timers.contains_key(entry) ==> timers[entry] == ends
            &&& !timers.contains_key(entry) && timers.contains_key(other) ==> timers[other] >= ends
            &&& timers.contains_key(other) ==> old(state).timers()->Some_0.contains_key(other)
                || timers[other] == ends && other.worker == worker
        }),
{
    let entry = BlockEntry {
        seq_position: i as usize,
        key: ExternalSequenceBlockHash(rolling_hashes@[i]),
        worker,
    };
    let config = old(state).config()->Some_0;
    let entries = routed_entries(worker, rolling_hashes@);
    let (stored, result) = old(state).tree().track(worker).store(
        worker,
        None,
        routed_run(local_hashes@, rolling_hashes@),
    );
    let started = timers_with(
        old(state).timers()->Some_0,
        entries,
        (now + config.ttl_nanos) as u64,
    );
    assert(entries[i] == entry);
    assert(entries.contains(entry));
    let pruned = choose|pruned: Seq<BlockEntry>|
        {
            &&& #[trigger] is_pruned(pruned, started, config, size_of(stored))
            &&& final(state).timers() == Some(started.remove_keys(pruned.to_set()))
        };
    assert(is_pruned(pruned, started, config, size_of(stored)));
    assert(pruned.to_set().contains(entry) <==> pruned.contains(entry));
    assert(pruned.to_set().contains(other) <==> pruned.contains(other));
    if pruned.contains(entry) && started.contains_key(other) && !pruned.contains(other) {
        assert(leaves_before((started[entry], entry), (started[other], other)));
    }
    if entries.contains(other) {
        let k = choose|k: int| 0 <= k < entries.len() && entries[k] == other;
        assert(entries[k].worker == worker);
    }
}

/// A request that is routed by its tokens gets the timers of its blocks: the full blocks of its
/// tokens, each under the rolling hash that takes in all blocks before it.
pub proof fn law_routed_tokens_get_timers(
    state: &mut IndexState,
    tokens: &[u32],
    kv_block_size: u32,
    worker: WorkerWithDpRank,
    now: u64,
    local_hashes: Vec<LocalBlockHash>,
    local_slice: &[LocalBlockHash],
    rolling_hashes: Vec<SequenceHash>,
    i: int,
    other: BlockEntry,
)
    requires
        kv_block_size > 0,
        old(state).config() is Some,
        old(state).timers() is Some,
        now + old(state).config()->Some_0.ttl_nanos <= u64::MAX,
        call_ensures(compute_block_hash_for_seq, (tokens, kv_block_size), local_hashes),
        local_slice@ == local_hashes@,
        call_ensures(compute_seq_hash_for_block, (local_slice,), rolling_hashes),
        old(state).tree().track(worker).store(
            worker,
            None,
            routed_run(local_hashes@, rolling_hashes@),
        ).1 is Ok,
        call_ensures(
            IndexState::process_routing_decision_for_request,
            (state, tokens, kv_block_size, worker, now),
            (),
        ),
        0 <= i < rolling_hashes@.len() <= usize::MAX,
    ensures
        final(state).timers() is Some,
        ({
            let entry = BlockEntry {
                seq_position: i as usize,
                key: ExternalSequenceBlockHash(rolling_hashes@[i]),
                worker,
            };
            let timers = final(state).timers()->Some_0;
            let ends = now + old(state).config()->Some_0.ttl_nanos;
            &&& timers.contains_key(entry) ==> timers[entry] == ends
            &&& !timers.contains_key(entry) && timers.contains_key(other) ==> timers[other] >= ends
            &&& timers.contains_key(other) ==> old(state).timers()->Some_0.contains_key(other)
                || timers[other] == ends && other.worker == worker
        }),
{
    let entry = BlockEntry {
        seq_position: i as usize,
        key: ExternalSequenceBlockHash(rolling_hashes@[i]),
        worker,
    };
    let config = old(state).config()->Some_0;
    let entries = routed_entries(worker, rolling_hashes@);
    let (stored, result) = old(state).tree().track(worker).store(
        worker,
        None,
        routed_run(local_hashes@, rolling_hashes@),
    );
    let started = timers_with(
        old(state).timers()->Some_0,
        entries,
        (now + config.ttl_nanos) as u64,
    );
    assert(entries[i] == entry);
    assert(entries.contains(entry));
    let pruned = choose|pruned: Seq<BlockEntry>|
        {
            &&& #[trigger] is_pruned(pruned, started, config, size_of(stored))
            &&& final(state).timers() == Some(started.remove_keys(pruned.to_set()))
        };
    assert(is_pruned(pruned, started, config, size_of(stored)));
    assert(pruned.to_set().contains(entry) <==> pruned.contains(entry));
    assert(pruned.to_set().contains(other) <==> pruned.contains(other));
    if pruned.contains(entry) && started.contains_key(other) && !pruned.contains(other) {
        assert(leaves_before((started[entry], entry), (started[other], other)));
    }
    if entries.contains(other) {
        let k = choose|k: int| 0 <= k < entries.len() && entries[k] == other;
        assert(entries[k].worker == worker);
    }
}

/// An event or the removal of a worker starts and ends no timer.
pub proof fn law_events_touch_no_timer(
    state: &mut IndexState,
    event: RouterEvent,
    labels: EventLabels,
    later: &mut IndexState,
    worker_id: WorkerId,
)
    requires
        call_ensures(IndexState::apply_event, (state, event), labels),
        call_ensures(IndexState::remove_worker, (later, worker_id), ()),
    ensures
        final(state).timers() == old(state).timers(),
        final(state).queue() == old(state).queue(),
        final(later).timers() == old(later).timers(),
        final(later).queue() == old(later).queue(),
{
}

proof fn lemma_queued_entry<K: TimerKey>(queue: Seq<(u64, K)>, entry: (u64, K))
    requires
        queue.contains(entry),
        in_leaving_order(queue),
    ensures
        queue.len() > 0,
        queue[0].0 <= entry.0,
{
    let i = choose|i: int| 0 <= i < queue.len() && queue[i] == entry;
    if i > 0 {
        assert(!leaves_before(queue[i], queue[0]));
    }
}

/// Once keys are inserted, the next expiry is known, and is no later than theirs.
pub proof fn law_inserted_keys_are_waited_for<K: TimerKey>(
    manager: &mut PruneManager<K>,
    keys: Vec<K>,
    now: u64,
    expiry: Option<u64>,
)
    requires
        keys@.len() > 0,
        now + old(manager).ttl() <= u64::MAX,
        call_ensures(PruneManager::<K>::insert, (manager, keys, now), ()),
        call_ensures(PruneManager::<K>::peek_next_expiry, (&*final(manager),), expiry),
    ensures
        expiry matches Some(first) && first <= now + old(manager).ttl(),
{
    let ends = (now + old(manager).ttl()) as u64;
    let before = old(manager).queue();
    let after = final(manager).queue();
    let timers = timers_with(old(manager).timers(), keys@, ends);
    let entry = (ends, keys@[0]);
    assert(keys@.contains(keys@[0]));
    if before.len() + keys@.len() > timers.len() * old(manager).queue_factor() {
        assert(after.contains(entry));
    } else {
        let added = entries_at(keys@, ends);
        broadcast use vstd::seq_lib::group_to_multiset_ensures;

        assert(added[0] == entry);
        assert(added.contains(entry));
        assert(added.to_multiset().count(entry) > 0);
        assert(after.to_multiset().count(entry) > 0);
        assert(after.contains(entry));
    }
    lemma_queued_entry(after, entry);
}

/// The queue is kept short: it holds no more entries than its factor times the timers, or one for
/// each timer.
pub proof fn law_queues_are_kept_short<K: TimerKey>(
    manager: &mut PruneManager<K>,
    keys: Vec<K>,
    now: u64,
)
    requires
        now + old(manager).ttl() <= u64::MAX,
        final(manager).timers().dom().finite(),
        call_ensures(PruneManager::<K>::insert, (manager, keys, now), ()),
    ensures
        final(manager).queue().len() <= final(manager).timers().len() * old(
            manager).queue_factor() || final(manager).queue().len() <= final(manager).timers().len(),
        old(manager).queue().len() + keys@.len() <= final(manager).timers().len() * old(
            manager).queue_factor() ==> final(manager).queue().len() == old(manager).queue().len()
            + keys@.len(),
{
    let ends = (now + old(manager).ttl()) as u64;
    let before = old(manager).queue();
    let after = final(manager).queue();
    let timers = final(manager).timers();
    if before.len() + keys@.len() > timers.len() * old(manager).queue_factor() {
        let held = after.to_set();
        let key = |entry: (u64, K)| entry.1;
        after.unique_seq_to_set();
        assert forall|entry: (u64, K)| #[trigger] held.contains(entry) implies timers.dom().contains(
            key(entry),
        ) by {
            assert(after.contains(entry));
        }
        assert(vstd::relations::injective_on(key, held)) by {
            assert forall|a: (u64, K), b: (u64, K)|
                held.contains(a) && held.contains(b) && #[trigger] key(a) == #[trigger] key(
                    b,
                ) implies a == b by {
                assert(after.contains(a) && after.contains(b));
            }
        }
        let image = held.map(key);
        vstd::set_lib::lemma_map_size(held, image, key);
        assert(image.subset_of(timers.dom()));
        vstd::set_lib::lemma_len_subset(image, timers.dom());
    } else {
        let added = entries_at(keys@, ends);
        broadcast use vstd::seq_lib::group_to_multiset_ensures;

        assert(after.to_multiset().len() == after.len());
        assert(before.to_multiset().len() == before.len());
        assert(added.to_multiset().len() == added.len());
    }
}

/// Dropping entries takes their hashes from the tables of their workers, and nothing else.
proof fn lemma_dropped_entries(
    tree: TreeState,
    entries: Seq<BlockEntry>,
    worker: WorkerWithDpRank,
    hash: u64,
)
    ensures
        ({
            let after = drop_entries(tree, entries);
            let named = exists|i: int|
                0 <= i < entries.len() && (#[trigger] entries[i]).worker == worker
                    && entries[i].key.0 == hash;
            let had = tree.lookup.contains_key(worker) && tree.lookup[worker].contains_key(hash);
            &&& (after.lookup.contains_key(worker) && after.lookup[worker].contains_key(hash))
                <==> had && !named
            &&& tree.lookup.contains_key(worker) ==> after.lookup.contains_key(worker)
        }),
    decreases entries.len(),
{
    if entries.len() > 0 {
        let shorter = entries.drop_last();
        let last = entries.last();
        lemma_dropped_entries(tree, shorter, worker, hash);
        let before = drop_entries(tree, shorter);
        let known = before.track(last.worker);
        let state = known.of_worker(last.worker);
        let hashes = seq![last.key];
        assert(hashes.skip(1).len() == 0);
        if state.table.contains_key(last.key.0) {
            let dropped = state.drop_block(last.worker, last.key.0);
            assert(dropped.drop_blocks(last.worker, hashes.skip(1)) == (dropped, true));
        }
        assert forall|i: int| 0 <= i < shorter.len() implies #[trigger] shorter[i] == entries[i] by {}
        if exists|i: int|
            0 <= i < shorter.len() && (#[trigger] shorter[i]).worker == worker
                && shorter[i].key.0 == hash {
            let i = choose|i: int|
                0 <= i < shorter.len() && (#[trigger] shorter[i]).worker == worker
                    && shorter[i].key.0 == hash;
            assert(entries[i].worker == worker && entries[i].key.0 == hash);
        }
        if exists|i: int|
            0 <= i < entries.len() && (#[trigger] entries[i]).worker == worker
                && entries[i].key.0 == hash {
            let i = choose|i: int|
                0 <= i < entries.len() && (#[trigger] entries[i]).worker == worker
                    && entries[i].key.0 == hash;
            if i < shorter.len() {
                assert(shorter[i].worker == worker && shorter[i].key.0 == hash);
            }
        }
        assert(entries[entries.len() - 1] == last);
    }
}

/// Once time has passed, a worker knows exactly the hashes that it knew before but for those of
/// blocks whose timers have ended.
pub proof fn law_expired_blocks_leave_the_tables(
    state: &mut IndexState,
    now: u64,
    worker: WorkerWithDpRank,
    hash: u64,
)
    requires
        old(state).timers() is Some,
        call_ensures(IndexState::expire, (state, now), ()),
    ensures
        (final(state).tree().lookup.contains_key(worker)
            && final(state).tree().lookup[worker].contains_key(hash)) <==> (
        old(state).tree().lookup.contains_key(worker)
            && old(state).tree().lookup[worker].contains_key(hash) && !(exists|entry: BlockEntry|
            #[trigger]
            old(state).timers()->Some_0.contains_key(entry) && old(state).timers()->Some_0[entry]
                <= now && entry.worker == worker && entry.key.0 == hash)),
{
    let timers = old(state).timers()->Some_0;
    let expired = choose|expired: Seq<BlockEntry>|
        {
            &&& lists_leaving(expired, timers)
            &&& forall|key: BlockEntry| #[trigger]
                expired.contains(key) <==> timers.contains_key(key) && timers[key] <= now
            &&& final(state).tree() == #[trigger] drop_entries(old(state).tree(), expired)
            &&& final(state).timers() == Some(timers.remove_keys(expired.to_set()))
        };
    lemma_dropped_entries(old(state).tree(), expired, worker, hash);
    if exists|i: int|
        0 <= i < expired.len() && (#[trigger] expired[i]).worker == worker && expired[i].key.0
            == hash {
        let i = choose|i: int|
            0 <= i < expired.len() && (#[trigger] expired[i]).worker == worker
                && expired[i].key.0 == hash;
        assert(expired.contains(expired[i]));
        assert(timers.contains_key(expired[i]));
    }
    if exists|entry: BlockEntry| #[trigger]
        timers.contains_key(entry) && timers[entry] <= now && entry.worker == worker && entry.key.0
            == hash {
        let entry = choose|entry: BlockEntry| #[trigger]
            timers.contains_key(entry) && timers[entry] <= now && entry.worker == worker
                && entry.key.0 == hash;
        assert(expired.contains(entry));
        let i = choose|i: int| 0 <= i < expired.len() && expired[i] == entry;
        assert(expired[i].worker == worker);
    }
}

/// A request that was routed and stored makes its worker know the rolling hashes of its blocks. A
/// hash is forgotten only where the tree had to be pruned, and with it its timer.
pub proof fn law_routed_blocks_enter_the_tables(
    state: &mut IndexState,
    worker: WorkerWithDpRank,
    local_hashes: Vec<LocalBlockHash>,
    rolling_hashes: Vec<SequenceHash>,
    now: u64,
    other: WorkerWithDpRank,
    hash: u64,
)
    requires
        local_hashes@.len() == rolling_hashes@.len(),
        old(state).config() is Some,
        old(state).timers() is Some,
        now + old(state).config()->Some_0.ttl_nanos <= u64::MAX,
        old(state).tree().track(worker).store(
            worker,
            None,
            routed_run(local_hashes@, rolling_hashes@),
        ).1 is Ok,
        call_ensures(
            IndexState::process_routing_decision,
            (state, worker, local_hashes, rolling_hashes, now),
            (),
        ),
    ensures
        ({
            let knew = old(state).tree().lookup.contains_key(other)
                && old(state).tree().lookup[other].contains_key(hash);
            let routed = other == worker && rolling_hashes@.contains(hash);
            let knows = final(state).tree().lookup.contains_key(other)
                && final(state).tree().lookup[other].contains_key(hash);
            &&& knows ==> knew || routed
            &&& (knew || routed) && !knows ==> exists|entry: BlockEntry|
                {
                    &&& entry.worker == other
                    &&& entry.key.0 == hash
                    &&& !#[trigger] final(state).timers()->Some_0.contains_key(entry)
                    &&& old(state).timers()->Some_0.contains_key(entry) || routed
                }
        }),
{
    let config = old(state).config()->Some_0;
    let run = routed_run(local_hashes@, rolling_hashes@);
    let entries = routed_entries(worker, rolling_hashes@);
    let (stored, result) = old(state).tree().track(worker).store(worker, None, run);
    let started = timers_with(
        old(state).timers()->Some_0,
        entries,
        (now + config.ttl_nanos) as u64,
    );
    let pruned = choose|pruned: Seq<BlockEntry>|
        {
            &&& #[trigger] is_pruned(pruned, started, config, size_of(stored))
            &&& final(state).tree() == drop_entries(stored, pruned)
            &&& final(state).timers() == Some(started.remove_keys(pruned.to_set()))
        };
    assert(is_pruned(pruned, started, config, size_of(stored)));
    lemma_dropped_entries(stored, pruned, other, hash);
    let known = old(state).tree().track(worker);
    crate::kv_router::tree_laws::lemma_stored_table(
        known.of_worker(worker),
        worker,
        0,
        run,
        Set::empty(),
        hash,
    );
    if rolling_hashes@.contains(hash) {
        let i = choose|i: int| 0 <= i < rolling_hashes@.len() && rolling_hashes@[i] == hash;
        assert(run[i].block_hash.0 == hash);
    }
    if exists|i: int| 0 <= i < run.len() && (#[trigger] run[i]).block_hash.0 == hash {
        let i = choose|i: int| 0 <= i < run.len() && (#[trigger] run[i]).block_hash.0 == hash;
        assert(rolling_hashes@[i] == hash);
    }
    if exists|i: int|
        0 <= i < pruned.len() && (#[trigger] pruned[i]).worker == other && pruned[i].key.0
            == hash {
        let i = choose|i: int|
            0 <= i < pruned.len() && (#[trigger] pruned[i]).worker == other && pruned[i].key.0
                == hash;
        let entry = pruned[i];
        assert(pruned.contains(entry));
        assert(started.contains_key(entry));
        assert(pruned.to_set().contains(entry));
        assert(!final(state).timers()->Some_0.contains_key(entry));
        if entries.contains(entry) {
            let k = choose|k: int| 0 <= k < entries.len() && entries[k] == entry;
            assert(rolling_hashes@[k] == hash);
            assert(rolling_hashes@.contains(hash));
        }
    }
}

/// As long as the workers of the tree know no more hashes than its limit, routing a request prunes
/// nothing: every timer stays, and every block that was routed has one.
pub proof fn law_nothing_is_pruned_within_the_limit(
    state: &mut IndexState,
    worker: WorkerWithDpRank,
    local_hashes: Vec<LocalBlockHash>,
    rolling_hashes: Vec<SequenceHash>,
    now: u64,
    entry: BlockEntry,
)
    requires
        local_hashes@.len() == rolling_hashes@.len() <= usize::MAX,
        old(state).config() is Some,
        old(state).timers() is Some,
        now + old(state).config()->Some_0.ttl_nanos <= u64::MAX,
        call_ensures(
            IndexState::process_routing_decision,
            (state, worker, local_hashes, rolling_hashes, now),
            (),
        ),
        ({
            let (stored, result) = old(state).tree().track(worker).store(
                worker,
                None,
                routed_run(local_hashes@, rolling_hashes@),
            );
            &&& result is Ok
            &&& Set::new(
                |known: (WorkerWithDpRank, u64)|
                    stored.lookup.contains_key(known.0) && stored.lookup[known.0].contains_key(
                        known.1,
                    ),
            ).len() <= old(state).config()->Some_0.max_tree_size
        }),
    ensures
        final(state).timers() is Some,
        final(state).timers()->Some_0.contains_key(entry) <==> (
        old(state).timers()->Some_0.contains_key(entry) || (entry.worker == worker
            && entry.seq_position < rolling_hashes@.len() && rolling_hashes@[
        entry.seq_position as int] == entry.key.0)),
{
    let config = old(state).config()->Some_0;
    let run = routed_run(local_hashes@, rolling_hashes@);
    let entries = routed_entries(worker, rolling_hashes@);
    let (stored, result) = old(state).tree().track(worker).store(worker, None, run);
    let started = timers_with(
        old(state).timers()->Some_0,
        entries,
        (now + config.ttl_nanos) as u64,
    );
    let pruned = choose|pruned: Seq<BlockEntry>|
        {
            &&& #[trigger] is_pruned(pruned, started, config, size_of(stored))
            &&& final(state).timers() == Some(started.remove_keys(pruned.to_set()))
        };
    assert(is_pruned(pruned, started, config, size_of(stored)));
    assert(stored.entries() =~= Set::new(
        |known: (WorkerWithDpRank, u64)|
            stored.lookup.contains_key(known.0) && stored.lookup[known.0].contains_key(known.1),
    ));
    if pruned.len() > 0 {
        assert(started.len() < 0);
    }
    assert(pruned.to_set().contains(entry) <==> pruned.contains(entry));
    if entries.contains(entry) {
        let i = choose|i: int| 0 <= i < entries.len() && entries[i] == entry;
        assert(entry.seq_position == i);
    }
    if entry.worker == worker && entry.seq_position < rolling_hashes@.len()
        && rolling_hashes@[entry.seq_position as int] == entry.key.0 {
        assert(entries[entry.seq_position as int] == entry);
    }
}

} // verus!
