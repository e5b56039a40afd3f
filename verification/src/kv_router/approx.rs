//! Timers and size limits for blocks that are only believed to be cached.
use crate::kv_router::indexer::KvRouterError;
use crate::kv_router::protocols::{ExternalSequenceBlockHash, WorkerWithDpRank};
use std::cmp::Ordering;
use std::collections::{BTreeMap, VecDeque};
use vstd::prelude::*;

verus! {

broadcast use vstd::laws_cmp::group_laws_cmp;

/// What keys are ordered by.
pub type KeyCode = (u64, u64, u64, u32);

/// Codes are ordered by their parts, first to last.
pub open spec fn code_precedes(a: KeyCode, b: KeyCode) -> bool {
    a.0 < b.0 || (a.0 == b.0 && (a.1 < b.1 || (a.1 == b.1 && (a.2 < b.2 || (a.2 == b.2 && a.3
        < b.3)))))
}

/// Something a timer can be kept for.
pub trait TimerKey: Copy {
    spec fn code_spec(self) -> KeyCode;

    /// The code that the key is ordered by; different keys have different codes.
    fn code(&self) -> (code: KeyCode)
        ensures
            code == self.code_spec(),
    ;

    proof fn lemma_code_unique(a: Self, b: Self)
        ensures
            a.code_spec() == b.code_spec() ==> a == b,
    ;
}

impl TimerKey for u32 {
    open spec fn code_spec(self) -> KeyCode {
        (0, 0, 0, self)
    }

    fn code(&self) -> (code: KeyCode) {
        (0, 0, 0, *self)
    }

    proof fn lemma_code_unique(a: Self, b: Self) {
    }
}

/// A block of a worker's sequence.
#[derive(Clone, Copy, Debug, PartialEq, Eq, Structural, Ord, Hash)]
pub struct BlockEntry {
    /// The position of the block in its sequence, from zero.
    pub seq_position: usize,
    /// The hash that the block is known by.
    pub key: ExternalSequenceBlockHash,
    /// The worker that stored the block.
    pub worker: WorkerWithDpRank,
}

impl TimerKey for BlockEntry {
    open spec fn code_spec(self) -> KeyCode {
        (self.seq_position as u64, self.key.0, self.worker.worker_id, self.worker.dp_rank)
    }

    fn code(&self) -> (code: KeyCode) {
        (self.seq_position as u64, self.key.0, self.worker.worker_id, self.worker.dp_rank)
    }

    proof fn lemma_code_unique(a: Self, b: Self) {
    }
}

fn code_before(a: &KeyCode, b: &KeyCode) -> (before: bool)
    ensures
        before == code_precedes(*a, *b),
{
    a.0 < b.0 || (a.0 == b.0 && (a.1 < b.1 || (a.1 == b.1 && (a.2 < b.2 || (a.2 == b.2 && a.3
        < b.3)))))
}

/// Entries are ordered by their place in the sequence, then by hash, then by worker.
impl PartialOrd for BlockEntry {
    fn partial_cmp(&self, other: &Self) -> (order: Option<Ordering>) {
        if code_before(&self.code(), &other.code()) {
            Some(Ordering::Less)
        } else if code_before(&other.code(), &self.code()) {
            Some(Ordering::Greater)
        } else {
            Some(Ordering::Equal)
        }
    }
}

impl vstd::std_specs::cmp::PartialOrdSpecImpl for BlockEntry {
    open spec fn obeys_partial_cmp_spec() -> bool {
        true
    }

    open spec fn partial_cmp_spec(&self, other: &Self) -> Option<Ordering> {
        if code_precedes(self.code_spec(), other.code_spec()) {
            Some(Ordering::Less)
        } else if code_precedes(other.code_spec(), self.code_spec()) {
            Some(Ordering::Greater)
        } else {
            Some(Ordering::Equal)
        }
    }
}

/// When blocks are given up.
#[derive(Clone, Copy, Debug, PartialEq, Eq, Structural)]
pub struct PruneConfig {
    /// How long a block is kept, in nanoseconds.
    pub ttl_nanos: u64,
    /// The number of blocks above which blocks are pruned.
    pub max_tree_size: usize,
    /// The number of blocks that pruning leaves.
    pub target_size: usize,
}

impl Default for PruneConfig {
    /// Blocks live for two minutes; beyond 2^20 blocks four fifths of that number are kept.
    fn default() -> (config: Self)
        ensures
            config == (PruneConfig {
                ttl_nanos: 120_000_000_000,
                max_tree_size: 1_048_576,
                target_size: 838_860,
            }),
    {
        PruneConfig { ttl_nanos: 120_000_000_000, max_tree_size: 1_048_576, target_size: 838_860 }
    }
}

/// Whether `a` is given up before `b`: the one that expires first, and of two that expire
/// together the later one in key order.
pub open spec fn leaves_before<K: TimerKey>(a: (u64, K), b: (u64, K)) -> bool {
    a.0 < b.0 || (a.0 == b.0 && code_precedes(b.1.code_spec(), a.1.code_spec()))
}

/// No entry stands behind one that is given up later.
pub open spec fn in_leaving_order<K: TimerKey>(queue: Seq<(u64, K)>) -> bool {
    forall|i: int, j: int|
        0 <= i < j < queue.len() ==> !leaves_before(#[trigger] queue[j], #[trigger] queue[i])
}

/// The keys stand in the order in which their timers give them up, each once.
pub open spec fn lists_leaving<K: TimerKey>(keys: Seq<K>, timers: Map<K, u64>) -> bool {
    forall|i: int, j: int|
        #![trigger keys[i], keys[j]]
        0 <= i < j < keys.len() ==> leaves_before((timers[keys[i]], keys[i]), (timers[keys[j]], keys[j]))
}

proof fn lemma_leaving_total<K: TimerKey>(a: (u64, K), b: (u64, K))
    ensures
        leaves_before(a, b) || leaves_before(b, a) || a == b,
{
    K::lemma_code_unique(a.1, b.1);
}

/// Timers for keys, and the order in which they run out.
pub struct PruneManager<K: TimerKey> {
    timers: BTreeMap<KeyCode, u64>,
    expirations: VecDeque<(u64, K)>,
    threshold: usize,
    ttl_nanos: u64,
    pub prune_config: Option<PruneConfig>,
}

impl<K: TimerKey> PruneManager<K> {
    /// The time at which each key expires.
    pub closed spec fn timers(&self) -> Map<K, u64> {
        Map::new(
            |key: K| self.timers@.contains_key(key.code_spec()),
            |key: K| self.timers@[key.code_spec()],
        )
    }

    /// All entries that were queued, with those that a later insertion has overtaken.
    pub closed spec fn queue(&self) -> Seq<(u64, K)> {
        self.expirations@
    }

    /// The lifetime of a timer.
    pub closed spec fn ttl(&self) -> u64 {
        self.ttl_nanos
    }

    /// When blocks are pruned.
    pub closed spec fn config(&self) -> Option<PruneConfig> {
        self.prune_config
    }

    /// How many entries may be queued per timer.
    pub closed spec fn queue_factor(&self) -> usize {
        self.threshold
    }

    spec fn queued(&self, code: KeyCode) -> bool {
        exists|i: int|
            0 <= i < self.expirations@.len() && (#[trigger] self.expirations@[i]).1.code_spec() == code
                && self.expirations@[i].0 == self.timers@[code]
    }

    /// The queue is in order and holds every timer.
    pub closed spec fn wf(&self) -> bool {
        &&& in_leaving_order(self.expirations@)
        &&& forall|code: KeyCode| #[trigger] self.timers@.contains_key(code) ==> self.queued(code)
    }

    /// Every timer stands in the queue, which is in order; there are finitely many timers.
    pub proof fn lemma_queue(&self)
        requires
            self.wf(),
        ensures
            in_leaving_order(self.queue()),
            forall|key: K| #[trigger]
                self.timers().contains_key(key) ==> self.queue().contains(
                    (self.timers()[key], key),
                ),
            self.timers().dom().finite(),
    {
        self.lemma_timer_count();
        let queue = self.expirations@;
        assert forall|key: K| #[trigger] self.timers().contains_key(key) implies queue.contains(
            (self.timers()[key], key),
        ) by {
            self.lemma_timer_queued(key);
        }
    }

    proof fn lemma_timer_queued(&self, key: K)
        requires
            self.wf(),
            self.timers().contains_key(key),
        ensures
            self.expirations@.contains((self.timers()[key], key)),
    {
        let queue = self.expirations@;
        let code = key.code_spec();
        assert(self.queued(code));
        let i = choose|i: int|
            0 <= i < queue.len() && (#[trigger] queue[i]).1.code_spec() == code && queue[i].0
                == self.timers@[code];
        K::lemma_code_unique(queue[i].1, key);
        assert(queue[i] == (self.timers()[key], key));
    }

    proof fn lemma_timer_count(&self)
        requires
            self.wf(),
        ensures
            self.timers().dom().finite(),
            self.timers().len() == self.timers@.len(),
    {
        let queue = self.expirations@;
        assert forall|key: K| #[trigger] self.timers().contains_key(key) implies queue.contains(
            (self.timers()[key], key),
        ) by {
            self.lemma_timer_queued(key);
        }
        let keys = queue.map_values(|entry: (u64, K)| entry.1);
        assert(self.timers().dom().subset_of(keys.to_set())) by {
            assert forall|key: K| self.timers().contains_key(key) implies keys.to_set().contains(
                key,
            ) by {
                let i = choose|i: int| 0 <= i < queue.len() && queue[i] == (self.timers()[key], key);
                assert(keys[i] == key);
            }
        }
        vstd::seq_lib::seq_to_set_is_finite(keys);
        vstd::set_lib::lemma_len_subset(self.timers().dom(), keys.to_set());
        let to_code = |key: K| key.code_spec();
        assert forall|code: KeyCode| self.timers@.dom().contains(code) implies exists|key: K|
            self.timers().dom().contains(key) && #[trigger] to_code(key) == code by {
            assert(self.queued(code));
            let i = choose|i: int|
                0 <= i < queue.len() && (#[trigger] queue[i]).1.code_spec() == code && queue[i].0
                    == self.timers@[code];
            assert(to_code(queue[i].1) == code);
            assert(self.timers().dom().contains(queue[i].1));
        }
        assert(self.timers().dom().map(to_code) =~= self.timers@.dom());
        assert forall|a: K, b: K| #![trigger to_code(a), to_code(b)] to_code(a) == to_code(
            b,
        ) implies a == b by {
            K::lemma_code_unique(a, b);
        }
        vstd::set_lib::lemma_map_size(self.timers().dom(), self.timers@.dom(), to_code);
    }

    /// A manager without timers.
    pub fn new(threshold: usize, prune_config: PruneConfig) -> (manager: Self)
        ensures
            manager.wf(),
            manager.timers() == Map::<K, u64>::empty(),
            manager.queue() == Seq::<(u64, K)>::empty(),
            manager.ttl() == prune_config.ttl_nanos,
            manager.queue_factor() == threshold,
            manager.config() == Some(prune_config),
    {
        let manager = PruneManager {
            timers: BTreeMap::new(),
            expirations: VecDeque::new(),
            threshold,
            ttl_nanos: prune_config.ttl_nanos,
            prune_config: Some(prune_config),
        };
        assert(manager.timers() =~= Map::empty());
        manager
    }

    /// When a key expires.
    pub fn get_expiry(&self, key: &K) -> (expiry: Option<u64>)
        ensures
            expiry == (if self.timers().contains_key(*key) {
                Some(self.timers()[*key])
            } else {
                None
            }),
    {
        match self.timers.get(&key.code()) {
            Some(expiry) => Some(*expiry),
            None => None,
        }
    }

    /// The time of the next entry in the queue, be it overtaken or not.
    pub fn peek_next_expiry(&self) -> (expiry: Option<u64>)
        ensures
            expiry == (if self.queue().len() > 0 {
                Some(self.queue()[0].0)
            } else {
                None
            }),
    {
        if self.expirations.len() > 0 {
            Some(self.expirations[0].0)
        } else {
            None
        }
    }

    /// Takes the first entry of the queue; the key is given out if the entry is its timer.
    fn pop_first(&mut self) -> (popped: Option<K>)
        requires
            old(self).wf(),
            old(self).queue().len() > 0,
        ensures
            final(self).wf(),
            final(self).queue() == old(self).queue().skip(1),
            final(self).ttl() == old(self).ttl(),
            final(self).queue_factor() == old(self).queue_factor(),
            final(self).config() == old(self).config(),
            ({
                let (expiry, key) = old(self).queue()[0];
                let current = old(self).timers().contains_key(key) && old(self).timers()[key]
                    == expiry;
                &&& popped == if current {
                    Some(key)
                } else {
                    None
                }
                &&& final(self).timers() == if current {
                    old(self).timers().remove(key)
                } else {
                    old(self).timers()
                }
            }),
    {
        let ghost queue = self.expirations@;
        match self.expirations.pop_front() {
            None => None,
            Some(entry) => {
                let (expiry, key) = entry;
                assert(self.expirations@ =~= queue.skip(1));
                let code = key.code();
                let current = match self.timers.get(&code) {
                    Some(current) => *current == expiry,
                    None => false,
                };
                if current {
                    self.timers.remove(&code);
                }
                proof {
                    assert forall|i: int, j: int|
                        0 <= i < j < self.expirations@.len() implies !leaves_before(
                        #[trigger] self.expirations@[j],
                        #[trigger] self.expirations@[i],
                    ) by {
                        assert(!leaves_before(queue[j + 1], queue[i + 1]));
                    }
                    assert forall|other: KeyCode| #[trigger]
                        self.timers@.contains_key(other) implies self.queued(other) by {
                        assert(old(self).queued(other));
                        let i = choose|i: int|
                            0 <= i < queue.len() && (#[trigger] queue[i]).1.code_spec() == other
                                && queue[i].0 == old(self).timers@[other];
                        assert(self.expirations@[i - 1] == queue[i]);
                    }
                    assert forall|other: K| other.code_spec() == code implies other == key by {
                        K::lemma_code_unique(other, key);
                    }
                    assert(self.timers() =~= if current {
                        old(self).timers().remove(key)
                    } else {
                        old(self).timers()
                    });
                }
                if current {
                    Some(key)
                } else {
                    None
                }
            },
        }
    }

    /// Gives out the keys whose time has come, in the order in which it came.
    pub fn pop_expired(&mut self, now: u64) -> (expired: Vec<K>)
        requires
            old(self).wf(),
        ensures
            final(self).wf(),
            final(self).ttl() == old(self).ttl(),
            final(self).queue_factor() == old(self).queue_factor(),
            final(self).config() == old(self).config(),
            lists_leaving(expired@, old(self).timers()),
            forall|key: K| #[trigger]
                expired@.contains(key) <==> old(self).timers().contains_key(key)
                    && old(self).timers()[key] <= now,
            final(self).timers() == old(self).timers().remove_keys(expired@.to_set()),
            final(self).queue() == old(self).queue().filter(|entry: (u64, K)| entry.0 > now),
    {
        let mut expired: Vec<K> = Vec::new();
        let ghost all = self.queue();
        let ghost timers = self.timers();
        let ghost mut taken: int = 0;
        proof {
            self.lemma_queue();
            assert(all.skip(0) =~= all);
            assert(timers.remove_keys(expired@.to_set()) =~= timers);
        }
        while self.expirations.len() > 0 && self.expirations[0].0 <= now
            invariant
                self.wf(),
                self.ttl() == old(self).ttl(),
                self.queue_factor() == old(self).queue_factor(),
                self.config() == old(self).config(),
                all == old(self).queue(),
                timers == old(self).timers(),
                in_leaving_order(all),
                forall|key: K| #[trigger]
                    timers.contains_key(key) ==> all.contains((timers[key], key)),
                0 <= taken <= all.len(),
                self.queue() == all.skip(taken),
                forall|i: int| 0 <= i < taken ==> (#[trigger] all[i]).0 <= now,
                self.timers() == timers.remove_keys(expired@.to_set()),
                taken_in_order(all, taken, expired@, timers),
            decreases all.len() - taken,
        {
            let ghost earlier = expired@;
            let ghost before = self.timers();
            proof {
                assert(self.queue() == self.expirations@);
                assert(self.queue()[0] == all[taken]);
                assert(all.skip(taken).skip(1) =~= all.skip(taken + 1));
            }
            match self.pop_first() {
                Some(key) => {
                    proof {
                        lemma_take_one(all, taken, expired@, timers);
                    }
                    expired.push(key);
                    proof {
                        assert(earlier.push(key).to_set() =~= earlier.to_set().insert(key)) by {
                            assert forall|other: K| earlier.push(key).contains(other)
                                <==> earlier.contains(other) || other == key by {
                                crate::seqs::lemma_push_contains(earlier, key, other);
                            }
                        }
                        assert(self.timers() =~= timers.remove_keys(expired@.to_set()));
                    }
                },
                None => {
                    proof {
                        lemma_take_stale(all, taken, expired@, timers);
                    }
                },
            }
            proof {
                taken = taken + 1;
            }
        }
        proof {
            let later = |entry: (u64, K)| entry.0 > now;
            assert(self.queue() == self.expirations@);
            assert forall|i: int| taken <= i < all.len() implies later(#[trigger] all[i]) by {
                assert(self.queue()[0] == all[taken]);
                if i > taken {
                    assert(!leaves_before(all[i], all[taken]));
                }
            }
            lemma_filter_suffix(all, taken, later);
            assert forall|key: K| #[trigger] expired@.contains(key) <==> timers.contains_key(key)
                && timers[key] <= now by {
                if timers.contains_key(key) && timers[key] <= now {
                    let at = choose|i: int| 0 <= i < all.len() && all[i] == (timers[key], key);
                    assert(at < taken);
                    assert(taken_key(all, taken, expired@, timers, at));
                }
                if expired@.contains(key) {
                    let k = choose|k: int| 0 <= k < expired@.len() && expired@[k] == key;
                    assert(taken_from(all, taken, expired@, timers, k));
                }
            }
        }
        expired
    }
}

/// Whether an entry is given up before one in the queue.
fn goes_first<K: TimerKey>(expiry: u64, key: &K, queued: &(u64, K)) -> (first: bool)
    ensures
        first == leaves_before((expiry, *key), *queued),
{
    expiry < queued.0 || (expiry == queued.0 && code_before(&queued.1.code(), &key.code()))
}

/// The timers after keys were inserted that expire at `expiry`.
pub open spec fn timers_with<K: TimerKey>(
    timers: Map<K, u64>,
    keys: Seq<K>,
    expiry: u64,
) -> Map<K, u64> {
    Map::new(
        |key: K| keys.contains(key) || timers.contains_key(key),
        |key: K|
            if keys.contains(key) {
                expiry
            } else {
                timers[key]
            },
    )
}

/// Queue entries for keys that expire together.
pub open spec fn entries_at<K: TimerKey>(keys: Seq<K>, expiry: u64) -> Seq<(u64, K)> {
    keys.map_values(|key: K| (expiry, key))
}

/// What becomes of a queue when timers of keys are set to `expiry`: the new entries join it, unless
/// it would hold more than `factor` entries per timer. It is then made anew.
pub open spec fn requeued<K: TimerKey>(
    before: Seq<(u64, K)>,
    after: Seq<(u64, K)>,
    keys: Seq<K>,
    expiry: u64,
    timers: Map<K, u64>,
    factor: usize,
) -> bool {
    &&& in_leaving_order(after)
    &&& if before.len() + keys.len() > timers.len() * factor {
        queues_timers(after, timers)
    } else {
        after.to_multiset() == before.to_multiset().add(entries_at(keys, expiry).to_multiset())
    }
}

/// What is left of a queue when `wanted` keys were to be given up, and `keys` were: nothing, where
/// that was not enough, else what stands behind the last of them.
pub open spec fn cut_behind<K: TimerKey>(
    before: Seq<(u64, K)>,
    after: Seq<(u64, K)>,
    keys: Seq<K>,
    timers: Map<K, u64>,
    wanted: int,
) -> bool {
    if keys.len() < wanted {
        after.len() == 0
    } else if keys.len() == 0 {
        after == before
    } else {
        exists|taken: int|
            0 < taken <= before.len() && after == #[trigger] before.skip(taken) && before[taken - 1]
                == (timers[keys.last()], keys.last())
    }
}

/// The queue holds every timer once, and nothing else.
pub open spec fn queues_timers<K: TimerKey>(queue: Seq<(u64, K)>, timers: Map<K, u64>) -> bool {
    &&& queue.no_duplicates()
    &&& forall|entry: (u64, K)| #[trigger]
        queue.contains(entry) <==> timers.contains_key(entry.1) && timers[entry.1] == entry.0
}

impl<K: TimerKey> PruneManager<K> {
    /// Starts or restarts the timers of the keys. Entries that this overtakes stay in the queue
    /// until it has grown to more than the allowed number of entries per timer.
    pub fn insert(&mut self, keys: Vec<K>, now: u64)
        requires
            old(self).wf(),
            now + old(self).ttl() <= u64::MAX,
        ensures
            final(self).wf(),
            final(self).ttl() == old(self).ttl(),
            final(self).queue_factor() == old(self).queue_factor(),
            final(self).config() == old(self).config(),
            ({
                let expiry = (now + old(self).ttl()) as u64;
                let timers = timers_with(old(self).timers(), keys@, expiry);
                &&& final(self).timers() == timers
                &&& requeued(
                    old(self).queue(),
                    final(self).queue(),
                    keys@,
                    expiry,
                    timers,
                    old(self).queue_factor(),
                )
            }),
    {
        broadcast use vstd::multiset::group_multiset_axioms;
        broadcast use vstd::seq_lib::group_to_multiset_ensures;

        let expiry: u64 = now + self.ttl_nanos;
        let ghost queue = self.queue();
        let ghost timers = self.timers();
        let mut index: usize = 0;
        proof {
            assert(timers_with(timers, keys@.take(0), expiry) =~= timers);
            assert(entries_at(keys@.take(0), expiry).to_multiset()
                =~= vstd::multiset::Multiset::empty());
        }
        while index < keys.len()
            invariant
                index <= keys@.len(),
                self.wf(),
                self.ttl() == old(self).ttl(),
                self.queue_factor() == old(self).queue_factor(),
                self.config() == old(self).config(),
                self.timers() == timers_with(timers, keys@.take(index as int), expiry),
                self.queue().to_multiset() == queue.to_multiset().add(
                    entries_at(keys@.take(index as int), expiry).to_multiset(),
                ),
            decreases keys@.len() - index,
        {
            let key = keys[index];
            let ghost earlier = keys@.take(index as int);
            let ghost before = self.queue();
            self.insert_one(key, expiry);
            proof {
                crate::seqs::lemma_take_next(keys@, index as int);
                assert(entries_at(earlier.push(key), expiry) =~= entries_at(earlier, expiry).push(
                    (expiry, key),
                ));
                vstd::seq_lib::to_multiset_build(entries_at(earlier, expiry), (expiry, key));
                assert(queue.to_multiset().add(entries_at(earlier, expiry).to_multiset()).insert(
                    (expiry, key),
                ) =~= queue.to_multiset().add(
                    entries_at(earlier, expiry).to_multiset().insert((expiry, key)),
                ));
                assert forall|other: K| earlier.push(key).contains(other) <==> earlier.contains(
                    other,
                ) || other == key by {
                    crate::seqs::lemma_push_contains(earlier, key, other);
                }
                assert(self.timers() =~= timers_with(timers, earlier.push(key), expiry));
            }
            index += 1;
        }
        proof {
            assert(keys@.take(index as int) =~= keys@);
            self.lemma_timer_count();
            vstd::seq_lib::to_multiset_len(self.queue());
            vstd::seq_lib::to_multiset_len(queue);
            vstd::seq_lib::to_multiset_len(entries_at(keys@, expiry));
        }
        let count: u64 = self.timers.len() as u64;
        let factor: u64 = self.threshold as u64;
        assert(count as u128 * factor as u128 <= u128::MAX) by (nonlinear_arith)
            requires
                count <= u64::MAX,
                factor <= u64::MAX,
        ;
        if self.expirations.len() as u128 > count as u128 * factor as u128 {
            self.rebuild_heap();
        }
        proof {
            self.lemma_queue();
        }
    }

    /// Sets one timer and queues its entry.
    fn insert_one(&mut self, key: K, expiry: u64)
        requires
            old(self).wf(),
        ensures
            final(self).wf(),
            final(self).ttl() == old(self).ttl(),
            final(self).queue_factor() == old(self).queue_factor(),
            final(self).config() == old(self).config(),
            final(self).timers() == old(self).timers().insert(key, expiry),
            final(self).queue().to_multiset() == old(self).queue().to_multiset().insert(
                (expiry, key),
            ),
    {
        let code = key.code();
        let ghost queue = self.expirations@;
        self.timers.insert(code, expiry);
        let mut position: usize = self.expirations.len();
        while position > 0 && goes_first(expiry, &key, &self.expirations[position - 1])
            invariant
                position <= queue.len(),
                self.expirations@ == queue,
                code == key.code_spec(),
                forall|i: int|
                    position <= i < queue.len() ==> leaves_before((expiry, key), #[trigger] queue[i]),
            decreases position,
        {
            position -= 1;
        }
        self.expirations.insert(position, (expiry, key));
        proof {
            let after = self.expirations@;
            let entry = (expiry, key);
            assert(after == queue.insert(position as int, entry));
            vstd::seq_lib::to_multiset_insert(queue, position as int, entry);
            assert forall|i: int, j: int| 0 <= i < j < after.len() implies !leaves_before(
                #[trigger] after[j],
                #[trigger] after[i],
            ) by {
                if i < position && j == position {
                    if i < position - 1 {
                        assert(!leaves_before(queue[position - 1], queue[i]));
                    }
                } else if i == position {
                    assert(leaves_before(entry, queue[j - 1]));
                } else {
                    let x = if i < position {
                        i
                    } else {
                        i - 1
                    };
                    let y = if j < position {
                        j
                    } else {
                        j - 1
                    };
                    assert(!leaves_before(queue[y], queue[x]));
                }
            }
            assert forall|other: KeyCode| #[trigger]
                self.timers@.contains_key(other) implies self.queued(other) by {
                if other == code {
                    assert(after[position as int] == entry);
                } else {
                    assert(old(self).timers@.contains_key(other));
                    assert(old(self).queued(other));
                    let i = choose|i: int|
                        0 <= i < queue.len() && (#[trigger] queue[i]).1.code_spec() == other
                            && queue[i].0 == old(self).timers@[other];
                    if i < position {
                        assert(after[i] == queue[i]);
                    } else {
                        assert(after[i + 1] == queue[i]);
                    }
                }
            }
            assert forall|other: K| other.code_spec() == code implies other == key by {
                K::lemma_code_unique(other, key);
            }
            assert(self.timers() =~= old(self).timers().insert(key, expiry));
        }
    }

    /// Drops the entries that are not timers any more.
    fn rebuild_heap(&mut self)
        requires
            old(self).wf(),
        ensures
            final(self).wf(),
            final(self).ttl() == old(self).ttl(),
            final(self).queue_factor() == old(self).queue_factor(),
            final(self).config() == old(self).config(),
            final(self).timers() == old(self).timers(),
            queues_timers(final(self).queue(), old(self).timers()),
    {
        let mut fresh: VecDeque<(u64, K)> = VecDeque::new();
        let ghost queue = self.expirations@;
        let ghost timers = self.timers();
        let mut index: usize = 0;
        while index < self.expirations.len()
            invariant
                self.wf(),
                index <= queue.len(),
                self.expirations@ == queue,
                in_leaving_order(queue),
                timers == self.timers(),
                strictly_leaving(fresh@),
                forall|k: int|
                    0 <= k < fresh@.len() ==> {
                        let entry = #[trigger] fresh@[k];
                        &&& timers.contains_key(entry.1)
                        &&& timers[entry.1] == entry.0
                        &&& queue.take(index as int).contains(entry)
                    },
                forall|i: int|
                    0 <= i < index && timers.contains_key((#[trigger] queue[i]).1)
                        && timers[queue[i].1] == queue[i].0 ==> fresh@.contains(queue[i]),
            decreases queue.len() - index,
        {
            let entry = self.expirations[index];
            let (expiry, key) = entry;
            let code = key.code();
            let current = match self.timers.get(&code) {
                Some(current) => *current == expiry,
                None => false,
            };
            let count: usize = fresh.len();
            let repeated = count > 0 && {
                let last = fresh[count - 1].1.code();
                last.0 == code.0 && last.1 == code.1 && last.2 == code.2 && last.3 == code.3
            };
            let ghost earlier = fresh@;
            if current && !repeated {
                fresh.push_back(entry);
            }
            proof {
                crate::seqs::lemma_take_next(queue, index as int);
                assert forall|other: (u64, K)| queue.take(index as int).contains(
                    other,
                ) implies queue.take(index + 1).contains(other) by {
                    crate::seqs::lemma_push_contains(queue.take(index as int), entry, other);
                }
                crate::seqs::lemma_push_contains(queue.take(index as int), entry, entry);
                if current && repeated {
                    K::lemma_code_unique(earlier[count - 1].1, key);
                    assert(earlier[count - 1] == entry);
                    assert(earlier.contains(entry));
                }
                if current && !repeated {
                    assert(fresh@ =~= earlier.push(entry));
                    assert forall|other: (u64, K)| fresh@.contains(other) <==> earlier.contains(
                        other,
                    ) || other == entry by {
                        crate::seqs::lemma_push_contains(earlier, entry, other);
                    }
                    assert forall|i: int, j: int| 0 <= i < j < fresh@.len() implies leaves_before(
                        #[trigger] fresh@[i],
                        #[trigger] fresh@[j],
                    ) by {
                        if j < earlier.len() {
                            assert(leaves_before(earlier[i], earlier[j]));
                        } else {
                            let last = earlier[count - 1];
                            assert(queue.take(index as int).contains(last));
                            let at = choose|at: int|
                                0 <= at < index && #[trigger] queue.take(index as int)[at] == last;
                            assert(queue[at] == last);
                            assert(!leaves_before(queue[index as int], queue[at]));
                            lemma_leaving_total(last, entry);
                            assert(last != entry);
                            if i < count - 1 {
                                assert(leaves_before(earlier[i], last));
                            }
                        }
                    }
                }
                assert forall|i: int|
                    0 <= i < index + 1 && timers.contains_key((#[trigger] queue[i]).1)
                        && timers[queue[i].1] == queue[i].0 implies fresh@.contains(queue[i]) by {
                    if i < index {
                        assert(earlier.contains(queue[i]));
                    }
                }
            }
            index += 1;
        }
        proof {
            assert(queue.take(index as int) =~= queue);
            let after = fresh@;
            assert forall|code: KeyCode| #[trigger] self.timers@.contains_key(code) implies exists|
                i: int,
            |
                0 <= i < after.len() && (#[trigger] after[i]).1.code_spec() == code && after[i].0
                    == self.timers@[code] by {
                assert(self.queued(code));
                let i = choose|i: int|
                    0 <= i < queue.len() && (#[trigger] queue[i]).1.code_spec() == code
                        && queue[i].0 == self.timers@[code];
                assert(after.contains(queue[i]));
                let k = choose|k: int| 0 <= k < after.len() && after[k] == queue[i];
                assert(after[k].1.code_spec() == code);
            }
            assert forall|entry: (u64, K)| #[trigger] after.contains(entry) <==> timers.contains_key(
                entry.1,
            ) && timers[entry.1] == entry.0 by {
                if timers.contains_key(entry.1) && timers[entry.1] == entry.0 {
                    self.lemma_timer_queued(entry.1);
                    let i = choose|i: int| 0 <= i < queue.len() && queue[i] == entry;
                    assert(after.contains(queue[i]));
                }
            }
            assert(in_leaving_order(after)) by {
                assert forall|i: int, j: int| 0 <= i < j < after.len() implies !leaves_before(
                    #[trigger] after[j],
                    #[trigger] after[i],
                ) by {
                    assert(leaves_before(after[i], after[j]));
                }
            }
            assert(after.no_duplicates()) by {
                assert forall|i: int, j: int|
                    0 <= i < after.len() && 0 <= j < after.len() && i != j implies after[i]
                    != after[j] by {
                    if i < j {
                        assert(leaves_before(after[i], after[j]));
                    } else {
                        assert(leaves_before(after[j], after[i]));
                    }
                }
            }
        }
        self.expirations = fresh;
        proof {
            assert forall|code: KeyCode| #[trigger] self.timers@.contains_key(
                code,
            ) implies self.queued(code) by {
                let i = choose|i: int|
                    0 <= i < fresh@.len() && (#[trigger] fresh@[i]).1.code_spec() == code
                        && fresh@[i].0 == self.timers@[code];
                assert(self.expirations@[i].1.code_spec() == code);
            }
            assert(self.timers() =~= timers);
        }
    }

    /// Gives up the keys that expire first until `current_size` has come down to the target, if it
    /// exceeds the limit.
    pub fn prune(&mut self, current_size: usize) -> (pruned: Result<Vec<K>, KvRouterError>)
        requires
            old(self).wf(),
        ensures
            final(self).wf(),
            final(self).ttl() == old(self).ttl(),
            final(self).queue_factor() == old(self).queue_factor(),
            final(self).config() == old(self).config(),
            match (old(self).config(), pruned) {
                (None, Err(KvRouterError::PruneFailed(reason))) => {
                    &&& reason@ == "prune config is missing"@
                    &&& final(self).timers() == old(self).timers()
                    &&& final(self).queue() == old(self).queue()
                },
                (Some(config), Ok(keys)) => {
                    let timers = old(self).timers();
                    &&& lists_leaving(keys@, timers)
                    &&& keys@.len() == pruned_count(config, current_size as int, timers.len() as int)
                    &&& forall|key: K| #[trigger] keys@.contains(key) ==> timers.contains_key(key)
                    &&& forall|key: K, other: K|
                        #![trigger keys@.contains(key), timers.contains_key(other)]
                        keys@.contains(key) && timers.contains_key(other) && !keys@.contains(other)
                            ==> leaves_before((timers[key], key), (timers[other], other))
                    &&& final(self).timers() == timers.remove_keys(keys@.to_set())
                    &&& cut_behind(
                        old(self).queue(),
                        final(self).queue(),
                        keys@,
                        timers,
                        wanted_count(config, current_size as int),
                    )
                },
                _ => false,
            },
    {
        let ghost all = self.queue();
        let ghost timers = self.timers();
        let mut pruned: Vec<K> = Vec::new();
        proof {
            self.lemma_queue();
            assert(timers.remove_keys(pruned@.to_set()) =~= timers);
        }
        let config = match self.prune_config {
            Some(config) => config,
            None => {
                return Err(
                    KvRouterError::PruneFailed(String::from_str("prune config is missing")),
                );
            },
        };
        if current_size <= config.max_tree_size {
            return Ok(pruned);
        }
        let wanted: usize = current_size.saturating_sub(config.target_size);
        let ghost mut taken: int = 0;
        assert(all.skip(0) =~= all);
        while pruned.len() < wanted && self.expirations.len() > 0
            invariant
                self.wf(),
                self.ttl() == old(self).ttl(),
                self.queue_factor() == old(self).queue_factor(),
                self.config() == old(self).config(),
                all == old(self).queue(),
                timers == old(self).timers(),
                in_leaving_order(all),
                0 <= taken <= all.len(),
                pruned@.len() <= wanted,
                wanted == 0 ==> taken == 0,
                pruned@.len() == wanted && wanted > 0 ==> taken > 0 && all[taken - 1] == (
                    timers[pruned@.last()],
                    pruned@.last(),
                ),
                self.queue() == all.skip(taken),
                self.timers() == timers.remove_keys(pruned@.to_set()),
                taken_in_order(all, taken, pruned@, timers),
            decreases all.len() - taken,
        {
            let ghost earlier = pruned@;
            proof {
                assert(self.queue() == self.expirations@);
                assert(self.queue()[0] == all[taken]);
                assert(all.skip(taken).skip(1) =~= all.skip(taken + 1));
            }
            match self.pop_first() {
                Some(key) => {
                    proof {
                        lemma_take_one(all, taken, pruned@, timers);
                    }
                    pruned.push(key);
                    proof {
                        assert(earlier.push(key).to_set() =~= earlier.to_set().insert(key)) by {
                            assert forall|other: K| earlier.push(key).contains(other)
                                <==> earlier.contains(other) || other == key by {
                                crate::seqs::lemma_push_contains(earlier, key, other);
                            }
                        }
                        assert(self.timers() =~= timers.remove_keys(pruned@.to_set()));
                    }
                },
                None => {
                    proof {
                        lemma_take_stale(all, taken, pruned@, timers);
                    }
                },
            }
            proof {
                taken = taken + 1;
            }
        }
        proof {
            assert(self.queue() == self.expirations@);
            let keys = pruned@;
            assert forall|key: K| #[trigger] keys.contains(key) implies timers.contains_key(key) by {
                let k = choose|k: int| 0 <= k < keys.len() && keys[k] == key;
                assert(taken_from(all, taken, keys, timers, k));
            }
            assert forall|key: K, other: K|
                #![trigger keys.contains(key), timers.contains_key(other)]
                keys.contains(key) && timers.contains_key(other) && !keys.contains(
                    other,
                ) implies leaves_before((timers[key], key), (timers[other], other)) by {
                let k = choose|k: int| 0 <= k < keys.len() && keys[k] == key;
                assert(taken_from(all, taken, keys, timers, k));
                let i = choose|i: int| 0 <= i < taken && #[trigger] all[i] == (timers[key], key);
                assert(all.contains((timers[other], other)));
                let j = choose|j: int| 0 <= j < all.len() && all[j] == (timers[other], other);
                if j < taken {
                    assert(taken_key(all, taken, keys, timers, j));
                }
                assert(!leaves_before(all[j], all[i]));
                lemma_leaving_total(all[i], all[j]);
            }
            lemma_listed_distinct(keys, timers);
            keys.unique_seq_to_set();
            vstd::set_lib::lemma_len_subset(keys.to_set(), timers.dom());
            if keys.len() < wanted {
                assert(all.skip(taken).len() == 0);
                assert forall|key: K| timers.dom().contains(key) implies keys.to_set().contains(
                    key,
                ) by {
                    assert(timers.contains_key(key));
                    assert(all.contains((timers[key], key)));
                    let j = choose|j: int| 0 <= j < all.len() && all[j] == (timers[key], key);
                    assert(taken_key(all, taken, keys, timers, j));
                }
                assert(keys.to_set() =~= timers.dom());
            }
        }
        Ok(pruned)
    }
}

/// How many keys have to be given up for a tree of `size` blocks.
pub open spec fn wanted_count(config: PruneConfig, size: int) -> int {
    if size <= config.max_tree_size || size <= config.target_size {
        0
    } else {
        size - config.target_size
    }
}

/// How many of `timers` keys are pruned from a tree of `size` blocks.
pub open spec fn pruned_count(config: PruneConfig, size: int, timers: int) -> int {
    let wanted = wanted_count(config, size);
    if wanted <= timers {
        wanted
    } else {
        timers
    }
}

spec fn strictly_leaving<K: TimerKey>(queue: Seq<(u64, K)>) -> bool {
    forall|i: int, j: int|
        0 <= i < j < queue.len() ==> leaves_before(#[trigger] queue[i], #[trigger] queue[j])
}

proof fn lemma_listed_distinct<K: TimerKey>(keys: Seq<K>, timers: Map<K, u64>)
    requires
        lists_leaving(keys, timers),
    ensures
        keys.no_duplicates(),
{
    assert forall|i: int, j: int|
        0 <= i < keys.len() && 0 <= j < keys.len() && i != j implies keys[i] != keys[j] by {
        if i < j {
            assert(leaves_before((timers[keys[i]], keys[i]), (timers[keys[j]], keys[j])));
        } else {
            assert(leaves_before((timers[keys[j]], keys[j]), (timers[keys[i]], keys[i])));
        }
    }
}

/// Key `k` of the list was taken from among the first entries, as the timer that it is.
spec fn taken_from<K: TimerKey>(
    all: Seq<(u64, K)>,
    taken: int,
    keys: Seq<K>,
    timers: Map<K, u64>,
    k: int,
) -> bool {
    timers.contains_key(keys[k]) && exists|i: int|
        0 <= i < taken && #[trigger] all[i] == (timers[keys[k]], keys[k])
}

/// Entry `i`, if it is a timer, is in the list.
spec fn taken_key<K: TimerKey>(
    all: Seq<(u64, K)>,
    taken: int,
    keys: Seq<K>,
    timers: Map<K, u64>,
    i: int,
) -> bool {
    timers.contains_key(all[i].1) && timers[all[i].1] == all[i].0 ==> keys.contains(all[i].1)
}

/// The list holds the timers among the first `taken` entries, in their order.
spec fn taken_in_order<K: TimerKey>(
    all: Seq<(u64, K)>,
    taken: int,
    keys: Seq<K>,
    timers: Map<K, u64>,
) -> bool {
    &&& lists_leaving(keys, timers)
    &&& forall|k: int| 0 <= k < keys.len() ==> #[trigger] taken_from(all, taken, keys, timers, k)
    &&& forall|i: int| 0 <= i < taken ==> #[trigger] taken_key(all, taken, keys, timers, i)
}

proof fn lemma_take_one<K: TimerKey>(
    all: Seq<(u64, K)>,
    taken: int,
    keys: Seq<K>,
    timers: Map<K, u64>,
)
    requires
        in_leaving_order(all),
        0 <= taken < all.len(),
        taken_in_order(all, taken, keys, timers),
        timers.contains_key(all[taken].1),
        timers[all[taken].1] == all[taken].0,
        !keys.contains(all[taken].1),
    ensures
        taken_in_order(all, taken + 1, keys.push(all[taken].1), timers),
{
    let key = all[taken].1;
    let longer = keys.push(key);
    assert forall|k: int| 0 <= k < longer.len() implies #[trigger] taken_from(
        all,
        taken + 1,
        longer,
        timers,
        k,
    ) by {
        if k < keys.len() {
            assert(taken_from(all, taken, keys, timers, k));
            let i = choose|i: int| 0 <= i < taken && #[trigger] all[i] == (timers[keys[k]], keys[k]);
            assert(all[i] == (timers[longer[k]], longer[k]));
        } else {
            assert(all[taken] == (timers[longer[k]], longer[k]));
        }
    }
    assert forall|i: int| 0 <= i < taken + 1 implies #[trigger] taken_key(
        all,
        taken + 1,
        longer,
        timers,
        i,
    ) by {
        crate::seqs::lemma_push_contains(keys, key, all[i].1);
        if i < taken {
            assert(taken_key(all, taken, keys, timers, i));
        }
    }
    assert forall|a: int, b: int|
        #![trigger longer[a], longer[b]]
        0 <= a < b < longer.len() implies leaves_before(
        (timers[longer[a]], longer[a]),
        (timers[longer[b]], longer[b]),
    ) by {
        if b < keys.len() {
            assert(longer[a] == keys[a] && longer[b] == keys[b]);
        } else {
            assert(taken_from(all, taken, keys, timers, a));
            let i = choose|i: int| 0 <= i < taken && #[trigger] all[i] == (timers[keys[a]], keys[a]);
            assert(!leaves_before(all[taken], all[i]));
            lemma_leaving_total(all[i], all[taken]);
            assert(keys[a] != key);
        }
    }
}

proof fn lemma_take_stale<K: TimerKey>(
    all: Seq<(u64, K)>,
    taken: int,
    keys: Seq<K>,
    timers: Map<K, u64>,
)
    requires
        0 <= taken < all.len(),
        taken_in_order(all, taken, keys, timers),
        !timers.contains_key(all[taken].1) || timers[all[taken].1] != all[taken].0
            || keys.contains(all[taken].1),
    ensures
        taken_in_order(all, taken + 1, keys, timers),
{
    assert forall|k: int| 0 <= k < keys.len() implies #[trigger] taken_from(
        all,
        taken + 1,
        keys,
        timers,
        k,
    ) by {
        assert(taken_from(all, taken, keys, timers, k));
    }
    assert forall|i: int| 0 <= i < taken + 1 implies #[trigger] taken_key(
        all,
        taken + 1,
        keys,
        timers,
        i,
    ) by {
        if i < taken {
            assert(taken_key(all, taken, keys, timers, i));
        }
    }
}

/// Filtering keeps exactly the end of a list of which only the end passes.
proof fn lemma_filter_suffix<A>(all: Seq<A>, from: int, keep: spec_fn(A) -> bool)
    requires
        0 <= from <= all.len(),
        forall|i: int| 0 <= i < from ==> !keep(#[trigger] all[i]),
        forall|i: int| from <= i < all.len() ==> keep(#[trigger] all[i]),
    ensures
        all.filter(keep) == all.skip(from),
    decreases all.len(),
{
    reveal(Seq::filter);
    if all.len() > 0 {
        let shorter = all.drop_last();
        if from < all.len() {
            lemma_filter_suffix(shorter, from, keep);
            assert(shorter.skip(from).push(all.last()) =~= all.skip(from));
        } else {
            lemma_filter_suffix(shorter, from - 1, keep);
            assert(shorter.skip(from - 1) =~= all.skip(from));
        }
    } else {
        assert(all.filter(keep) =~= all.skip(from));
    }
}

} // verus!
