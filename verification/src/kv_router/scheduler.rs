//! Choosing the worker that takes a request.
use crate::kv_router::overlap::{score_of, OverlapScores};
use crate::kv_router::protocols::{DpRank, WorkerId, WorkerWithDpRank};
use crate::kv_router::radix_dump::{lemma_workers_in_order, workers_in_order};
use crate::kv_router::worker_map::{lists_in_order, WorkerMap};
use crate::seqs::{lemma_push_contains, lemma_take_next, lists_increasing};
use std::collections::BTreeMap;
use vstd::prelude::*;

verus! {

broadcast use vstd::laws_cmp::group_laws_cmp;

/// How much of a request its worker already held.
#[derive(Clone, Copy, Debug, PartialEq, Eq, Structural)]
pub struct KVHitRateEvent {
    pub worker_id: WorkerId,
    pub dp_rank: DpRank,
    pub isl_blocks: usize,
    pub overlap_blocks: u32,
}

/// The load of a worker if it took a request.
#[derive(Clone, Copy, Debug, PartialEq, Eq, Structural)]
pub struct PotentialLoad {
    pub worker_id: WorkerId,
    pub dp_rank: DpRank,
    pub potential_prefill_tokens: usize,
    pub potential_decode_blocks: usize,
}

/// Why a request was not scheduled.
#[derive(Clone, Copy, Debug, PartialEq, Eq, Structural)]
pub enum KvSchedulerError {
    NoEndpoints,
    AllWorkersBusy,
    SubscriberShutdown,
}

impl KvSchedulerError {
    /// The text shown for the error.
    pub fn message(&self) -> (text: &'static str)
        ensures
            text@ == (match *self {
                KvSchedulerError::NoEndpoints => "no endpoints available to route work"@,
                KvSchedulerError::AllWorkersBusy => "all workers busy"@,
                KvSchedulerError::SubscriberShutdown => "endpoint subscriber shutdown"@,
            }),
    {
        match self {
            KvSchedulerError::NoEndpoints => "no endpoints available to route work",
            KvSchedulerError::AllWorkersBusy => "all workers busy",
            KvSchedulerError::SubscriberShutdown => "endpoint subscriber shutdown",
        }
    }
}

/// The worker chosen for a request, and how much of the request it holds.
#[derive(Clone, Copy, Debug, PartialEq, Eq, Structural)]
pub struct SchedulingResponse {
    pub best_worker: WorkerWithDpRank,
    pub overlap_blocks: u32,
}

/// The outcome of choosing a worker.
#[derive(Clone, Copy, Debug, PartialEq, Eq, Structural)]
pub struct WorkerSelectionResult {
    pub worker: WorkerWithDpRank,
    pub required_blocks: u64,
    pub overlap_blocks: u32,
}

/// What a worker reports about itself.
#[derive(Clone, Copy, Debug, PartialEq, Eq, Structural)]
pub struct ModelRuntimeConfig {
    pub total_kv_blocks: Option<u64>,
    pub max_num_seqs: Option<u64>,
    pub max_num_batched_tokens: Option<u64>,
    pub data_parallel_size: u32,
}

impl Default for ModelRuntimeConfig {
    fn default() -> (config: Self)
        ensures
            config == (ModelRuntimeConfig {
                total_kv_blocks: None,
                max_num_seqs: None,
                max_num_batched_tokens: None,
                data_parallel_size: 1,
            }),
    {
        ModelRuntimeConfig {
            total_kv_blocks: None,
            max_num_seqs: None,
            max_num_batched_tokens: None,
            data_parallel_size: 1,
        }
    }
}

/// The live workers, each with what it reports about itself, where that is known.
pub fn workers_with_configs(
    instance_ids: &[WorkerId],
    configs: &BTreeMap<WorkerId, ModelRuntimeConfig>,
) -> (workers: BTreeMap<WorkerId, Option<ModelRuntimeConfig>>)
    ensures
        workers@ == Map::new(
            |worker: WorkerId| instance_ids@.contains(worker),
            |worker: WorkerId|
                if configs@.contains_key(worker) {
                    Some(configs@[worker])
                } else {
                    None
                },
        ),
{
    let mut workers: BTreeMap<WorkerId, Option<ModelRuntimeConfig>> = BTreeMap::new();
    let mut index: usize = 0;
    while index < instance_ids.len()
        invariant
            index <= instance_ids@.len(),
            workers@ =~= Map::new(
                |worker: WorkerId| instance_ids@.take(index as int).contains(worker),
                |worker: WorkerId|
                    if configs@.contains_key(worker) {
                        Some(configs@[worker])
                    } else {
                        None
                    },
            ),
        decreases instance_ids@.len() - index,
    {
        let worker: WorkerId = instance_ids[index];
        let config = match configs.get(&worker) {
            Some(config) => Some(*config),
            None => None,
        };
        workers.insert(worker, config);
        proof {
            lemma_take_next(instance_ids@, index as int);
            assert forall|member: WorkerId| instance_ids@.take(index + 1).contains(member)
                <==> instance_ids@.take(index as int).contains(member) || member == worker by {
                lemma_push_contains(instance_ids@.take(index as int), worker, member);
            }
        }
        index += 1;
    }
    assert(instance_ids@.take(index as int) =~= instance_ids@);
    workers
}

/// What the cost of a worker is computed from.
#[derive(Clone, Copy, Debug, PartialEq, Eq, Structural)]
pub struct WorkerCost {
    pub worker: WorkerWithDpRank,
    /// Blocks of the request that the worker holds.
    pub overlap_blocks: u32,
    /// Tokens that the worker would have to prefill.
    pub prefill_tokens: usize,
    /// Blocks that the worker would have to decode.
    pub decode_blocks: usize,
}

/// The number of ranks of a worker; one where it is not reported.
pub open spec fn ranks_of(config: Option<ModelRuntimeConfig>) -> u32 {
    match config {
        Some(config) => config.data_parallel_size,
        None => 1,
    }
}

/// A worker can take a request if it is live and has the rank.
pub open spec fn is_candidate(
    workers: Map<WorkerId, Option<ModelRuntimeConfig>>,
    worker: WorkerWithDpRank,
) -> bool {
    workers.contains_key(worker.worker_id) && worker.dp_rank < ranks_of(workers[worker.worker_id])
}

/// The cost of a worker: unknown prefill is the whole request, unknown decode the full blocks of
/// the prefill.
pub open spec fn cost_of(
    worker: WorkerWithDpRank,
    overlaps: Map<WorkerWithDpRank, u32>,
    decode_blocks: Map<WorkerWithDpRank, usize>,
    prefill_tokens: Map<WorkerWithDpRank, usize>,
    isl_tokens: usize,
    block_size: u32,
) -> WorkerCost {
    let prefill = if prefill_tokens.contains_key(worker) {
        prefill_tokens[worker]
    } else {
        isl_tokens
    };
    WorkerCost {
        worker,
        overlap_blocks: score_of(overlaps, worker) as u32,
        prefill_tokens: prefill,
        decode_blocks: if decode_blocks.contains_key(worker) {
            decode_blocks[worker]
        } else {
            (prefill as int / block_size as int) as usize
        },
    }
}

/// The costs are those of all workers that could take the request, in worker order.
pub open spec fn lists_costs(
    costs: Seq<WorkerCost>,
    workers: Map<WorkerId, Option<ModelRuntimeConfig>>,
    overlaps: Map<WorkerWithDpRank, u32>,
    decode_blocks: Map<WorkerWithDpRank, usize>,
    prefill_tokens: Map<WorkerWithDpRank, usize>,
    isl_tokens: usize,
    block_size: u32,
) -> bool {
    &&& forall|i: int, j: int|
        0 <= i < j < costs.len() ==> (#[trigger] costs[i]).worker.precedes(
            (#[trigger] costs[j]).worker,
        )
    &&& forall|i: int|
        0 <= i < costs.len() ==> is_candidate(workers, (#[trigger] costs[i]).worker) && costs[i]
            == cost_of(
            costs[i].worker,
            overlaps,
            decode_blocks,
            prefill_tokens,
            isl_tokens,
            block_size,
        )
    &&& forall|worker: WorkerWithDpRank| #[trigger]
        is_candidate(workers, worker) ==> exists|i: int|
            0 <= i < costs.len() && (#[trigger] costs[i]).worker == worker
}

/// The costs of all workers that could take the request, in worker order.
pub fn worker_costs(
    workers: &BTreeMap<WorkerId, Option<ModelRuntimeConfig>>,
    overlaps: &WorkerMap<u32>,
    decode_blocks: &WorkerMap<usize>,
    prefill_tokens: &WorkerMap<usize>,
    isl_tokens: usize,
    block_size: u32,
) -> (costs: Result<Vec<WorkerCost>, KvSchedulerError>)
    requires
        isl_tokens > 0,
        block_size > 0,
    ensures
        workers@.len() == 0 <==> costs == Err::<Vec<WorkerCost>, KvSchedulerError>(
            KvSchedulerError::NoEndpoints,
        ),
        costs is Err ==> workers@.len() == 0,
        costs matches Ok(costs) ==> lists_costs(
            costs@,
            workers@,
            overlaps@,
            decode_blocks@,
            prefill_tokens@,
            isl_tokens,
            block_size,
        ),
{
    if workers.len() == 0 {
        return Err(KvSchedulerError::NoEndpoints);
    }
    let mut costs: Vec<WorkerCost> = Vec::new();
    let ids = worker_ids(workers);
    let mut index: usize = 0;
    while index < ids.len()
        invariant
            index <= ids@.len(),
            block_size > 0,
            lists_increasing(ids@, workers@.dom()),
            forall|i: int, j: int|
                0 <= i < j < costs@.len() ==> (#[trigger] costs@[i]).worker.precedes(
                    (#[trigger] costs@[j]).worker,
                ),
            forall|i: int|
                0 <= i < costs@.len() ==> {
                    &&& is_candidate(workers@, (#[trigger] costs@[i]).worker)
                    &&& costs@[i] == cost_of(
                        costs@[i].worker,
                        overlaps@,
                        decode_blocks@,
                        prefill_tokens@,
                        isl_tokens,
                        block_size,
                    )
                    &&& index < ids@.len() ==> costs@[i].worker.worker_id < ids@[index as int]
                },
            forall|worker: WorkerWithDpRank| #[trigger]
                is_candidate(workers@, worker) && ids@.take(index as int).contains(
                    worker.worker_id,
                ) ==> exists|i: int|
                    0 <= i < costs@.len() && (#[trigger] costs@[i]).worker == worker,
        decreases ids@.len() - index,
    {
        let worker_id: WorkerId = ids[index];
        assert(ids@.contains(worker_id));
        let ranks: u32 = match workers.get(&worker_id) {
            Some(Some(config)) => config.data_parallel_size,
            _ => 1,
        };
        assert(ranks == ranks_of(workers@[worker_id]));
        let mut dp_rank: u32 = 0;
        let ghost earlier = costs@;
        while dp_rank < ranks
            invariant
                dp_rank <= ranks,
                index < ids@.len(),
                block_size > 0,
                workers@.contains_key(worker_id),
                worker_id == ids@[index as int],
                ranks == ranks_of(workers@[worker_id]),
                costs@.len() == earlier.len() + dp_rank,
                forall|i: int| 0 <= i < earlier.len() ==> #[trigger] costs@[i] == earlier[i],
                forall|i: int, j: int|
                    0 <= i < j < costs@.len() ==> (#[trigger] costs@[i]).worker.precedes(
                        (#[trigger] costs@[j]).worker,
                    ),
                forall|i: int|
                    0 <= i < earlier.len() ==> (#[trigger] costs@[i]).worker.worker_id < worker_id,
                forall|i: int|
                    earlier.len() <= i < costs@.len() ==> (#[trigger] costs@[i]).worker == (
                    WorkerWithDpRank { worker_id, dp_rank: (i - earlier.len()) as u32 }),
                forall|i: int|
                    0 <= i < costs@.len() ==> is_candidate(
                        workers@,
                        (#[trigger] costs@[i]).worker,
                    ) && costs@[i] == cost_of(
                        costs@[i].worker,
                        overlaps@,
                        decode_blocks@,
                        prefill_tokens@,
                        isl_tokens,
                        block_size,
                    ),
            decreases ranks - dp_rank,
        {
            let worker = WorkerWithDpRank::new(worker_id, dp_rank);
            let overlap: u32 = match overlaps.get(&worker) {
                Some(overlap) => *overlap,
                None => 0,
            };
            let prefill: usize = match prefill_tokens.get(&worker) {
                Some(tokens) => *tokens,
                None => isl_tokens,
            };
            let decode: usize = match decode_blocks.get(&worker) {
                Some(blocks) => *blocks,
                None => prefill / block_size as usize,
            };
            let ghost before = costs@;
            costs.push(
                WorkerCost {
                    worker,
                    overlap_blocks: overlap,
                    prefill_tokens: prefill,
                    decode_blocks: decode,
                },
            );
            proof {
                assert forall|i: int, j: int| 0 <= i < j < costs@.len() implies (
                #[trigger] costs@[i]).worker.precedes((#[trigger] costs@[j]).worker) by {
                    if j < before.len() {
                        assert(before[i].worker.precedes(before[j].worker));
                    } else {
                        assert(costs@[i] == before[i]);
                    }
                }
            }
            dp_rank += 1;
        }
        proof {
            lemma_take_next(ids@, index as int);
            assert forall|worker: WorkerWithDpRank| #[trigger]
                is_candidate(workers@, worker) && ids@.take(index + 1).contains(
                    worker.worker_id,
                ) implies exists|i: int|
                0 <= i < costs@.len() && (#[trigger] costs@[i]).worker == worker by {
                lemma_push_contains(ids@.take(index as int), worker_id, worker.worker_id);
                if worker.worker_id == worker_id {
                    let at = earlier.len() + worker.dp_rank;
                    assert(costs@[at].worker == worker);
                } else {
                    let i = choose|i: int|
                        0 <= i < earlier.len() && (#[trigger] earlier[i]).worker == worker;
                    assert(costs@[i] == earlier[i]);
                }
            }
            if index + 1 < ids@.len() {
                assert(ids@[index as int] < ids@[index + 1]);
            }
        }
        index += 1;
    }
    proof {
        assert(ids@.take(index as int) =~= ids@);
        assert forall|worker: WorkerWithDpRank| #[trigger]
            is_candidate(workers@, worker) implies exists|i: int|
            0 <= i < costs@.len() && (#[trigger] costs@[i]).worker == worker by {
            assert(ids@.contains(worker.worker_id));
        }
        assert(lists_costs(
            costs@,
            workers@,
            overlaps@,
            decode_blocks@,
            prefill_tokens@,
            isl_tokens,
            block_size,
        ));
    }
    Ok(costs)
}

/// The ids of the workers, in increasing order.
fn worker_ids(workers: &BTreeMap<WorkerId, Option<ModelRuntimeConfig>>) -> (ids: Vec<WorkerId>)
    ensures
        lists_increasing(ids@, workers@.dom()),
{
    let mut ids: Vec<WorkerId> = Vec::new();
    let ghost keys = vstd::std_specs::iter::IteratorSpec::remaining(
        &vstd::std_specs::btree::spec_keys_iter(workers),
    );
    for key in iter: workers.keys()
        invariant
            iter.seq() == keys,
            ids@.len() == iter.index(),
            forall|i: int| 0 <= i < iter.index() ==> #[trigger] ids@[i] == *keys[i],
    {
        ids.push(*key);
    }
    proof {
        assert(keys.unref().to_set() == workers@.dom());
        assert(ids@ =~= keys.unref());
        assert forall|member: u64| #[trigger]
            ids@.contains(member) <==> workers@.dom().contains(member) by {
            assert(ids@.to_set().contains(member) <==> ids@.contains(member));
        }
        assert forall|i: int, j: int| 0 <= i < j < ids@.len() implies ids@[i] < ids@[j] by {
            assert(vstd::std_specs::cmp::OrdSpec::cmp_spec(&keys[i], &keys[j]) is Less);
        }
    }
    ids
}

/// The number of blocks in a worker's tree, zero where it is not known.
pub open spec fn tree_size_of(
    tree_sizes: Map<WorkerWithDpRank, usize>,
    worker: WorkerWithDpRank,
) -> usize {
    if tree_sizes.contains_key(worker) {
        tree_sizes[worker]
    } else {
        0
    }
}

/// The workers of which none costs less.
pub open spec fn cheapest(costs: Map<WorkerWithDpRank, i64>) -> Set<WorkerWithDpRank> {
    Set::new(
        |worker: WorkerWithDpRank|
            costs.contains_key(worker) && forall|other: WorkerWithDpRank| #[trigger]
                costs.contains_key(other) ==> costs[worker] <= costs[other],
    )
}

/// Lists the workers of which none costs less, in worker order. Costs are given by rank.
pub fn lowest_workers(costs: &WorkerMap<i64>) -> (lowest: Vec<WorkerWithDpRank>)
    requires
        costs@ != Map::<WorkerWithDpRank, i64>::empty(),
    ensures
        lowest@.len() > 0,
        lists_in_order(lowest@, cheapest(costs@)),
{
    let workers = costs.keys();
    let mut lowest: Vec<WorkerWithDpRank> = Vec::new();
    let mut least: i64 = i64::MAX;
    let mut index: usize = 0;
    proof {
        if workers@.len() == 0 {
            assert(costs@ =~= Map::empty()) by {
                assert forall|worker: WorkerWithDpRank| !costs@.contains_key(worker) by {
                    assert(!workers@.contains(worker));
                }
            }
        }
    }
    while index < workers.len()
        invariant
            index <= workers@.len(),
            lists_in_order(workers@, costs@.dom()),
            index > 0 ==> lowest@.len() > 0,
            forall|i: int|
                0 <= i < index ==> costs@[#[trigger] workers@[i]] >= least && (
                costs@[workers@[i]] == least ==> lowest@.contains(workers@[i])),
            forall|i: int|
                0 <= i < lowest@.len() ==> costs@[#[trigger] lowest@[i]] == least
                    && workers@.take(index as int).contains(lowest@[i]),
            forall|i: int, j: int|
                0 <= i < j < lowest@.len() ==> (#[trigger] lowest@[i]).precedes(
                    #[trigger] lowest@[j],
                ),
        decreases workers@.len() - index,
    {
        let worker = workers[index];
        assert(workers@.contains(worker));
        let cost: i64 = match costs.get(&worker) {
            Some(cost) => *cost,
            None => i64::MAX,
        };
        let ghost before = lowest@;
        let ghost at = index as int;
        proof {
            lemma_take_next(workers@, at);
            assert forall|other: WorkerWithDpRank| workers@.take(at + 1).contains(other)
                <==> workers@.take(at).contains(other) || other == worker by {
                lemma_push_contains(workers@.take(at), worker, other);
            }
        }
        if lowest.len() == 0 || cost < least {
            lowest = Vec::new();
            least = cost;
            lowest.push(worker);
            assert(lowest@[0] == worker);
            assert(lowest@.contains(worker));
        } else if cost == least {
            lowest.push(worker);
            proof {
                assert forall|other: WorkerWithDpRank| #[trigger]
                    lowest@.contains(other) <==> before.contains(other) || other == worker by {
                    lemma_push_contains(before, worker, other);
                }
                assert(lowest@.contains(worker));
                assert forall|i: int| 0 <= i < before.len() implies (
                #[trigger] before[i]).precedes(worker) by {
                    let k = choose|k: int|
                        0 <= k < workers@.take(at).len() && workers@.take(at)[k] == before[i];
                    assert(workers@[k].precedes(workers@[at]));
                }
            }
        }
        proof {
            assert(costs@.contains_key(worker));
            assert(cost == costs@[worker]);
            assert forall|i: int| 0 <= i < at + 1 implies costs@[#[trigger] workers@[i]] >= least && (
            costs@[workers@[i]] == least ==> lowest@.contains(workers@[i])) by {
                if i == at {
                    assert(workers@[i] == worker);
                }
            }
        }
        index += 1;
    }
    proof {
        let set = cheapest(costs@);
        assert forall|worker: WorkerWithDpRank| #[trigger]
            lowest@.contains(worker) <==> set.contains(worker) by {
            if lowest@.contains(worker) {
                let i = choose|i: int| 0 <= i < lowest@.len() && lowest@[i] == worker;
                assert(workers@.take(index as int) =~= workers@);
                assert(workers@.contains(lowest@[i]));
                assert forall|other: WorkerWithDpRank| #[trigger]
                    costs@.contains_key(other) implies costs@[worker] <= costs@[other] by {
                    assert(workers@.contains(other));
                    let k = choose|k: int| 0 <= k < workers@.len() && workers@[k] == other;
                    assert(costs@[workers@[k]] >= least);
                }
            }
            if set.contains(worker) {
                assert(workers@.contains(worker));
                let k = choose|k: int| 0 <= k < workers@.len() && workers@[k] == worker;
                assert(costs@[workers@[k]] >= least);
                assert(costs@.contains_key(lowest@[0])) by {
                    assert(workers@.take(index as int) =~= workers@);
                    assert(workers@.contains(lowest@[0]));
                }
                assert(costs@[lowest@[0]] == least);
            }
        }
    }
    lowest
}

/// Whether a worker is the first among some whose tree is not larger than another's.
pub open spec fn is_best(
    candidates: Seq<WorkerWithDpRank>,
    tree_sizes: Map<WorkerWithDpRank, usize>,
    best: WorkerWithDpRank,
) -> bool {
    exists|at: int|
        {
            &&& 0 <= at < candidates.len()
            &&& best == #[trigger] candidates[at]
            &&& forall|i: int|
                0 <= i < candidates.len() ==> tree_size_of(tree_sizes, best) <= tree_size_of(
                    tree_sizes,
                    #[trigger] candidates[i],
                )
            &&& forall|i: int|
                0 <= i < at ==> tree_size_of(tree_sizes, best) < tree_size_of(
                    tree_sizes,
                    #[trigger] candidates[i],
                )
        }
}

/// Of several workers with the same cost, the one with the smallest tree is best; of several such,
/// the first.
pub fn break_tie(
    candidates: &[WorkerWithDpRank],
    tree_sizes: &WorkerMap<usize>,
) -> (best: WorkerWithDpRank)
    requires
        candidates@.len() > 0,
    ensures
        is_best(candidates@, tree_sizes@, best),
{
    let mut at: usize = 0;
    let mut size: usize = match tree_sizes.get(&candidates[0]) {
        Some(size) => *size,
        None => 0,
    };
    let mut index: usize = 1;
    while index < candidates.len()
        invariant
            at < index <= candidates@.len(),
            size == tree_size_of(tree_sizes@, candidates@[at as int]),
            forall|i: int|
                0 <= i < index ==> size <= tree_size_of(tree_sizes@, #[trigger] candidates@[i]),
            forall|i: int|
                0 <= i < at ==> size < tree_size_of(tree_sizes@, #[trigger] candidates@[i]),
        decreases candidates@.len() - index,
    {
        let other: usize = match tree_sizes.get(&candidates[index]) {
            Some(size) => *size,
            None => 0,
        };
        if other < size {
            at = index;
            size = other;
        }
        index += 1;
    }
    assert(candidates@[at as int] == candidates@[at as int]);
    candidates[at]
}

/// The number of blocks that hold a number of tokens.
pub open spec fn blocks_for(tokens: int, block_size: int) -> int {
    (tokens + block_size - 1) / block_size
}

/// The outcome once the best worker is known.
pub fn selection_of(
    worker: WorkerWithDpRank,
    overlaps: &WorkerMap<u32>,
    isl_tokens: usize,
    block_size: u32,
) -> (selection: WorkerSelectionResult)
    requires
        block_size > 0,
    ensures
        selection.worker == worker,
        selection.required_blocks == blocks_for(isl_tokens as int, block_size as int),
        selection.overlap_blocks == score_of(overlaps@, worker),
{
    let size: usize = block_size as usize;
    let full: usize = isl_tokens / size;
    let rest: usize = isl_tokens % size;
    proof {
        vstd::arithmetic::div_mod::lemma_fundamental_div_mod(isl_tokens as int, size as int);
        let quotient = full as int;
        if rest == 0 {
            assert(isl_tokens + size - 1 == quotient * size + (size - 1)) by (nonlinear_arith)
                requires
                    isl_tokens == size * quotient + rest,
                    rest == 0,
            ;
            vstd::arithmetic::div_mod::lemma_fundamental_div_mod_converse(
                isl_tokens + size - 1,
                size as int,
                quotient,
                size - 1,
            );
        } else {
            assert(isl_tokens + size - 1 == (quotient + 1) * size + (rest - 1)) by (nonlinear_arith)
                requires
                    isl_tokens == size * quotient + rest,
            ;
            vstd::arithmetic::div_mod::lemma_fundamental_div_mod_converse(
                isl_tokens + size - 1,
                size as int,
                quotient + 1,
                rest - 1,
            );
            assert(full < isl_tokens || size == 1) by (nonlinear_arith)
                requires
                    isl_tokens == size * full + rest,
                    rest > 0,
                    size > 0,
            ;
        }
    }
    let required: usize = if rest == 0 {
        full
    } else {
        full + 1
    };
    let overlap_blocks: u32 = match overlaps.get(&worker) {
        Some(overlap) => *overlap,
        None => 0,
    };
    WorkerSelectionResult { worker, required_blocks: required as u64, overlap_blocks }
}

/// Chooses among workers that cost the same, or takes the only one, for a request of `isl_tokens`
/// tokens.
pub fn select_worker(
    candidates: &[WorkerWithDpRank],
    overlaps: &OverlapScores,
    isl_tokens: usize,
    block_size: u32,
) -> (selection: WorkerSelectionResult)
    requires
        candidates@.len() > 0,
        block_size > 0,
    ensures
        is_best(candidates@, overlaps.tree_sizes@, selection.worker),
        selection.required_blocks == blocks_for(isl_tokens as int, block_size as int),
        selection.overlap_blocks == score_of(overlaps.scores@, selection.worker),
{
    let best = break_tie(candidates, &overlaps.tree_sizes);
    selection_of(best, &overlaps.scores, isl_tokens, block_size)
}

/// Where the choice is among the workers of which none costs less, no worker costs less than the
/// one that is chosen.
pub proof fn law_chosen_worker_is_cheapest(
    costs: Map<WorkerWithDpRank, i64>,
    candidates: Seq<WorkerWithDpRank>,
    tree_sizes: Map<WorkerWithDpRank, usize>,
    best: WorkerWithDpRank,
    other: WorkerWithDpRank,
)
    requires
        lists_in_order(candidates, cheapest(costs)),
        is_best(candidates, tree_sizes, best),
        costs.contains_key(other),
    ensures
        costs.contains_key(best),
        costs[best] <= costs[other],
        costs[other] == costs[best] ==> tree_size_of(tree_sizes, best) <= tree_size_of(
            tree_sizes,
            other,
        ),
{
    let at = choose|at: int| 0 <= at < candidates.len() && best == #[trigger] candidates[at];
    assert(candidates.contains(candidates[at]));
    if costs[other] == costs[best] {
        assert(cheapest(costs).contains(other));
        assert(candidates.contains(other));
        let i = choose|i: int| 0 <= i < candidates.len() && candidates[i] == other;
        assert(tree_size_of(tree_sizes, best) <= tree_size_of(tree_sizes, candidates[i]));
    }
}

/// What is done with a request once the choice was made.
#[derive(Clone, Debug)]
pub enum ScheduleStep {
    /// Report the hit rate and answer the request; with an id, the worker is booked for it.
    Answer { event: KVHitRateEvent, response: SchedulingResponse, book: Option<String> },
    /// Wait this many milliseconds and take the next request.
    WaitMs(u64),
    Stop,
}

/// How long the scheduler waits when nobody can take a request, in milliseconds.
pub const RETRY_MS: u64 = 5;

/// Decides what follows from a choice. A request that only asks books nothing, nor does one
/// without an id.
pub fn schedule_step(
    selected: Result<WorkerSelectionResult, KvSchedulerError>,
    update_states: bool,
    maybe_request_id: Option<String>,
) -> (step: ScheduleStep)
    requires
        selected matches Ok(selection) ==> selection.required_blocks <= usize::MAX,
    ensures
        match selected {
            Ok(selection) => step == (ScheduleStep::Answer {
                event: KVHitRateEvent {
                    worker_id: selection.worker.worker_id,
                    dp_rank: selection.worker.dp_rank,
                    isl_blocks: selection.required_blocks as usize,
                    overlap_blocks: selection.overlap_blocks,
                },
                response: SchedulingResponse {
                    best_worker: selection.worker,
                    overlap_blocks: selection.overlap_blocks,
                },
                book: if update_states {
                    maybe_request_id
                } else {
                    None
                },
            }),
            Err(KvSchedulerError::SubscriberShutdown) => step is Stop,
            Err(_) => step == ScheduleStep::WaitMs(RETRY_MS),
        },
{
    match selected {
        Ok(selection) => ScheduleStep::Answer {
            event: KVHitRateEvent {
                worker_id: selection.worker.worker_id,
                dp_rank: selection.worker.dp_rank,
                isl_blocks: selection.required_blocks as usize,
                overlap_blocks: selection.overlap_blocks,
            },
            response: SchedulingResponse {
                best_worker: selection.worker,
                overlap_blocks: selection.overlap_blocks,
            },
            book: if update_states {
                maybe_request_id
            } else {
                None
            },
        },
        Err(KvSchedulerError::NoEndpoints) => ScheduleStep::WaitMs(RETRY_MS),
        Err(KvSchedulerError::AllWorkersBusy) => ScheduleStep::WaitMs(RETRY_MS),
        Err(KvSchedulerError::SubscriberShutdown) => ScheduleStep::Stop,
    }
}

/// The load of a worker if it took a request of `isl_tokens` tokens.
pub open spec fn load_of(
    worker: WorkerWithDpRank,
    decode_blocks: Map<WorkerWithDpRank, usize>,
    prefill_tokens: Map<WorkerWithDpRank, usize>,
    isl_tokens: usize,
) -> PotentialLoad {
    PotentialLoad {
        worker_id: worker.worker_id,
        dp_rank: worker.dp_rank,
        potential_prefill_tokens: if prefill_tokens.contains_key(worker) {
            prefill_tokens[worker]
        } else {
            isl_tokens
        },
        potential_decode_blocks: if decode_blocks.contains_key(worker) {
            decode_blocks[worker]
        } else {
            0
        },
    }
}

/// The loads of all workers about which something is known, in worker order.
pub fn potential_loads(
    decode_blocks: &WorkerMap<usize>,
    prefill_tokens: &WorkerMap<usize>,
    isl_tokens: usize,
) -> (loads: Vec<PotentialLoad>)
    ensures
        ({
            let workers = workers_in_order(decode_blocks@.dom().union(prefill_tokens@.dom()));
            &&& lists_in_order(workers, decode_blocks@.dom().union(prefill_tokens@.dom()))
            &&& loads@ == workers.map_values(
                |worker: WorkerWithDpRank|
                    load_of(worker, decode_blocks@, prefill_tokens@, isl_tokens),
            )
        }),
{
    let mut all: WorkerMap<usize> = WorkerMap::new();
    all.extend(decode_blocks);
    all.extend(prefill_tokens);
    let workers = all.keys();
    proof {
        assert(all@.dom() =~= decode_blocks@.dom().union(prefill_tokens@.dom()));
        lemma_workers_in_order(workers@, all@.dom());
    }
    let ghost wanted = workers@.map_values(
        |worker: WorkerWithDpRank| load_of(worker, decode_blocks@, prefill_tokens@, isl_tokens),
    );
    let mut loads: Vec<PotentialLoad> = Vec::new();
    let mut index: usize = 0;
    while index < workers.len()
        invariant
            index <= workers@.len(),
            wanted == workers@.map_values(
                |worker: WorkerWithDpRank|
                    load_of(worker, decode_blocks@, prefill_tokens@, isl_tokens),
            ),
            loads@ =~= wanted.take(index as int),
        decreases workers@.len() - index,
    {
        let worker = workers[index];
        let potential_prefill_tokens: usize = match prefill_tokens.get(&worker) {
            Some(tokens) => *tokens,
            None => isl_tokens,
        };
        let potential_decode_blocks: usize = match decode_blocks.get(&worker) {
            Some(blocks) => *blocks,
            None => 0,
        };
        loads.push(
            PotentialLoad {
                worker_id: worker.worker_id,
                dp_rank: worker.dp_rank,
                potential_prefill_tokens,
                potential_decode_blocks,
            },
        );
        index += 1;
    }
    assert(loads@ =~= wanted);
    loads
}

} // verus!
