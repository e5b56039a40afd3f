//! What choosing a worker keeps to, whatever is known of the workers.
use crate::kv_router::overlap::OverlapScores;
use crate::kv_router::protocols::{WorkerId, WorkerWithDpRank};
use crate::kv_router::scheduler::{
    break_tie, lowest_workers, potential_loads, schedule_step, select_worker, selection_of,
    worker_costs, workers_with_configs, KvSchedulerError, ModelRuntimeConfig, PotentialLoad,
    ScheduleStep, WorkerCost, WorkerSelectionResult,
};
use crate::kv_router::worker_map::WorkerMap;
use std::collections::BTreeMap;
use vstd::prelude::*;

verus! {

/// A worker whose decode blocks are reported is listed with exactly that many, and one whose
/// prefill tokens are reported with exactly that many. Prefill tokens that are not reported are
/// those of the whole request; decode blocks that are not reported are the full blocks of the
/// prefill tokens. Blocks held are those of the overlap, zero where there is none.
pub proof fn law_listed_costs_are_the_reported_ones(
    workers: &BTreeMap<WorkerId, Option<ModelRuntimeConfig>>,
    overlaps: &WorkerMap<u32>,
    decode_blocks: &WorkerMap<usize>,
    prefill_tokens: &WorkerMap<usize>,
    isl_tokens: usize,
    block_size: u32,
    costs: Vec<WorkerCost>,
    i: int,
)
    requires
        block_size > 0,
        call_ensures(
            worker_costs,
            (workers, overlaps, decode_blocks, prefill_tokens, isl_tokens, block_size),
            Ok(costs),
        ),
        0 <= i < costs@.len(),
    ensures
        ({
            let cost = costs@[i];
            &&& decode_blocks@.contains_key(cost.worker) ==> cost.decode_blocks
                == decode_blocks@[cost.worker]
            &&& !decode_blocks@.contains_key(cost.worker) ==> cost.decode_blocks * block_size
                <= cost.prefill_tokens < (cost.decode_blocks + 1) * block_size
            &&& prefill_tokens@.contains_key(cost.worker) ==> cost.prefill_tokens
                == prefill_tokens@[cost.worker]
            &&& !prefill_tokens@.contains_key(cost.worker) ==> cost.prefill_tokens == isl_tokens
            &&& overlaps@.contains_key(cost.worker) ==> cost.overlap_blocks
                == overlaps@[cost.worker]
            &&& !overlaps@.contains_key(cost.worker) ==> cost.overlap_blocks == 0
        }),
{
    let prefill = costs@[i].prefill_tokens as int;
    let size = block_size as int;
    vstd::arithmetic::div_mod::lemma_fundamental_div_mod(prefill, size);
    vstd::arithmetic::div_mod::lemma_div_is_ordered_by_denominator(prefill, 1, size);
    vstd::arithmetic::div_mod::lemma_div_pos_is_pos(prefill, size);
    assert((prefill / size) * size <= prefill < (prefill / size + 1) * size) by (nonlinear_arith)
        requires
            size > 0,
            prefill == size * (prefill / size) + prefill % size,
            0 <= prefill % size < size,
    ;
}

/// The ranks of the live workers are listed, each once, in the order of workers and of ranks, and
/// nothing else is listed. A worker that reports nothing about itself has one rank.
pub proof fn law_every_rank_of_a_live_worker_is_listed_once(
    workers: &BTreeMap<WorkerId, Option<ModelRuntimeConfig>>,
    overlaps: &WorkerMap<u32>,
    decode_blocks: &WorkerMap<usize>,
    prefill_tokens: &WorkerMap<usize>,
    isl_tokens: usize,
    block_size: u32,
    costs: Vec<WorkerCost>,
    worker: WorkerWithDpRank,
)
    requires
        call_ensures(
            worker_costs,
            (workers, overlaps, decode_blocks, prefill_tokens, isl_tokens, block_size),
            Ok(costs),
        ),
    ensures
        (exists|i: int| 0 <= i < costs@.len() && (#[trigger] costs@[i]).worker == worker) <==> (
        workers@.contains_key(worker.worker_id) && match workers@[worker.worker_id] {
            Some(config) => worker.dp_rank < config.data_parallel_size,
            None => worker.dp_rank == 0,
        }),
        forall|i: int, j: int|
            #![trigger costs@[i], costs@[j]]
            0 <= i < j < costs@.len() ==> costs@[i].worker.worker_id < costs@[j].worker.worker_id
                || (costs@[i].worker.worker_id == costs@[j].worker.worker_id
                && costs@[i].worker.dp_rank < costs@[j].worker.dp_rank),
{
    assert(crate::kv_router::scheduler::is_candidate(workers@, worker) ==> exists|i: int|
        0 <= i < costs@.len() && (#[trigger] costs@[i]).worker == worker);
    assert forall|i: int, j: int|
        #![trigger costs@[i], costs@[j]]
        0 <= i < j < costs@.len() implies costs@[i].worker.worker_id < costs@[j].worker.worker_id
        || (costs@[i].worker.worker_id == costs@[j].worker.worker_id && costs@[i].worker.dp_rank
        < costs@[j].worker.dp_rank) by {
        assert(costs@[i].worker.precedes(costs@[j].worker));
    }
}

/// Where one worker reports more decode blocks and everything else stays, that worker is listed
/// with so many more, and every other worker as before.
pub proof fn law_more_decode_blocks_cost_more(
    workers: &BTreeMap<WorkerId, Option<ModelRuntimeConfig>>,
    overlaps: &WorkerMap<u32>,
    decode_blocks: &WorkerMap<usize>,
    more_blocks: &WorkerMap<usize>,
    prefill_tokens: &WorkerMap<usize>,
    isl_tokens: usize,
    block_size: u32,
    costs: Vec<WorkerCost>,
    more_costs: Vec<WorkerCost>,
    worker: WorkerWithDpRank,
    i: int,
    j: int,
)
    requires
        call_ensures(
            worker_costs,
            (workers, overlaps, decode_blocks, prefill_tokens, isl_tokens, block_size),
            Ok(costs),
        ),
        call_ensures(
            worker_costs,
            (workers, overlaps, more_blocks, prefill_tokens, isl_tokens, block_size),
            Ok(more_costs),
        ),
        decode_blocks@.contains_key(worker),
        more_blocks@.contains_key(worker),
        more_blocks@ == decode_blocks@.insert(worker, more_blocks@[worker]),
        more_blocks@[worker] > decode_blocks@[worker],
        0 <= i < costs@.len(),
        0 <= j < more_costs@.len(),
        costs@[i].worker == more_costs@[j].worker,
    ensures
        more_costs@[j].prefill_tokens == costs@[i].prefill_tokens,
        more_costs@[j].overlap_blocks == costs@[i].overlap_blocks,
        costs@[i].worker == worker ==> more_costs@[j].decode_blocks - costs@[i].decode_blocks
            == more_blocks@[worker] - decode_blocks@[worker],
        costs@[i].worker != worker ==> more_costs@[j] == costs@[i],
{
}

/// Without workers there is nobody to choose, and only then.
pub proof fn law_no_endpoints_without_workers(
    workers: &BTreeMap<WorkerId, Option<ModelRuntimeConfig>>,
    overlaps: &WorkerMap<u32>,
    decode_blocks: &WorkerMap<usize>,
    prefill_tokens: &WorkerMap<usize>,
    isl_tokens: usize,
    block_size: u32,
    costs: Result<Vec<WorkerCost>, KvSchedulerError>,
)
    requires
        call_ensures(
            worker_costs,
            (workers, overlaps, decode_blocks, prefill_tokens, isl_tokens, block_size),
            costs,
        ),
    ensures
        costs is Err <==> workers@.len() == 0,
        costs matches Err(error) ==> error is NoEndpoints,
{
}

/// A worker is live in the outcome exactly where its instance is, and carries what is known of it.
pub proof fn law_configs_are_those_of_the_instances(
    instance_ids: &[WorkerId],
    configs: &BTreeMap<WorkerId, ModelRuntimeConfig>,
    workers: BTreeMap<WorkerId, Option<ModelRuntimeConfig>>,
    worker: WorkerId,
)
    requires
        call_ensures(workers_with_configs, (instance_ids, configs), workers),
    ensures
        workers@.contains_key(worker) <==> instance_ids@.contains(worker),
        workers@.contains_key(worker) && configs@.contains_key(worker) ==> workers@[worker] == Some(
            configs@[worker],
        ),
        workers@.contains_key(worker) && !configs@.contains_key(worker) ==> workers@[worker] is None,
{
}

/// The workers listed as lowest are those that no worker undercuts: each of them costs no more
/// than any worker, and whoever costs as little as one of them is among them.
pub proof fn law_nobody_undercuts_the_lowest(
    costs: &WorkerMap<i64>,
    lowest: Vec<WorkerWithDpRank>,
    i: int,
    other: WorkerWithDpRank,
)
    requires
        call_ensures(lowest_workers, (costs,), lowest),
        0 <= i < lowest@.len(),
        costs@.contains_key(other),
    ensures
        costs@.contains_key(lowest@[i]),
        costs@[lowest@[i]] <= costs@[other],
        lowest@.contains(other) <==> costs@[other] == costs@[lowest@[i]],
        forall|j: int|
            i < j < lowest@.len() ==> lowest@[i].worker_id < (#[trigger] lowest@[j]).worker_id || (
            lowest@[i].worker_id == lowest@[j].worker_id && lowest@[i].dp_rank
                < lowest@[j].dp_rank),
{
    let set = crate::kv_router::scheduler::cheapest(costs@);
    assert(lowest@.contains(lowest@[i]));
    assert(set.contains(lowest@[i]));
    assert(lowest@.contains(other) <==> set.contains(other));
    assert forall|j: int| i < j < lowest@.len() implies lowest@[i].worker_id < (
    #[trigger] lowest@[j]).worker_id || (lowest@[i].worker_id == lowest@[j].worker_id
        && lowest@[i].dp_rank < lowest@[j].dp_rank) by {
        assert(lowest@[i].precedes(lowest@[j]));
    }
}

/// Whoever wins a tie is one of those who tied, and no other has a smaller tree; one that comes
/// before the winner has a larger tree. A tree that is not known is empty.
pub proof fn law_ties_go_to_the_smallest_tree(
    candidates: &[WorkerWithDpRank],
    tree_sizes: &WorkerMap<usize>,
    best: WorkerWithDpRank,
)
    requires
        call_ensures(break_tie, (candidates, tree_sizes), best),
    ensures
        exists|at: int|
            {
                &&& 0 <= at < candidates@.len()
                &&& #[trigger] candidates@[at] == best
                &&& forall|i: int|
                    0 <= i < candidates@.len() ==> (if tree_sizes@.contains_key(best) {
                        tree_sizes@[best] as int
                    } else {
                        0
                    }) <= (if tree_sizes@.contains_key(#[trigger] candidates@[i]) {
                        tree_sizes@[candidates@[i]] as int
                    } else {
                        0
                    })
                &&& forall|i: int|
                    0 <= i < at ==> (if tree_sizes@.contains_key(best) {
                        tree_sizes@[best] as int
                    } else {
                        0
                    }) < (if tree_sizes@.contains_key(#[trigger] candidates@[i]) {
                        tree_sizes@[candidates@[i]] as int
                    } else {
                        0
                    })
            },
{
    let at = choose|at: int|
        {
            &&& 0 <= at < candidates@.len()
            &&& best == #[trigger] candidates@[at]
            &&& forall|i: int|
                0 <= i < candidates@.len() ==> crate::kv_router::scheduler::tree_size_of(
                    tree_sizes@,
                    best,
                ) <= crate::kv_router::scheduler::tree_size_of(
                    tree_sizes@,
                    #[trigger] candidates@[i],
                )
            &&& forall|i: int|
                0 <= i < at ==> crate::kv_router::scheduler::tree_size_of(tree_sizes@, best)
                    < crate::kv_router::scheduler::tree_size_of(
                    tree_sizes@,
                    #[trigger] candidates@[i],
                )
        };
    assert(candidates@[at] == best);
}

proof fn lemma_blocks_hold_tokens(tokens: int, size: int)
    requires
        size > 0,
        tokens >= 0,
    ensures
        ({
            let blocks = (tokens + size - 1) / size;
            (blocks - 1) * size < tokens <= blocks * size
        }),
{
    let sum = tokens + size - 1;
    vstd::arithmetic::div_mod::lemma_fundamental_div_mod(sum, size);
    assert((sum / size - 1) * size < tokens <= (sum / size) * size) by (nonlinear_arith)
        requires
            size > 0,
            sum == tokens + size - 1,
            sum == size * (sum / size) + sum % size,
            0 <= sum % size < size,
    ;
}

/// The blocks that a request requires are as few as hold all its tokens, and the blocks held are
/// those of the worker's overlap, zero where it has none.
pub proof fn law_selection_counts_blocks(
    worker: WorkerWithDpRank,
    overlaps: &WorkerMap<u32>,
    isl_tokens: usize,
    block_size: u32,
    selection: WorkerSelectionResult,
)
    requires
        block_size > 0,
        call_ensures(selection_of, (worker, overlaps, isl_tokens, block_size), selection),
    ensures
        selection.worker == worker,
        isl_tokens <= selection.required_blocks * block_size,
        (selection.required_blocks - 1) * block_size < isl_tokens,
        overlaps@.contains_key(worker) ==> selection.overlap_blocks == overlaps@[worker],
        !overlaps@.contains_key(worker) ==> selection.overlap_blocks == 0,
{
    lemma_blocks_hold_tokens(isl_tokens as int, block_size as int);
}

/// The worker selected is one of the candidates, none of which has a smaller tree; what is said of
/// it is said of that worker.
pub proof fn law_selected_worker_is_a_candidate(
    candidates: &[WorkerWithDpRank],
    overlaps: &OverlapScores,
    isl_tokens: usize,
    block_size: u32,
    selection: WorkerSelectionResult,
)
    requires
        block_size > 0,
        call_ensures(select_worker, (candidates, overlaps, isl_tokens, block_size), selection),
    ensures
        candidates@.contains(selection.worker),
        forall|i: int|
            0 <= i < candidates@.len() && overlaps.tree_sizes@.contains_key(
                #[trigger] candidates@[i],
            ) && overlaps.tree_sizes@.contains_key(selection.worker)
                ==> overlaps.tree_sizes@[selection.worker]
                <= overlaps.tree_sizes@[candidates@[i]],
        forall|i: int|
            0 <= i < candidates@.len() && !overlaps.tree_sizes@.contains_key(
                #[trigger] candidates@[i],
            ) && overlaps.tree_sizes@.contains_key(selection.worker)
                ==> overlaps.tree_sizes@[selection.worker] == 0,
        isl_tokens <= selection.required_blocks * block_size,
        (selection.required_blocks - 1) * block_size < isl_tokens,
        overlaps.scores@.contains_key(selection.worker) ==> selection.overlap_blocks
            == overlaps.scores@[selection.worker],
        !overlaps.scores@.contains_key(selection.worker) ==> selection.overlap_blocks == 0,
{
    lemma_blocks_hold_tokens(isl_tokens as int, block_size as int);
    let at = choose|at: int|
        0 <= at < candidates@.len() && selection.worker == #[trigger] candidates@[at];
    assert(candidates@[at] == selection.worker);
}

/// Who is answered, who is reported and what is counted are of one worker; a booking is made only
/// for a request with an id that may change states. Without a worker the scheduler waits, or stops
/// when it was shut down.
pub proof fn law_answers_name_the_selected_worker(
    selected: Result<WorkerSelectionResult, KvSchedulerError>,
    update_states: bool,
    request_id: Option<String>,
    step: ScheduleStep,
)
    requires
        selected matches Ok(selection) ==> selection.required_blocks <= usize::MAX,
        call_ensures(schedule_step, (selected, update_states, request_id), step),
    ensures
        selected is Ok <==> step is Answer,
        step matches ScheduleStep::Answer { event, response, book } ==> {
            &&& response.best_worker == selected->Ok_0.worker
            &&& event.worker_id == response.best_worker.worker_id
            &&& event.dp_rank == response.best_worker.dp_rank
            &&& event.overlap_blocks == response.overlap_blocks == selected->Ok_0.overlap_blocks
            &&& event.isl_blocks == selected->Ok_0.required_blocks
            &&& book is Some <==> update_states && request_id is Some
            &&& book is Some ==> book == request_id
        },
        step is Stop <==> (selected matches Err(error) && error is SubscriberShutdown),
        step matches ScheduleStep::WaitMs(wait) ==> wait == 5,
{
}

/// The potential loads are those of every worker about which something is known: what is reported
/// counts, prefill tokens that are not reported are those of the request, and decode blocks that
/// are not reported are none.
pub proof fn law_potential_loads_are_the_reported_ones(
    decode_blocks: &WorkerMap<usize>,
    prefill_tokens: &WorkerMap<usize>,
    isl_tokens: usize,
    loads: Vec<PotentialLoad>,
    worker: WorkerWithDpRank,
)
    requires
        call_ensures(potential_loads, (decode_blocks, prefill_tokens, isl_tokens), loads),
    ensures
        (exists|i: int|
            0 <= i < loads@.len() && (#[trigger] loads@[i]).worker_id == worker.worker_id
                && loads@[i].dp_rank == worker.dp_rank) <==> decode_blocks@.contains_key(worker)
            || prefill_tokens@.contains_key(worker),
        forall|i: int|
            0 <= i < loads@.len() && (#[trigger] loads@[i]).worker_id == worker.worker_id
                && loads@[i].dp_rank == worker.dp_rank ==> {
                &&& prefill_tokens@.contains_key(worker) ==> loads@[i].potential_prefill_tokens
                    == prefill_tokens@[worker]
                &&& !prefill_tokens@.contains_key(worker) ==> loads@[i].potential_prefill_tokens
                    == isl_tokens
                &&& decode_blocks@.contains_key(worker) ==> loads@[i].potential_decode_blocks
                    == decode_blocks@[worker]
                &&& !decode_blocks@.contains_key(worker) ==> loads@[i].potential_decode_blocks == 0
            },
        forall|i: int, j: int|
            #![trigger loads@[i], loads@[j]]
            0 <= i < j < loads@.len() ==> loads@[i].worker_id < loads@[j].worker_id || (
            loads@[i].worker_id == loads@[j].worker_id && loads@[i].dp_rank < loads@[j].dp_rank),
{
    let all = decode_blocks@.dom().union(prefill_tokens@.dom());
    let list = crate::kv_router::radix_dump::workers_in_order(all);
    assert(loads@.len() == list.len());
    assert forall|i: int, j: int|
        #![trigger loads@[i], loads@[j]]
        0 <= i < j < loads@.len() implies loads@[i].worker_id < loads@[j].worker_id || (
    loads@[i].worker_id == loads@[j].worker_id && loads@[i].dp_rank < loads@[j].dp_rank) by {
        assert(list[i].precedes(list[j]));
    }
    if all.contains(worker) {
        assert(list.contains(worker));
        let i = choose|i: int| 0 <= i < list.len() && list[i] == worker;
        assert(loads@[i].worker_id == worker.worker_id);
    }
    assert forall|i: int|
        0 <= i < loads@.len() && (#[trigger] loads@[i]).worker_id == worker.worker_id
            && loads@[i].dp_rank == worker.dp_rank implies list[i] == worker && all.contains(
        worker,
    ) by {
        assert(list.contains(list[i]));
    }
}

} // verus!
