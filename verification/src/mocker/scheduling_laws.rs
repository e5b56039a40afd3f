//! What the decisions of the mock engine keep to.
use crate::mocker::queues::{PrefillStep, Queues, Request};
use crate::mocker::scheduler::{
    after_output, after_prefills, average_length, check_failed_signal, decode_step, first_signal,
    last_fits, next_signal, prefill_steps, taken_on, total_length, try_schedule, worker_stats,
    AfterOutput, Budget, Candidate, DecodeStep, Limits, Progress, SchedulerState, Signal,
    SignalStep, WorkerStats,
};
use crate::mocker::queues::PrefillCost;
use crate::seqs::lemma_take_next;
use crate::text::decimal_text;
use vstd::prelude::*;

verus! {

/// Whether each number is that of the blocks that just hold the tokens of the candidate at its
/// place, whether they are in the cache or not.
pub open spec fn counts_blocks(blocks: Seq<int>, candidates: Seq<Candidate>, size: int) -> bool {
    &&& blocks.len() == candidates.len()
    &&& forall|i: int|
        0 <= i < candidates.len() ==> (#[trigger] blocks[i] - 1) * size < candidates[i].total_tokens
            <= blocks[i] * size
}

proof fn lemma_least_blocks(tokens: int, size: int, blocks: int)
    requires
        size > 0,
        (blocks - 1) * size < tokens <= blocks * size,
    ensures
        (tokens + size - 1) / size == blocks,
{
    let sum = tokens + size - 1;
    assert(sum == size * blocks + (sum - size * blocks) && 0 <= sum - size * blocks < size)
        by (nonlinear_arith)
        requires
            (blocks - 1) * size < tokens <= blocks * size,
            sum == tokens + size - 1,
    ;
    assert(size * blocks == blocks * size) by (nonlinear_arith);
    vstd::arithmetic::div_mod::lemma_fundamental_div_mod_converse(
        sum,
        size,
        blocks,
        sum - size * blocks,
    );
}

/// What is taken on is what was there, and the sums over the candidates.
proof fn lemma_taken_on(budget: Budget, candidates: Seq<Candidate>, blocks: Seq<int>, size: int)
    requires
        size > 0,
        counts_blocks(blocks, candidates, size),
    ensures
        taken_on(budget, candidates, size) == (
            budget.blocks + blocks.fold_left(0int, |sum: int, count: int| sum + count),
            budget.tokens + candidates.fold_left(
                0int,
                |sum: int, candidate: Candidate| sum + candidate.new_tokens,
            ),
            budget.seqs + candidates.len() as int,
        ),
    decreases candidates.len(),
{
    if candidates.len() > 0 {
        let last = candidates.len() - 1;
        assert forall|i: int| 0 <= i < last implies (#[trigger] blocks.drop_last()[i] - 1) * size
            < candidates.drop_last()[i].total_tokens <= blocks.drop_last()[i] * size by {
            assert(blocks[i] == blocks.drop_last()[i]);
        }
        lemma_taken_on(budget, candidates.drop_last(), blocks.drop_last(), size);
        assert(blocks[last] == blocks.last());
        lemma_least_blocks(candidates.last().total_tokens as int, size, blocks[last]);
    }
}

proof fn lemma_counts_of_prefix(blocks: Seq<int>, candidates: Seq<Candidate>, size: int, n: int)
    requires
        counts_blocks(blocks, candidates, size),
        0 <= n <= candidates.len(),
    ensures
        counts_blocks(blocks.take(n), candidates.take(n), size),
{
    assert forall|i: int| 0 <= i < n implies (#[trigger] blocks.take(n)[i] - 1) * size
        < candidates.take(n)[i].total_tokens <= blocks.take(n)[i] * size by {
        assert(blocks[i] == blocks.take(n)[i]);
    }
}

/// Whether the candidate at a place keeps the limits once it and all before it are taken on: all
/// their blocks are in use, each is one more request, and the tokens of each that are not in the
/// cache are added. Where tokens may come in several steps, those of the candidate itself do not
/// count yet.
pub open spec fn keeps_limits(
    limits: Limits,
    budget: Budget,
    candidates: Seq<Candidate>,
    blocks: Seq<int>,
    i: int,
) -> bool {
    &&& budget.blocks + blocks.take(i + 1).fold_left(0int, |sum: int, count: int| sum + count)
        <= limits.blocks
    &&& limits.max_num_seqs matches Some(limit) ==> budget.seqs + i + 1 <= limit
    &&& limits.max_num_batched_tokens matches Some(limit) ==> budget.tokens + candidates.take(
        if limits.enable_chunked_prefill {
            i
        } else {
            i + 1
        },
    ).fold_left(0int, |sum: int, candidate: Candidate| sum + candidate.new_tokens) <= limit
}

proof fn lemma_keeps_limits(
    limits: Limits,
    budget: Budget,
    candidates: Seq<Candidate>,
    blocks: Seq<int>,
    i: int,
)
    requires
        limits.block_size > 0,
        counts_blocks(blocks, candidates, limits.block_size as int),
        0 <= i < candidates.len(),
    ensures
        last_fits(limits, budget, candidates.take(i + 1)) == keeps_limits(
            limits,
            budget,
            candidates,
            blocks,
            i,
        ),
{
    let size = limits.block_size as int;
    lemma_counts_of_prefix(blocks, candidates, size, i + 1);
    lemma_taken_on(budget, candidates.take(i + 1), blocks.take(i + 1), size);
    lemma_take_next(candidates, i);
    assert(candidates.take(i + 1).drop_last() =~= candidates.take(i));
}

/// Requests are scheduled from the first on: each that is keeps the limits with all before it,
/// and the first that is not would break one. The tokens that count are those that are not in the
/// cache.
pub proof fn law_scheduled_requests_keep_the_limits(
    limits: Limits,
    budget: Budget,
    candidates: &Vec<Candidate>,
    blocks: Seq<int>,
    scheduled: usize,
    i: int,
)
    requires
        limits.block_size > 0,
        counts_blocks(blocks, candidates@, limits.block_size as int),
        call_ensures(try_schedule, (limits, budget, candidates), scheduled),
    ensures
        scheduled <= candidates@.len(),
        0 <= i < scheduled ==> keeps_limits(limits, budget, candidates@, blocks, i),
        i == scheduled && scheduled < candidates@.len() ==> !keeps_limits(
            limits,
            budget,
            candidates@,
            blocks,
            i,
        ),
{
    if 0 <= i < scheduled {
        assert(last_fits(limits, budget, candidates@.take(i + 1)));
    }
    if 0 <= i < candidates@.len() {
        lemma_keeps_limits(limits, budget, candidates@, blocks, i);
    }
}

/// The tokens of the requests that are scheduled add up to no more than the limit, the tokens that
/// are in the cache aside; where tokens may come in several steps, the last request may go beyond.
pub proof fn law_new_tokens_of_scheduled_requests_add_up(
    limits: Limits,
    budget: Budget,
    candidates: &Vec<Candidate>,
    scheduled: usize,
)
    requires
        limits.block_size > 0,
        limits.max_num_batched_tokens is Some,
        call_ensures(try_schedule, (limits, budget, candidates), scheduled),
        scheduled > 0,
    ensures
        budget.tokens + candidates@.take(
            if limits.enable_chunked_prefill {
                scheduled - 1
            } else {
                scheduled as int
            },
        ).fold_left(0int, |sum: int, candidate: Candidate| sum + candidate.new_tokens)
            <= limits.max_num_batched_tokens->Some_0,
{
    let size = limits.block_size as int;
    let blocks = Seq::new(
        candidates@.len(),
        |i: int| (candidates@[i].total_tokens + size - 1) / size,
    );
    assert forall|i: int| 0 <= i < candidates@.len() implies (#[trigger] blocks[i] - 1) * size
        < candidates@[i].total_tokens <= blocks[i] * size by {
        let tokens = candidates@[i].total_tokens as int;
        let sum = tokens + size - 1;
        vstd::arithmetic::div_mod::lemma_fundamental_div_mod(sum, size);
        assert((sum / size - 1) * size < tokens <= (sum / size) * size) by (nonlinear_arith)
            requires
                size > 0,
                sum == tokens + size - 1,
                sum == size * (sum / size) + sum % size,
                0 <= sum % size < size,
        ;
    }
    law_scheduled_requests_keep_the_limits(
        limits,
        budget,
        candidates,
        blocks,
        scheduled,
        scheduled - 1,
    );
}

/// How many requests are scheduled does not depend on how many of their tokens are in the cache:
/// where the same requests have the same new tokens and need the same blocks, the same number is
/// scheduled, however many tokens they have in all.
pub proof fn law_cached_tokens_do_not_count(
    limits: Limits,
    budget: Budget,
    candidates: &Vec<Candidate>,
    others: &Vec<Candidate>,
    blocks: Seq<int>,
    scheduled: usize,
    other_scheduled: usize,
)
    requires
        limits.block_size > 0,
        counts_blocks(blocks, candidates@, limits.block_size as int),
        counts_blocks(blocks, others@, limits.block_size as int),
        forall|i: int|
            0 <= i < candidates@.len() ==> (#[trigger] candidates@[i]).new_tokens
                == others@[i].new_tokens,
        call_ensures(try_schedule, (limits, budget, candidates), scheduled),
        call_ensures(try_schedule, (limits, budget, others), other_scheduled),
    ensures
        scheduled == other_scheduled,
{
    assert forall|i: int| 0 <= i < candidates@.len() implies #[trigger] keeps_limits(
        limits,
        budget,
        candidates@,
        blocks,
        i,
    ) == keeps_limits(limits, budget, others@, blocks, i) by {
        lemma_same_new_tokens(candidates@.take(i), others@.take(i));
        lemma_same_new_tokens(candidates@.take(i + 1), others@.take(i + 1));
    }
    let least = if scheduled < other_scheduled {
        scheduled as int
    } else {
        other_scheduled as int
    };
    law_scheduled_requests_keep_the_limits(limits, budget, candidates, blocks, scheduled, least);
    law_scheduled_requests_keep_the_limits(limits, budget, others, blocks, other_scheduled, least);
    if 0 <= least < candidates@.len() {
        assert(keeps_limits(limits, budget, candidates@, blocks, least) == keeps_limits(
            limits,
            budget,
            others@,
            blocks,
            least,
        ));
    }
}

proof fn lemma_same_new_tokens(candidates: Seq<Candidate>, others: Seq<Candidate>)
    requires
        candidates.len() == others.len(),
        forall|i: int|
            0 <= i < candidates.len() ==> (#[trigger] candidates[i]).new_tokens
                == others[i].new_tokens,
    ensures
        candidates.fold_left(0int, |sum: int, candidate: Candidate| sum + candidate.new_tokens)
            == others.fold_left(0int, |sum: int, candidate: Candidate| sum + candidate.new_tokens),
    decreases candidates.len(),
{
    if candidates.len() > 0 {
        assert forall|i: int| 0 <= i < candidates.drop_last().len() implies (
        #[trigger] candidates.drop_last()[i]).new_tokens == others.drop_last()[i].new_tokens by {
            assert(candidates[i].new_tokens == others[i].new_tokens);
        }
        assert(candidates[candidates.len() - 1].new_tokens == others[others.len() - 1].new_tokens);
        lemma_same_new_tokens(candidates.drop_last(), others.drop_last());
    }
}

proof fn lemma_total_length(lengths: Seq<usize>)
    ensures
        total_length(lengths) == lengths.fold_left(0int, |sum: int, length: usize| sum + length),
    decreases lengths.len(),
{
    if lengths.len() > 0 {
        lemma_total_length(lengths.drop_last());
    }
}

/// The average of some lengths, times their number, is their sum but for less than their number;
/// there is none of no lengths.
pub proof fn law_average_times_number_is_the_sum(lengths: &Vec<usize>, average: usize)
    requires
        call_ensures(average_length, (lengths,), average),
    ensures
        lengths@.len() == 0 ==> average == 0,
        lengths@.len() > 0 ==> average * lengths@.len() <= lengths@.fold_left(
            0int,
            |sum: int, length: usize| sum + length,
        ) < (average + 1) * lengths@.len(),
{
    lemma_total_length(lengths@);
    let total = total_length(lengths@);
    let number = lengths@.len() as int;
    if number > 0 {
        vstd::arithmetic::div_mod::lemma_fundamental_div_mod(total, number);
        assert((total / number) * number <= total < (total / number + 1) * number)
            by (nonlinear_arith)
            requires
                number > 0,
                total == number * (total / number) + total % number,
                0 <= total % number < number,
        ;
    }
}

/// A token for which there is no room makes someone wait again. Any other is told unless it was
/// told before, and ends the answer once there are as many as were asked for.
pub proof fn law_tokens_are_told_once(room: bool, progress: Progress, step: DecodeStep)
    requires
        call_ensures(decode_step, (room, progress), step),
    ensures
        step is Preempt <==> !room,
        step matches DecodeStep::Go { output, completed } ==> {
            &&& output <==> progress.generated_tokens > progress.already_generated_tokens
            &&& completed <==> progress.generated_tokens >= progress.max_output_tokens
        },
{
}

/// A request is dropped once it is answered or nobody listens; only in the latter case its place
/// has still to be given up.
pub proof fn law_unheard_answers_are_dropped(
    completed: bool,
    send_failed: bool,
    after: AfterOutput,
)
    requires
        call_ensures(after_output, (completed, send_failed), after),
    ensures
        after.complete <==> completed || send_failed,
        after.free <==> send_failed,
{
}

/// Only the use of one block that is being filled may fail.
pub proof fn law_only_a_block_being_filled_may_fail(
    signal: &Signal,
    active_blocks: usize,
    checked: Result<(), String>,
)
    requires
        call_ensures(check_failed_signal, (signal, active_blocks), checked),
    ensures
        checked is Ok <==> (*signal matches Signal::Use { blocks, partial } && blocks == 1
            && partial),
        checked matches Err(problem) ==> problem@ == (match *signal {
            Signal::Other(text) =>
                "Failed signal is Invalid. Has to fail on generation signal, but failed on "@
                + text@,
            Signal::Use { blocks, partial } => if blocks == 1 {
                "Failed signal is Invalid. Generation block has to be partial."@
            } else {
                "Failed signal is Invalid. Tried to create (prefill) "@ + decimal_text(
                    blocks as nat,
                ) + " blocks on top of "@ + decimal_text(active_blocks as nat)
                    + " active blocks."@
            },
        }),
{
}

/// The changes of a list are made from the first on, one after the other, up to the first that
/// fails. A list is done once each was made.
pub proof fn law_changes_are_made_in_order(
    signals: &[Signal],
    index: usize,
    made: bool,
    active_blocks: usize,
    first: SignalStep,
    step: SignalStep,
)
    requires
        index < signals@.len(),
        call_ensures(first_signal, (signals,), first),
        call_ensures(next_signal, (signals, index, made, active_blocks), step),
    ensures
        first == SignalStep::Make(0),
        made && index + 1 < signals@.len() ==> (step matches SignalStep::Make(next) && next == index
            + 1),
        step is AllMade <==> made && index + 1 == signals@.len(),
        step is NoRoom <==> !made && (signals@[index as int] matches Signal::Use { blocks, partial }
            && blocks == 1 && partial),
        step is Invalid <==> !made && !(step is NoRoom),
{
    assert(vstd::slice::spec_slice_len(signals) == signals@.len());
}

/// An engine is as busy as the requests that it answers, out of 1024, and those that wait.
pub proof fn law_stats_count_the_queues<D, S>(
    state: &SchedulerState<D, S>,
    dp_rank: u32,
    stats: WorkerStats,
)
    requires
        call_ensures(worker_stats::<D, S>, (state, dp_rank), stats),
    ensures
        stats.data_parallel_rank == Some(dp_rank),
        stats.request_active_slots == state@.decode.len(),
        stats.num_requests_waiting == state@.waiting.len(),
        stats.request_total_slots == 1024,
{
}

/// A request that comes waits behind all who wait, as it came; everyone else stays where they are.
pub proof fn law_requests_wait_in_the_order_they_come<D, S>(
    state: &mut SchedulerState<D, S>,
    uuid: u128,
    request: D,
)
    requires
        call_ensures(SchedulerState::<D, S>::receive, (state, uuid, request), ()),
    ensures
        final(state)@.waiting.len() == old(state)@.waiting.len() + 1,
        final(state)@.waiting.last() == uuid,
        forall|i: int|
            0 <= i < old(state)@.waiting.len() ==> #[trigger] final(state)@.waiting[i]
                == old(state)@.waiting[i],
        final(state)@.requests.contains_key(uuid),
        final(state)@.requests[uuid] == Request::<D, S>::Direct(request),
        forall|other: u128|
            other != uuid && old(state)@.requests.contains_key(other) ==> (
            #[trigger] final(state)@.requests.contains_key(other) && final(state)@.requests[other]
                == old(state)@.requests[other]),
        final(state)@.prefill == old(state)@.prefill,
        final(state)@.decode == old(state)@.decode,
        final(state)@.costs == old(state)@.costs,
        final(state)@.active_tokens == old(state)@.active_tokens,
        final(state)@.waiting_tokens == old(state)@.waiting_tokens,
        final(state)@.limit == old(state)@.limit,
{
}

/// The first who waits is called up, and with them what is known of their request; everyone else
/// keeps their place. Where nobody waits, nothing changes.
pub proof fn law_the_first_who_waits_is_called<D, S>(
    state: &mut SchedulerState<D, S>,
    called: Option<(u128, Request<D, S>)>,
)
    requires
        call_ensures(SchedulerState::<D, S>::next, (state,), called),
    ensures
        called is Some <==> old(state)@.waiting.len() > 0,
        called matches Some((uuid, request)) ==> {
            &&& uuid == old(state)@.waiting[0]
            &&& request == old(state)@.requests[uuid]
            &&& final(state)@.waiting.len() == old(state)@.waiting.len() - 1
            &&& forall|i: int|
                0 <= i < final(state)@.waiting.len() ==> #[trigger] final(state)@.waiting[i]
                    == old(state)@.waiting[i + 1]
            &&& !final(state)@.requests.contains_key(uuid)
        },
        called is None ==> final(state)@ == old(state)@,
        final(state)@.prefill == old(state)@.prefill,
        final(state)@.decode == old(state)@.decode,
        final(state)@.costs == old(state)@.costs,
        final(state)@.active_tokens == old(state)@.active_tokens,
        final(state)@.waiting_tokens == old(state)@.waiting_tokens,
{
}

/// Who is put back first in line is the next to be called, with the request that was put back.
pub proof fn law_who_is_put_back_is_called_next<D, S>(
    state: &mut SchedulerState<D, S>,
    uuid: u128,
    request: Request<D, S>,
    later: &mut SchedulerState<D, S>,
    called: Option<(u128, Request<D, S>)>,
)
    requires
        call_ensures(SchedulerState::<D, S>::first_in_line, (state, uuid, request), ()),
        old(later)@ == final(state)@,
        call_ensures(SchedulerState::<D, S>::next, (later,), called),
    ensures
        called == Some((uuid, request)),
        final(later)@.waiting == old(state)@.waiting,
        final(state)@.decode == old(state)@.decode,
        final(state)@.prefill == old(state)@.prefill,
{
}

/// A request that is scheduled is the last to have its tokens put into the cache; as many more
/// tokens as it brings are still to be put there.
pub proof fn law_scheduled_requests_queue_for_the_cache<D, S>(
    state: &mut SchedulerState<D, S>,
    uuid: u128,
    sequence: S,
    cost: PrefillCost,
)
    requires
        call_ensures(SchedulerState::<D, S>::move_to_prefill, (state, uuid, sequence, cost), ()),
    ensures
        final(state)@.prefill.len() == old(state)@.prefill.len() + 1,
        final(state)@.prefill.last() == uuid,
        forall|i: int|
            0 <= i < old(state)@.prefill.len() ==> #[trigger] final(state)@.prefill[i]
                == old(state)@.prefill[i],
        final(state)@.requests[uuid] == Request::<D, S>::Active(sequence),
        final(state)@.costs[uuid] == cost,
        final(state)@.waiting_tokens - old(state)@.waiting_tokens == cost.new_tokens,
        forall|other: u128|
            other != uuid ==> #[trigger] final(state)@.costs.contains_key(other)
                == old(state)@.costs.contains_key(other) && final(state)@.costs[other]
                == old(state)@.costs[other],
        final(state)@.active_tokens == old(state)@.active_tokens,
        final(state)@.waiting == old(state)@.waiting,
        final(state)@.decode == old(state)@.decode,
{
}

/// The first scheduled request has its tokens put into the cache. It is cut exactly where it has
/// more than this step has room for: then the step is full, and the request stays first with the
/// rest of its tokens. Otherwise it is answered from now on, behind all others.
pub proof fn law_prefill_fills_the_step<D, S>(
    state: &mut SchedulerState<D, S>,
    step: Option<PrefillStep>,
)
    requires
        old(state)@.limit matches Some(limit) ==> 0 <= old(state)@.active_tokens <= limit,
        call_ensures(SchedulerState::<D, S>::try_prefill, (state,), step),
    ensures
        step is Some <==> old(state)@.prefill.len() > 0,
        step is None ==> final(state)@ == old(state)@,
        step matches Some(step) ==> {
            let wanted = old(state)@.costs[step.uuid].new_tokens;
            &&& step.uuid == old(state)@.prefill[0]
            &&& step.cost == old(state)@.costs[step.uuid]
            &&& step.chunk is Some <==> (old(state)@.limit matches Some(limit)
                && old(state)@.active_tokens + wanted > limit)
            &&& step.chunk matches Some(tokens) ==> {
                &&& final(state)@.active_tokens == old(state)@.limit->Some_0
                &&& final(state)@.prefill == old(state)@.prefill
                &&& final(state)@.decode == old(state)@.decode
                &&& final(state)@.costs[step.uuid].new_tokens + tokens == wanted
                &&& final(state)@.costs[step.uuid].cached_tokens == step.cost.cached_tokens
                &&& final(state)@.active_tokens - old(state)@.active_tokens == tokens
            }
            &&& step.chunk is None ==> {
                &&& final(state)@.active_tokens - old(state)@.active_tokens == wanted
                &&& final(state)@.decode.len() == old(state)@.decode.len() + 1
                &&& final(state)@.decode.last() == step.uuid
                &&& final(state)@.decode.drop_last() == old(state)@.decode
                &&& final(state)@.prefill == old(state)@.prefill.drop_first()
                &&& !final(state)@.costs.contains_key(step.uuid)
            }
        },
        forall|other: u128|
            (step matches Some(step) ==> other != step.uuid) ==> (
            #[trigger] final(state)@.costs.contains_key(other) == old(state)@.costs.contains_key(
                other,
            ) && final(state)@.costs[other] == old(state)@.costs[other]),
        final(state)@.active_tokens + final(state)@.waiting_tokens == old(state)@.active_tokens
            + old(state)@.waiting_tokens,
        final(state)@.requests == old(state)@.requests,
        final(state)@.waiting == old(state)@.waiting,
{
    if let Some(step) = step {
        if step.chunk is None {
            assert(final(state)@.decode.drop_last() =~= old(state)@.decode);
        }
    }
}

/// Once a step begins anew, each request that is answered counts as one token in it.
pub proof fn law_a_new_step_counts_who_is_answered<D, S>(state: &mut SchedulerState<D, S>)
    requires
        call_ensures(SchedulerState::<D, S>::reset_active_tokens, (state,), ()),
    ensures
        final(state)@.active_tokens == old(state)@.decode.len(),
        final(state)@.decode == old(state)@.decode,
        final(state)@.prefill == old(state)@.prefill,
        final(state)@.waiting == old(state)@.waiting,
        final(state)@.requests == old(state)@.requests,
        final(state)@.waiting_tokens == old(state)@.waiting_tokens,
{
}

/// The request that was answered longest has to wait again, behind all who wait; it is not
/// forgotten, and the others are answered in the order they were.
pub proof fn law_the_oldest_answer_is_preempted<D, S>(
    state: &mut SchedulerState<D, S>,
    preempted: Option<u128>,
)
    requires
        call_ensures(SchedulerState::<D, S>::preempt, (state,), preempted),
    ensures
        preempted is Some <==> old(state)@.decode.len() > 0,
        preempted matches Some(uuid) ==> {
            &&& uuid == old(state)@.decode[0]
            &&& final(state)@.waiting.last() == uuid
            &&& final(state)@.waiting.drop_last() == old(state)@.waiting
            &&& seq![uuid] + final(state)@.decode == old(state)@.decode
            &&& final(state)@.active_tokens == old(state)@.active_tokens - 1
        },
        preempted is None ==> final(state)@ == old(state)@,
        final(state)@.requests == old(state)@.requests,
        final(state)@.costs == old(state)@.costs,
        final(state)@.waiting_tokens == old(state)@.waiting_tokens,
        final(state)@.prefill == old(state)@.prefill,
{
    if let Some(uuid) = preempted {
        assert(final(state)@.waiting.drop_last() =~= old(state)@.waiting);
        assert(seq![uuid] + final(state)@.decode =~= old(state)@.decode);
    }
}

/// A request that is answered completely is forgotten and frees one token; nobody else is touched,
/// and the others are answered in the order they were.
pub proof fn law_completed_requests_are_forgotten<D, S>(
    state: &mut SchedulerState<D, S>,
    uuid: u128,
    at: int,
)
    requires
        old(state)@.decode.no_duplicates(),
        0 <= at < old(state)@.decode.len(),
        old(state)@.decode[at] == uuid,
        call_ensures(SchedulerState::<D, S>::complete, (state, uuid), ()),
    ensures
        final(state)@.decode == old(state)@.decode.take(at) + old(state)@.decode.skip(at + 1),
        !final(state)@.requests.contains_key(uuid),
        forall|other: u128|
            other != uuid ==> #[trigger] final(state)@.requests.contains_key(other)
                == old(state)@.requests.contains_key(other),
        final(state)@.active_tokens == old(state)@.active_tokens - 1,
        final(state)@.waiting == old(state)@.waiting,
        final(state)@.prefill == old(state)@.prefill,
        final(state)@.costs == old(state)@.costs,
        final(state)@.waiting_tokens == old(state)@.waiting_tokens,
{
    assert(old(state)@.decode.index_of(uuid) == at) by {
        let found = old(state)@.decode.index_of(uuid);
        assert(old(state)@.decode.contains(uuid));
        assert(old(state)@.decode[found] == uuid);
    }
    assert(final(state)@.decode =~= old(state)@.decode.take(at) + old(state)@.decode.skip(at + 1));
}

/// The sequence of a request is at hand exactly while it is answered.
pub proof fn law_sequences_run_while_they_are_answered<D, S>(
    state: &SchedulerState<D, S>,
    uuid: u128,
    sequence: Option<&S>,
)
    requires
        call_ensures(SchedulerState::<D, S>::run, (state, uuid), sequence),
    ensures
        sequence is Some <==> state@.decode.contains(uuid),
        sequence matches Some(sequence) ==> state@.requests[uuid] == Request::<D, S>::Active(
            *sequence,
        ),
{
}

proof fn lemma_prefills<D, S>(queues: Queues<D, S>)
    requires
        queues.limit matches Some(limit) ==> 0 <= queues.active_tokens <= limit,
    ensures
        ({
            let steps = prefill_steps(queues);
            let after = after_prefills(queues);
            let cut = steps.len() > 0 && steps.last().chunk is Some;
            let full = if cut {
                steps.len() - 1
            } else {
                steps.len() as int
            };
            &&& steps.len() <= queues.prefill.len()
            &&& forall|i: int|
                0 <= i < steps.len() ==> (#[trigger] steps[i]).uuid == queues.prefill[i]
            &&& forall|i: int| 0 <= i < full ==> (#[trigger] steps[i]).chunk is None
            &&& after.prefill == queues.prefill.skip(full)
            &&& after.decode == queues.decode + queues.prefill.take(full)
            &&& !cut ==> steps.len() == queues.prefill.len()
            &&& cut ==> after.active_tokens == queues.limit->Some_0 && queues.limit is Some
            &&& after.active_tokens + after.waiting_tokens == queues.active_tokens
                + queues.waiting_tokens
            &&& after.waiting == queues.waiting
            &&& after.requests == queues.requests
            &&& after.limit == queues.limit
            &&& queues.limit matches Some(limit) ==> after.active_tokens <= limit
        }),
    decreases queues.prefill.len(),
{
    let steps = prefill_steps(queues);
    let after = after_prefills(queues);
    if queues.prefill.len() == 0 {
        assert(queues.prefill.skip(0) =~= queues.prefill);
        assert(queues.decode + queues.prefill.take(0) =~= queues.decode);
    } else if queues.chunk() is Some {
        assert(queues.prefill.skip(0) =~= queues.prefill);
        assert(queues.decode + queues.prefill.take(0) =~= queues.decode);
    } else {
        let next = queues.prefilled();
        lemma_prefills(next);
        let rest = prefill_steps(next);
        let cut = rest.len() > 0 && rest.last().chunk is Some;
        let full = if cut {
            rest.len() - 1
        } else {
            rest.len() as int
        };
        assert(steps =~= seq![queues.next_prefill()] + rest);
        assert forall|i: int| 0 <= i < steps.len() implies (#[trigger] steps[i]).uuid
            == queues.prefill[i] by {
            if i > 0 {
                assert(steps[i] == rest[i - 1]);
                assert(next.prefill[i - 1] == queues.prefill[i]);
            }
        }
        assert forall|i: int| 0 <= i < full + 1 implies (#[trigger] steps[i]).chunk is None by {
            if i > 0 {
                assert(steps[i] == rest[i - 1]);
            }
        }
        if rest.len() > 0 {
            assert(steps.last() == rest.last());
        }
        assert(next.prefill.skip(full) =~= queues.prefill.skip(full + 1));
        assert(next.decode + next.prefill.take(full) =~= queues.decode + queues.prefill.take(
            full + 1,
        ));
    }
}

/// Filling the cache serves the scheduled requests in their order. Only the last that is served
/// may be cut, and then the step is full; otherwise all are served. Those served whole are answered
/// from now on, behind the others and in their order; the rest stay as they are. No token is lost.
pub proof fn law_prefills_go_on_until_the_step_is_full<D, S>(
    state: &mut SchedulerState<D, S>,
    steps: Vec<PrefillStep>,
)
    requires
        old(state)@.limit matches Some(limit) ==> 0 <= old(state)@.active_tokens <= limit,
        call_ensures(SchedulerState::<D, S>::prefill_all, (state,), steps),
    ensures
        ({
            let cut = steps@.len() > 0 && steps@.last().chunk is Some;
            let full = if cut {
                steps@.len() - 1
            } else {
                steps@.len() as int
            };
            &&& steps@.len() <= old(state)@.prefill.len()
            &&& forall|i: int|
                0 <= i < steps@.len() ==> (#[trigger] steps@[i]).uuid == old(state)@.prefill[i]
            &&& forall|i: int| 0 <= i < full ==> (#[trigger] steps@[i]).chunk is None
            &&& final(state)@.prefill == old(state)@.prefill.skip(full)
            &&& final(state)@.decode == old(state)@.decode + old(state)@.prefill.take(full)
            &&& !cut ==> steps@.len() == old(state)@.prefill.len()
            &&& cut ==> old(state)@.limit == Some(final(state)@.active_tokens as usize)
        }),
        final(state)@.active_tokens + final(state)@.waiting_tokens == old(state)@.active_tokens
            + old(state)@.waiting_tokens,
        final(state)@.waiting == old(state)@.waiting,
        final(state)@.requests == old(state)@.requests,
{
    lemma_prefills(old(state)@);
}

/// A new engine has no request, and only an engine without requests is empty. The keys of those
/// answered come in the order of answering, and all that were scheduled are counted as active.
pub proof fn law_an_engine_without_requests_is_empty<D, S>(
    limit: Option<usize>,
    state: SchedulerState<D, S>,
    other: &SchedulerState<D, S>,
    empty: bool,
    uuid: u128,
    known: bool,
    keys: Vec<u128>,
    active: usize,
)
    requires
        call_ensures(SchedulerState::<D, S>::new, (limit,), state),
        call_ensures(SchedulerState::<D, S>::is_empty, (other,), empty),
        call_ensures(SchedulerState::<D, S>::knows, (other, uuid), known),
        call_ensures(SchedulerState::<D, S>::decode_keys, (other,), keys),
        call_ensures(SchedulerState::<D, S>::num_active_requests, (other,), active),
    ensures
        state@.waiting.len() == 0 && state@.prefill.len() == 0 && state@.decode.len() == 0,
        state@.limit == limit,
        state@.active_tokens == 0 && state@.waiting_tokens == 0,
        empty ==> !other@.requests.contains_key(uuid),
        empty ==> !known,
        known <==> other@.requests.contains_key(uuid),
        keys@ == other@.decode,
        active == other@.prefill.len() + other@.decode.len(),
{
}

/// The sequence of a request is replaced; who waits for what stays.
pub proof fn law_sequences_are_replaced_in_place<D, S>(
    state: &mut SchedulerState<D, S>,
    uuid: u128,
    sequence: S,
    other: u128,
)
    requires
        call_ensures(SchedulerState::<D, S>::replace_sequence, (state, uuid, sequence), ()),
    ensures
        final(state)@.requests.contains_key(uuid),
        final(state)@.requests[uuid] == Request::<D, S>::Active(sequence),
        other != uuid ==> final(state)@.requests.contains_key(other)
            == old(state)@.requests.contains_key(other) && final(state)@.requests[other]
            == old(state)@.requests[other],
        final(state)@.waiting == old(state)@.waiting,
        final(state)@.prefill == old(state)@.prefill,
        final(state)@.decode == old(state)@.decode,
        final(state)@.costs == old(state)@.costs,
        final(state)@.active_tokens == old(state)@.active_tokens,
        final(state)@.waiting_tokens == old(state)@.waiting_tokens,
{
}

} // verus!
