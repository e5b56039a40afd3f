//! Deciding which requests the mock engine works on.
use crate::mocker::queues::{
    lemma_called_valid, lemma_completed_valid, lemma_empty_valid, lemma_preempted_valid,
    lemma_prefilled_valid, lemma_put_first_valid, lemma_queued, lemma_received_valid,
    lemma_scheduled_valid, PrefillCost, PrefillStep, Queues,
    Request,
};
use crate::seqs::lemma_take_next;
use crate::text::{decimal, decimal_text, join, surround};
use std::collections::{HashMap, VecDeque};
use vstd::prelude::*;

verus! {

broadcast use vstd::std_specs::hash::group_hash_axioms;

/// The queues of the engine. Requests are told apart by number.
#[verifier::reject_recursive_types(D)]
#[verifier::reject_recursive_types(S)]
pub struct SchedulerState<D, S> {
    waiting: VecDeque<u128>,
    prefill: VecDeque<u128>,
    decode: Vec<u128>,
    requests: HashMap<u128, Request<D, S>>,
    prefill_costs: HashMap<u128, PrefillCost>,
    max_num_batched_tokens: Option<usize>,
    active_tokens: usize,
    waiting_tokens: usize,
}

impl<D, S> View for SchedulerState<D, S> {
    type V = Queues<D, S>;

    closed spec fn view(&self) -> Queues<D, S> {
        Queues {
            waiting: self.waiting@,
            prefill: self.prefill@,
            decode: self.decode@,
            requests: self.requests@,
            costs: self.prefill_costs@,
            limit: self.max_num_batched_tokens,
            active_tokens: self.active_tokens as int,
            waiting_tokens: self.waiting_tokens as int,
        }
    }
}

fn position(list: &Vec<u128>, uuid: u128) -> (found: Option<usize>)
    ensures
        match found {
            Some(index) => index < list@.len() && list@[index as int] == uuid && forall|i: int|
                0 <= i < index ==> list@[i] != uuid,
            None => !list@.contains(uuid),
        },
{
    let mut index: usize = 0;
    while index < list.len()
        invariant
            index <= list@.len(),
            forall|i: int| 0 <= i < index ==> list@[i] != uuid,
        decreases list@.len() - index,
    {
        if list[index] == uuid {
            return Some(index);
        }
        index += 1;
    }
    None
}

impl<D, S> SchedulerState<D, S> {
    pub fn new(max_num_batched_tokens: Option<usize>) -> (state: Self)
        ensures
            state@ == Queues::<D, S>::empty(max_num_batched_tokens),
            state@.valid(),
    {
        let state = SchedulerState {
            waiting: VecDeque::new(),
            prefill: VecDeque::new(),
            decode: Vec::new(),
            requests: HashMap::new(),
            prefill_costs: HashMap::new(),
            max_num_batched_tokens,
            active_tokens: 0,
            waiting_tokens: 0,
        };
        proof {
            lemma_empty_valid::<D, S>(max_num_batched_tokens);
            assert(state@ =~= Queues::<D, S>::empty(max_num_batched_tokens));
        }
        state
    }

    /// Whether there is no request at all.
    pub fn is_empty(&self) -> (empty: bool)
        ensures
            empty == (self@.requests =~= Map::<u128, Request<D, S>>::empty()),
    {
        let empty = self.requests.is_empty();
        proof {
            if empty {
                assert(self@.requests =~= Map::<u128, Request<D, S>>::empty());
            }
        }
        empty
    }

    /// Whether a request is known.
    pub fn knows(&self, uuid: u128) -> (known: bool)
        ensures
            known == self@.requests.contains_key(uuid),
    {
        self.requests.contains_key(&uuid)
    }

    /// Takes a request, which waits behind all others.
    pub fn receive(&mut self, uuid: u128, request: D)
        requires
            old(self)@.valid(),
            !old(self)@.requests.contains_key(uuid),
        ensures
            final(self)@ == old(self)@.received(uuid, Request::Direct(request)),
            final(self)@.valid(),
    {
        proof {
            lemma_received_valid(self@, uuid, Request::Direct(request));
        }
        self.requests.insert(uuid, Request::Direct(request));
        self.waiting.push_back(uuid);
        assert(self@ =~= old(self)@.received(uuid, Request::Direct(request)));
    }

    /// Calls up the first request that waits.
    pub fn next(&mut self) -> (called: Option<(u128, Request<D, S>)>)
        requires
            old(self)@.valid(),
        ensures
            match called {
                Some((uuid, request)) => {
                    &&& old(self)@.waiting.len() > 0
                    &&& uuid == old(self)@.waiting[0]
                    &&& request == old(self)@.requests[uuid]
                    &&& final(self)@ == old(self)@.called()
                    &&& !final(self)@.requests.contains_key(uuid)
                },
                None => old(self)@.waiting.len() == 0 && final(self)@ == old(self)@,
            },
            final(self)@.valid(),
    {
        let ghost before = self@;
        match self.waiting.pop_front() {
            Some(uuid) => {
                proof {
                    lemma_called_valid(before);
                }
                match self.requests.remove(&uuid) {
                    Some(request) => {
                        assert(self@.waiting =~= before.called().waiting);
                        assert(self@ =~= before.called());
                        Some((uuid, request))
                    },
                    None => None,
                }
            },
            None => {
                assert(self@ =~= before);
                None
            },
        }
    }

    /// Puts a request that was called up back before all others.
    pub fn first_in_line(&mut self, uuid: u128, request: Request<D, S>)
        requires
            old(self)@.valid(),
            !old(self)@.requests.contains_key(uuid),
        ensures
            final(self)@ == old(self)@.put_first(uuid, request),
            final(self)@.valid(),
    {
        proof {
            lemma_put_first_valid(self@, uuid, request);
        }
        self.requests.insert(uuid, request);
        self.waiting.push_front(uuid);
        assert(self@ =~= old(self)@.put_first(uuid, request));
    }

    /// Schedules a request that was called up.
    pub fn move_to_prefill(&mut self, uuid: u128, sequence: S, cost: PrefillCost)
        requires
            old(self)@.valid(),
            !old(self)@.requests.contains_key(uuid),
            old(self)@.waiting_tokens + cost.new_tokens <= usize::MAX,
        ensures
            final(self)@ == old(self)@.scheduled(uuid, sequence, cost),
            final(self)@.valid(),
    {
        proof {
            lemma_scheduled_valid(self@, uuid, sequence, cost);
        }
        self.waiting_tokens = self.waiting_tokens + cost.new_tokens;
        self.requests.insert(uuid, Request::Active(sequence));
        self.prefill.push_back(uuid);
        self.prefill_costs.insert(uuid, cost);
        assert(self@ =~= old(self)@.scheduled(uuid, sequence, cost));
    }

    /// Puts tokens of the first scheduled request into the cache: all that are left, or as many as
    /// the step still has room for.
    pub fn try_prefill(&mut self) -> (step: Option<PrefillStep>)
        requires
            old(self)@.valid(),
            old(self)@.limit matches Some(limit) ==> old(self)@.active_tokens <= limit,
            old(self)@.active_tokens + old(self)@.waiting_tokens <= usize::MAX,
        ensures
            match step {
                Some(step) => {
                    &&& old(self)@.prefill.len() > 0
                    &&& step == old(self)@.next_prefill()
                    &&& final(self)@ == old(self)@.prefilled()
                },
                None => old(self)@.prefill.len() == 0 && final(self)@ == old(self)@,
            },
            final(self)@.valid(),
    {
        let ghost before = self@;
        let uuid: u128 = match self.prefill.pop_front() {
            Some(uuid) => uuid,
            None => {
                assert(self@ =~= before);
                return None;
            },
        };
        proof {
            lemma_prefilled_valid(before);
        }
        let cost = match self.prefill_costs.remove(&uuid) {
            Some(cost) => cost,
            None => {
                return None;
            },
        };
        let chunk: Option<usize> = match self.max_num_batched_tokens {
            Some(limit) => {
                let remaining: usize = limit - self.active_tokens;
                if cost.new_tokens > remaining {
                    Some(remaining)
                } else {
                    None
                }
            },
            None => None,
        };
        match chunk {
            Some(tokens) => {
                self.prefill.push_front(uuid);
                let left = PrefillCost { new_tokens: cost.new_tokens - tokens, ..cost };
                self.prefill_costs.insert(uuid, left);
                self.active_tokens = self.active_tokens + tokens;
                self.waiting_tokens = self.waiting_tokens - tokens;
                assert(self@.prefill =~= before.prefill);
                assert(self@.costs =~= before.prefilled().costs);
                assert(self@ =~= before.prefilled());
            },
            None => {
                self.decode.push(uuid);
                self.active_tokens = self.active_tokens + cost.new_tokens;
                self.waiting_tokens = self.waiting_tokens - cost.new_tokens;
                assert(self@.prefill =~= before.prefill.drop_first());
                assert(self@ =~= before.prefilled());
            },
        }
        Some(PrefillStep { uuid, cost, chunk })
    }

    /// Begins a new step, in which everyone who is answered has one token.
    pub fn reset_active_tokens(&mut self)
        ensures
            final(self)@ == old(self)@.reset(),
            old(self)@.valid() ==> final(self)@.valid(),
    {
        self.active_tokens = self.decode.len();
        assert(self@ =~= old(self)@.reset());
        assert(self@.queued() =~= old(self)@.queued());
    }

    /// The requests that are being answered.
    pub fn decode_keys(&self) -> (keys: Vec<u128>)
        ensures
            keys@ == self@.decode,
    {
        let mut keys: Vec<u128> = Vec::new();
        let mut index: usize = 0;
        while index < self.decode.len()
            invariant
                index <= self.decode@.len(),
                keys@ =~= self.decode@.take(index as int),
            decreases self.decode@.len() - index,
        {
            keys.push(self.decode[index]);
            index += 1;
        }
        keys
    }

    /// The sequence of a request, if it is being answered.
    pub fn run(&self, uuid: u128) -> (sequence: Option<&S>)
        requires
            self@.valid(),
        ensures
            match sequence {
                Some(sequence) => self@.decode.contains(uuid) && self@.requests[uuid]
                    == Request::<D, S>::Active(*sequence),
                None => !self@.decode.contains(uuid),
            },
    {
        match position(&self.decode, uuid) {
            Some(_) => {
                proof {
                    lemma_queued(self@, uuid);
                    assert(self@.requests.contains_key(uuid));
                    assert(self@.requests[uuid] is Active);
                }
                match self.requests.get(&uuid) {
                    Some(Request::Active(sequence)) => Some(sequence),
                    _ => None,
                }
            },
            None => None,
        }
    }

    /// Takes note of what the sequence of a request has become.
    pub fn replace_sequence(&mut self, uuid: u128, sequence: S)
        requires
            old(self)@.valid(),
            old(self)@.requests.contains_key(uuid),
        ensures
            final(self)@ == (Queues {
                requests: old(self)@.requests.insert(uuid, Request::Active(sequence)),
                ..old(self)@
            }),
            final(self)@.valid(),
    {
        let ghost before = self@;
        self.requests.insert(uuid, Request::Active(sequence));
        proof {
            assert(self@ =~= (Queues {
                requests: before.requests.insert(uuid, Request::Active(sequence)),
                ..before
            }));
            assert(self@.queued() =~= before.queued());
            assert forall|other: u128| #[trigger]
                self@.requests.contains_key(other) <==> self@.queued().contains(other) by {
                assert(before.requests.contains_key(other) <==> before.queued().contains(other));
            }
            assert forall|other: u128|
                self@.prefill.contains(other) || self@.decode.contains(other) implies #[trigger]
                self@.requests[other] is Active by {
                if other != uuid {
                    assert(before.requests[other] is Active);
                }
            }
        }
    }

    /// How many requests are scheduled or being answered.
    pub fn num_active_requests(&self) -> (number: usize)
        requires
            self@.prefill.len() + self@.decode.len() <= usize::MAX,
        ensures
            number == self@.prefill.len() + self@.decode.len(),
    {
        self.prefill.len() + self.decode.len()
    }

    /// Drops a request that is answered completely.
    pub fn complete(&mut self, uuid: u128)
        requires
            old(self)@.valid(),
            old(self)@.decode.contains(uuid),
            old(self)@.active_tokens > 0,
        ensures
            final(self)@ == old(self)@.completed(uuid),
            final(self)@.valid(),
    {
        let ghost before = self@;
        proof {
            lemma_completed_valid(before, uuid);
        }
        if let Some(index) = position(&self.decode, uuid) {
            proof {
                crate::mocker::queues::lemma_apart(before);
                let at = before.decode.index_of(uuid);
                assert(before.decode[at] == uuid);
                assert(at == index);
            }
            self.decode.remove(index);
            self.requests.remove(&uuid);
            self.active_tokens = self.active_tokens - 1;
            assert(self@ =~= before.completed(uuid));
        }
    }

    /// Makes the request that was answered longest wait again, behind all others; there may be
    /// none. What it has become is for the caller to reset.
    pub fn preempt(&mut self) -> (preempted: Option<u128>)
        requires
            old(self)@.valid(),
            old(self)@.decode.len() > 0 ==> old(self)@.active_tokens > 0,
        ensures
            match preempted {
                Some(uuid) => {
                    &&& old(self)@.decode.len() > 0
                    &&& uuid == old(self)@.decode[0]
                    &&& final(self)@ == old(self)@.preempted()
                },
                None => old(self)@.decode.len() == 0 && final(self)@ == old(self)@,
            },
            final(self)@.valid(),
    {
        let ghost before = self@;
        if self.decode.len() == 0 {
            return None;
        }
        proof {
            lemma_preempted_valid(before);
        }
        let uuid: u128 = self.decode.remove(0);
        self.waiting.push_back(uuid);
        self.active_tokens = self.active_tokens - 1;
        proof {
            assert(self@.decode =~= before.decode.drop_first());
            assert(self@ =~= before.preempted());
        }
        Some(uuid)
    }

    /// Puts tokens into the cache for as long as the step has room: up to the first request that
    /// has to be cut, or for all that are scheduled.
    pub fn prefill_all(&mut self) -> (steps: Vec<PrefillStep>)
        requires
            old(self)@.valid(),
            old(self)@.limit matches Some(limit) ==> old(self)@.active_tokens <= limit,
            old(self)@.active_tokens + old(self)@.waiting_tokens <= usize::MAX,
        ensures
            steps@ == prefill_steps(old(self)@),
            final(self)@ == after_prefills(old(self)@),
            final(self)@.valid(),
    {
        let ghost before = self@;
        let mut steps: Vec<PrefillStep> = Vec::new();
        proof {
            assert(Seq::<PrefillStep>::empty() + prefill_steps(before) =~= prefill_steps(before));
        }
        loop
            invariant_except_break
                self@.valid(),
                self@.limit matches Some(limit) ==> self@.active_tokens <= limit,
                self@.active_tokens + self@.waiting_tokens <= usize::MAX,
                steps@ + prefill_steps(self@) == prefill_steps(before),
                after_prefills(self@) == after_prefills(before),
            ensures
                self@.valid(),
                steps@ == prefill_steps(before),
                self@ == after_prefills(before),
            decreases self@.prefill.len(),
        {
            let ghost now = self@;
            let ghost earlier = steps@;
            match self.try_prefill() {
                Some(step) => {
                    steps.push(step);
                    if step.chunk.is_some() {
                        proof {
                            assert(prefill_steps(now) =~= seq![step]);
                            assert(earlier + seq![step] =~= steps@);
                        }
                        break;
                    }
                    proof {
                        assert(prefill_steps(now) == seq![step] + prefill_steps(self@));
                        assert(earlier + (seq![step] + prefill_steps(self@)) =~= steps@
                            + prefill_steps(self@));
                    }
                },
                None => {
                    proof {
                        assert(earlier + Seq::<PrefillStep>::empty() =~= steps@);
                    }
                    break;
                },
            }
        }
        steps
    }
}

/// What is done, step by step, to fill the cache.
pub open spec fn prefill_steps<D, S>(queues: Queues<D, S>) -> Seq<PrefillStep>
    decreases queues.prefill.len(),
{
    if queues.prefill.len() == 0 {
        Seq::empty()
    } else if queues.chunk() is Some {
        seq![queues.next_prefill()]
    } else {
        seq![queues.next_prefill()] + prefill_steps(queues.prefilled())
    }
}

/// The queues once the cache is filled.
pub open spec fn after_prefills<D, S>(queues: Queues<D, S>) -> Queues<D, S>
    decreases queues.prefill.len(),
{
    if queues.prefill.len() == 0 {
        queues
    } else if queues.chunk() is Some {
        queues.prefilled()
    } else {
        after_prefills(queues.prefilled())
    }
}

/// What the engine can take on.
#[derive(Clone, Copy, Debug, PartialEq, Eq, Structural)]
pub struct Limits {
    /// How many blocks of the cache may be in use; some are kept free.
    pub blocks: usize,
    pub max_num_batched_tokens: Option<usize>,
    pub max_num_seqs: Option<usize>,
    /// Whether the tokens of a request may be put into the cache in several steps.
    pub enable_chunked_prefill: bool,
    pub block_size: u32,
}

/// What the engine has taken on.
#[derive(Clone, Copy, Debug, PartialEq, Eq, Structural)]
pub struct Budget {
    pub blocks: usize,
    pub tokens: usize,
    pub seqs: usize,
}

/// What matters of a request that waits: how many tokens it has, and how many of them are not in
/// the cache.
#[derive(Clone, Copy, Debug, PartialEq, Eq, Structural)]
pub struct Candidate {
    pub total_tokens: u32,
    pub new_tokens: usize,
}

/// How many blocks some tokens need.
pub open spec fn blocks_for(tokens: int, block_size: int) -> int {
    (tokens + block_size - 1) / block_size
}

/// What the engine has taken on together with some candidates: blocks, tokens and requests.
pub open spec fn taken_on(budget: Budget, candidates: Seq<Candidate>, block_size: int) -> (
    int,
    int,
    int,
)
    decreases candidates.len(),
{
    if candidates.len() == 0 {
        (budget.blocks as int, budget.tokens as int, budget.seqs as int)
    } else {
        let before = taken_on(budget, candidates.drop_last(), block_size);
        let last = candidates.last();
        (
            before.0 + blocks_for(last.total_tokens as int, block_size),
            before.1 + last.new_tokens,
            before.2 + 1,
        )
    }
}

/// Whether the last of some candidates can be taken on, all others before it being taken on. Where
/// tokens may come in several steps, its own do not have to fit.
pub open spec fn last_fits(limits: Limits, budget: Budget, candidates: Seq<Candidate>) -> bool {
    let taken = taken_on(budget, candidates, limits.block_size as int);
    let tokens = if limits.enable_chunked_prefill {
        taken.1 - candidates.last().new_tokens
    } else {
        taken.1
    };
    &&& taken.0 <= limits.blocks
    &&& limits.max_num_batched_tokens matches Some(limit) ==> tokens <= limit
    &&& limits.max_num_seqs matches Some(limit) ==> taken.2 <= limit
}

/// Whether each of the first candidates can be taken on, those before it being taken on.
pub open spec fn all_fit(
    limits: Limits,
    budget: Budget,
    candidates: Seq<Candidate>,
    count: int,
) -> bool {
    forall|n: int| 0 < n <= count ==> #[trigger] last_fits(limits, budget, candidates.take(n))
}

/// Whether everything that adds up stays within what a number can hold.
pub open spec fn countable(limits: Limits, budget: Budget, candidates: Seq<Candidate>) -> bool {
    forall|i: int|
        0 <= i <= candidates.len() ==> {
            let taken = #[trigger] taken_on(budget, candidates.take(i), limits.block_size as int);
            taken.0 <= usize::MAX && taken.1 <= usize::MAX && taken.2 <= usize::MAX
        }
}

fn block_count(tokens: u32, block_size: u32) -> (blocks: u32)
    requires
        block_size > 0,
    ensures
        blocks == blocks_for(tokens as int, block_size as int),
{
    let whole: u32 = tokens / block_size;
    let rest: u32 = tokens % block_size;
    proof {
        let t = tokens as int;
        let b = block_size as int;
        vstd::arithmetic::div_mod::lemma_fundamental_div_mod(t, b);
        if rest == 0 {
            assert((t + b - 1) / b == t / b) by (nonlinear_arith)
                requires
                    b > 0,
                    t == b * (t / b) + 0,
            ;
        } else {
            assert((t + b - 1) / b == t / b + 1) by (nonlinear_arith)
                requires
                    b > 0,
                    t == b * (t / b) + t % b,
                    0 < t % b < b,
            ;
            assert(whole < u32::MAX) by (nonlinear_arith)
                requires
                    whole == tokens / block_size,
                    rest == tokens % block_size,
                    rest > 0,
                    block_size > 0,
            ;
        }
    }
    if rest == 0 {
        whole
    } else {
        whole + 1
    }
}

/// Decides how many of the requests that wait are scheduled: from the first on, up to one that the
/// engine cannot take on. That one stays first in line.
pub fn try_schedule(limits: Limits, budget: Budget, candidates: &Vec<Candidate>) -> (scheduled:
    usize)
    requires
        limits.block_size > 0,
        countable(limits, budget, candidates@),
    ensures
        scheduled <= candidates@.len(),
        all_fit(limits, budget, candidates@, scheduled as int),
        scheduled < candidates@.len() ==> !last_fits(
            limits,
            budget,
            candidates@.take(scheduled + 1),
        ),
{
    let mut current = budget;
    let mut index: usize = 0;
    assert(candidates@.take(0) =~= Seq::<Candidate>::empty());
    while index < candidates.len()
        invariant
            index <= candidates@.len(),
            limits.block_size > 0,
            countable(limits, budget, candidates@),
            taken_on(budget, candidates@.take(index as int), limits.block_size as int) == (
                current.blocks as int,
                current.tokens as int,
                current.seqs as int,
            ),
            all_fit(limits, budget, candidates@, index as int),
        decreases candidates@.len() - index,
    {
        let candidate = candidates[index];
        proof {
            lemma_take_next(candidates@, index as int);
            let taken = taken_on(
                budget,
                candidates@.take(index + 1),
                limits.block_size as int,
            );
        }
        let new_blocks: u32 = block_count(candidate.total_tokens, limits.block_size);
        let before_tokens: usize = current.tokens;
        current =
        Budget {
            blocks: current.blocks + new_blocks as usize,
            tokens: current.tokens + candidate.new_tokens,
            seqs: current.seqs + 1,
        };
        let compared_tokens: usize = if limits.enable_chunked_prefill {
            before_tokens
        } else {
            current.tokens
        };
        let under_block_budget = current.blocks <= limits.blocks;
        let under_token_budget = match limits.max_num_batched_tokens {
            Some(limit) => compared_tokens <= limit,
            None => true,
        };
        let under_seq_budget = match limits.max_num_seqs {
            Some(limit) => current.seqs <= limit,
            None => true,
        };
        if !(under_block_budget && under_token_budget && under_seq_budget) {
            return index;
        }
        index += 1;
    }
    index
}

/// The sum of some lengths.
pub open spec fn total_length(lengths: Seq<usize>) -> int
    decreases lengths.len(),
{
    if lengths.len() == 0 {
        0
    } else {
        total_length(lengths.drop_last()) + lengths.last()
    }
}

/// The average length of the sequences that are being answered, or zero.
pub fn average_length(lengths: &Vec<usize>) -> (average: usize)
    requires
        forall|i: int|
            0 <= i <= lengths@.len() ==> #[trigger] total_length(lengths@.take(i)) <= usize::MAX,
    ensures
        average == (if lengths@.len() == 0 {
            0
        } else {
            total_length(lengths@) / lengths@.len() as int
        }),
{
    let mut total: usize = 0;
    let mut index: usize = 0;
    while index < lengths.len()
        invariant
            index <= lengths@.len(),
            total == total_length(lengths@.take(index as int)),
            forall|i: int|
                0 <= i <= lengths@.len() ==> #[trigger] total_length(lengths@.take(i))
                    <= usize::MAX,
        decreases lengths@.len() - index,
    {
        proof {
            lemma_take_next(lengths@, index as int);
            assert(total_length(lengths@.take(index + 1)) <= usize::MAX);
        }
        total = total + lengths[index];
        index += 1;
    }
    assert(lengths@.take(index as int) =~= lengths@);
    if lengths.len() == 0 {
        0
    } else {
        total / lengths.len()
    }
}

/// What a sequence has made: how many tokens it has made, how many of those before it had to wait
/// again, and how many it may make.
#[derive(Clone, Copy, Debug, PartialEq, Eq, Structural)]
pub struct Progress {
    pub generated_tokens: usize,
    pub already_generated_tokens: usize,
    pub max_output_tokens: usize,
}

/// What is done for a sequence that made one more token.
#[derive(Clone, Copy, Debug, PartialEq, Eq, Structural)]
pub enum DecodeStep {
    /// There was no room in the cache: take the token back, and make someone wait again.
    Preempt,
    /// Go on; a token that was not told before is told.
    Go { output: bool, completed: bool },
}

/// Decides what is done for a sequence that made one more token, given whether the cache had room
/// for it.
pub fn decode_step(room: bool, progress: Progress) -> (step: DecodeStep)
    ensures
        step == (if !room {
            DecodeStep::Preempt
        } else {
            DecodeStep::Go {
                output: progress.generated_tokens > progress.already_generated_tokens,
                completed: progress.generated_tokens >= progress.max_output_tokens,
            }
        }),
{
    if !room {
        return DecodeStep::Preempt;
    }
    DecodeStep::Go {
        output: progress.generated_tokens > progress.already_generated_tokens,
        completed: progress.generated_tokens >= progress.max_output_tokens,
    }
}

/// What is done for a sequence once its token was told, or could not be told because nobody
/// listens any more.
#[derive(Clone, Copy, Debug, PartialEq, Eq, Structural)]
pub struct AfterOutput {
    /// Give the sequence's place in the cache up.
    pub free: bool,
    /// Drop the request.
    pub complete: bool,
}

/// Decides what is done for a sequence once its token was told.
pub fn after_output(completed: bool, send_failed: bool) -> (after: AfterOutput)
    ensures
        after == (AfterOutput { free: send_failed, complete: send_failed || completed }),
{
    AfterOutput { free: send_failed, complete: send_failed || completed }
}

/// A change of the cache.
#[derive(Clone, Debug)]
pub enum Signal {
    /// The use of some blocks: how many, and whether the first is one that is being filled.
    Use { blocks: usize, partial: bool },
    /// Anything else, as text.
    Other(String),
}

/// What is wrong with a change of the cache that could not be made, if anything is. Only the use
/// of one more block, to be filled, may fail.
pub open spec fn signal_problem(signal: Signal, active_blocks: usize) -> Option<Seq<char>> {
    match signal {
        Signal::Other(text) => Some(
            "Failed signal is Invalid. Has to fail on generation signal, but failed on "@ + text@,
        ),
        Signal::Use { blocks, partial } => if blocks != 1 {
            Some(
                "Failed signal is Invalid. Tried to create (prefill) "@ + decimal_text(
                    blocks as nat,
                ) + " blocks on top of "@ + decimal_text(active_blocks as nat)
                    + " active blocks."@,
            )
        } else if !partial {
            Some("Failed signal is Invalid. Generation block has to be partial."@)
        } else {
            None
        },
    }
}

/// Looks at a change of the cache that could not be made.
pub fn check_failed_signal(signal: &Signal, active_blocks: usize) -> (checked: Result<
    (),
    String,
>)
    ensures
        match checked {
            Ok(()) => signal_problem(*signal, active_blocks) is None,
            Err(problem) => signal_problem(*signal, active_blocks) == Some(problem@),
        },
{
    match signal {
        Signal::Other(text) => Err(
            join(
                "Failed signal is Invalid. Has to fail on generation signal, but failed on ",
                text.as_str(),
            ),
        ),
        Signal::Use { blocks, partial } => {
            if *blocks != 1 {
                let mut problem = surround(
                    "Failed signal is Invalid. Tried to create (prefill) ",
                    decimal(*blocks as u64).as_str(),
                    " blocks on top of ",
                );
                problem.append(decimal(active_blocks as u64).as_str());
                problem.append(" active blocks.");
                return Err(problem);
            }
            if !*partial {
                return Err(
                    String::from_str(
                        "Failed signal is Invalid. Generation block has to be partial.",
                    ),
                );
            }
            Ok(())
        },
    }
}

/// What is done next about a list of changes of the cache.
#[derive(Clone, Debug, PartialEq, Eq)]
pub enum SignalStep {
    /// Make the change at this place of the list.
    Make(usize),
    /// All changes were made.
    AllMade,
    /// There is no room for the block that was to be filled; the rest of the list is left.
    NoRoom,
    /// A change failed that may not fail; this is what is wrong.
    Invalid(String),
}

/// The step that follows once the first `made` changes were made.
pub open spec fn step_after(signals: Seq<Signal>, made: int) -> SignalStep {
    if made < signals.len() {
        SignalStep::Make(made as usize)
    } else {
        SignalStep::AllMade
    }
}

/// Begins with a list of changes of the cache.
pub fn first_signal(signals: &[Signal]) -> (step: SignalStep)
    ensures
        step == step_after(signals@, 0),
{
    if signals.len() > 0 {
        SignalStep::Make(0)
    } else {
        SignalStep::AllMade
    }
}

/// Goes on with a list of changes of the cache once the one at `index` was tried. The first that
/// fails ends the list.
pub fn next_signal(
    signals: &[Signal],
    index: usize,
    made: bool,
    active_blocks: usize,
) -> (step: SignalStep)
    requires
        index < signals@.len(),
    ensures
        if made {
            step == step_after(signals@, index + 1)
        } else {
            match signal_problem(signals@[index as int], active_blocks) {
                None => step == SignalStep::NoRoom,
                Some(problem) => step matches SignalStep::Invalid(told) && told@ == problem,
            }
        },
{
    if made {
        return if index < signals.len() - 1 {
            SignalStep::Make(index + 1)
        } else {
            SignalStep::AllMade
        };
    }
    match check_failed_signal(&signals[index], active_blocks) {
        Ok(()) => SignalStep::NoRoom,
        Err(problem) => SignalStep::Invalid(problem),
    }
}

/// How busy a worker is.
#[derive(Clone, Copy, Debug, PartialEq, Eq, Structural)]
pub struct WorkerStats {
    pub data_parallel_rank: Option<u32>,
    pub request_active_slots: u64,
    pub request_total_slots: u64,
    pub num_requests_waiting: u64,
}

/// How many requests a worker is taken to answer at once.
pub const REQUEST_TOTAL_SLOTS: u64 = 1024;

/// Tells how busy the engine is.
pub fn worker_stats<D, S>(state: &SchedulerState<D, S>, dp_rank: u32) -> (stats: WorkerStats)
    ensures
        stats.data_parallel_rank == Some(dp_rank),
        stats.request_active_slots == state@.decode.len(),
        stats.request_total_slots == 1024,
        stats.num_requests_waiting == state@.waiting.len(),
{
    WorkerStats {
        data_parallel_rank: Some(dp_rank),
        request_active_slots: state.decode.len() as u64,
        request_total_slots: REQUEST_TOTAL_SLOTS,
        num_requests_waiting: state.waiting.len() as u64,
    }
}

} // verus!
