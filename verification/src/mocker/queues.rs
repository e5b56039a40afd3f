//! The queues of the mock engine, as mathematics.
use vstd::prelude::*;

verus! {

/// What is still to be done before the tokens of a request are all in the cache.
#[derive(Clone, Copy, Debug, PartialEq, Eq, Structural)]
pub struct PrefillCost {
    pub new_tokens: usize,
    pub cached_tokens: usize,
}

/// A request as it came, or with the sequence that it has become.
#[derive(Debug)]
pub enum Request<D, S> {
    Direct(D),
    Active(S),
}

/// The state of the queues: who waits, whose tokens are being put into the cache and who is being
/// answered, each in order, and what is known of them.
#[verifier::ext_equal]
pub struct Queues<D, S> {
    pub waiting: Seq<u128>,
    pub prefill: Seq<u128>,
    pub decode: Seq<u128>,
    pub requests: Map<u128, Request<D, S>>,
    pub costs: Map<u128, PrefillCost>,
    /// How many tokens a step may have, if there is a limit.
    pub limit: Option<usize>,
    /// How many tokens this step has.
    pub active_tokens: int,
    /// How many tokens are still to be put into the cache.
    pub waiting_tokens: int,
}

/// The tokens that some requests still have to put into the cache.
pub open spec fn tokens_left(ids: Seq<u128>, costs: Map<u128, PrefillCost>) -> int
    decreases ids.len(),
{
    if ids.len() == 0 {
        0
    } else {
        costs[ids[0]].new_tokens + tokens_left(ids.drop_first(), costs)
    }
}

/// What one step of filling the cache does for the request that is first in line.
#[derive(Clone, Copy, Debug, PartialEq, Eq, Structural)]
pub struct PrefillStep {
    pub uuid: u128,
    /// What was to be done before the step.
    pub cost: PrefillCost,
    /// How many tokens the step takes where it cannot take all.
    pub chunk: Option<usize>,
}

impl<D, S> Queues<D, S> {
    /// Everyone in a queue.
    pub open spec fn queued(self) -> Seq<u128> {
        self.waiting + self.prefill + self.decode
    }

    /// Everyone is in one queue, once; what is known is known of exactly those; and the tokens
    /// add up.
    pub open spec fn valid(self) -> bool {
        &&& self.queued().no_duplicates()
        &&& forall|id: u128| #[trigger]
            self.requests.contains_key(id) <==> self.queued().contains(id)
        &&& forall|id: u128|
            self.prefill.contains(id) || self.decode.contains(id) ==> #[trigger]
                self.requests[id] is Active
        &&& forall|id: u128| #[trigger]
            self.costs.contains_key(id) <==> self.prefill.contains(id)
        &&& self.waiting_tokens == tokens_left(self.prefill, self.costs)
    }

    pub open spec fn empty(limit: Option<usize>) -> Self {
        Queues {
            waiting: Seq::empty(),
            prefill: Seq::empty(),
            decode: Seq::empty(),
            requests: Map::empty(),
            costs: Map::empty(),
            limit,
            active_tokens: 0,
            waiting_tokens: 0,
        }
    }

    /// Someone comes and waits behind everyone.
    pub open spec fn received(self, id: u128, request: Request<D, S>) -> Self {
        Queues {
            waiting: self.waiting.push(id),
            requests: self.requests.insert(id, request),
            ..self
        }
    }

    /// The first who waits is called up.
    pub open spec fn called(self) -> Self {
        Queues {
            waiting: self.waiting.drop_first(),
            requests: self.requests.remove(self.waiting[0]),
            ..self
        }
    }

    /// Someone waits before everyone.
    pub open spec fn put_first(self, id: u128, request: Request<D, S>) -> Self {
        Queues {
            waiting: seq![id] + self.waiting,
            requests: self.requests.insert(id, request),
            ..self
        }
    }

    /// Someone who was called up goes on to have their tokens put into the cache.
    pub open spec fn scheduled(self, id: u128, sequence: S, cost: PrefillCost) -> Self {
        Queues {
            prefill: self.prefill.push(id),
            requests: self.requests.insert(id, Request::Active(sequence)),
            costs: self.costs.insert(id, cost),
            waiting_tokens: self.waiting_tokens + cost.new_tokens,
            ..self
        }
    }

    /// How many tokens fit into this step for the first in line, where not all of theirs do.
    pub open spec fn chunk(self) -> Option<usize> {
        let wanted = self.costs[self.prefill[0]].new_tokens;
        match self.limit {
            Some(limit) if wanted > limit - self.active_tokens => Some(
                (limit - self.active_tokens) as usize,
            ),
            _ => None,
        }
    }

    /// What the next step does for the first in line.
    pub open spec fn next_prefill(self) -> PrefillStep {
        PrefillStep {
            uuid: self.prefill[0],
            cost: self.costs[self.prefill[0]],
            chunk: self.chunk(),
        }
    }

    /// The tokens of the first in line are put into the cache, as many as fit into this step. Who
    /// has them all there is answered from now on.
    pub open spec fn prefilled(self) -> Self {
        let id = self.prefill[0];
        let cost = self.costs[id];
        match self.chunk() {
            Some(tokens) => Queues {
                costs: self.costs.insert(
                    id,
                    PrefillCost { new_tokens: (cost.new_tokens - tokens) as usize, ..cost },
                ),
                active_tokens: self.active_tokens + tokens,
                waiting_tokens: self.waiting_tokens - tokens,
                ..self
            },
            None => Queues {
                prefill: self.prefill.drop_first(),
                decode: self.decode.push(id),
                costs: self.costs.remove(id),
                active_tokens: self.active_tokens + cost.new_tokens,
                waiting_tokens: self.waiting_tokens - cost.new_tokens,
                ..self
            },
        }
    }

    /// A new step begins: everyone who is answered has one token in it.
    pub open spec fn reset(self) -> Self {
        Queues { active_tokens: self.decode.len() as int, ..self }
    }

    /// Someone is answered completely.
    pub open spec fn completed(self, id: u128) -> Self {
        Queues {
            decode: self.decode.remove(self.decode.index_of(id)),
            requests: self.requests.remove(id),
            active_tokens: self.active_tokens - 1,
            ..self
        }
    }

    /// The one who was answered longest has to wait again, behind everyone.
    pub open spec fn preempted(self) -> Self {
        Queues {
            waiting: self.waiting.push(self.decode[0]),
            decode: self.decode.drop_first(),
            active_tokens: self.active_tokens - 1,
            ..self
        }
    }
}

/// The sums of what is left differ by what the first has left.
pub proof fn lemma_tokens_left_push(ids: Seq<u128>, costs: Map<u128, PrefillCost>, last: u128)
    ensures
        tokens_left(ids.push(last), costs) == tokens_left(ids, costs) + costs[last].new_tokens,
    decreases ids.len(),
{
    if ids.len() == 0 {
        assert(ids.push(last).drop_first() =~= ids);
        assert(tokens_left(ids.push(last).drop_first(), costs) == 0);
    } else {
        assert(ids.push(last).drop_first() =~= ids.drop_first().push(last));
        lemma_tokens_left_push(ids.drop_first(), costs, last);
    }
}

/// The sum does not depend on what others have left.
pub proof fn lemma_tokens_left_same(
    ids: Seq<u128>,
    first: Map<u128, PrefillCost>,
    second: Map<u128, PrefillCost>,
)
    requires
        forall|id: u128| #[trigger] ids.contains(id) ==> first[id] == second[id],
    ensures
        tokens_left(ids, first) == tokens_left(ids, second),
    decreases ids.len(),
{
    if ids.len() > 0 {
        assert(ids.contains(ids[0]));
        assert forall|id: u128| #[trigger] ids.drop_first().contains(id) implies first[id]
            == second[id] by {
            let i = choose|i: int| 0 <= i < ids.drop_first().len() && ids.drop_first()[i] == id;
            assert(ids[i + 1] == id);
            assert(ids.contains(id));
        }
        lemma_tokens_left_same(ids.drop_first(), first, second);
    }
}

/// No one has less than nothing left.
proof fn lemma_tokens_left_nonnegative(ids: Seq<u128>, costs: Map<u128, PrefillCost>)
    ensures
        tokens_left(ids, costs) >= 0,
        ids.len() > 0 ==> tokens_left(ids, costs) >= costs[ids[0]].new_tokens,
    decreases ids.len(),
{
    if ids.len() > 0 {
        lemma_tokens_left_nonnegative(ids.drop_first(), costs);
    }
}

/// Who is in a list made of three.
pub proof fn lemma_queued<D, S>(queues: Queues<D, S>, id: u128)
    ensures
        queues.queued().contains(id) <==> queues.waiting.contains(id) || queues.prefill.contains(id)
            || queues.decode.contains(id),
{
    let all = queues.queued();
    let w = queues.waiting.len() as int;
    let p = queues.prefill.len() as int;
    if all.contains(id) {
        let i = choose|i: int| 0 <= i < all.len() && all[i] == id;
        if i < w {
            assert(queues.waiting[i] == id);
        } else if i < w + p {
            assert(queues.prefill[i - w] == id);
        } else {
            assert(queues.decode[i - w - p] == id);
        }
    }
    if queues.waiting.contains(id) {
        let i = choose|i: int| 0 <= i < w && queues.waiting[i] == id;
        assert(all[i] == id);
    }
    if queues.prefill.contains(id) {
        let i = choose|i: int| 0 <= i < p && queues.prefill[i] == id;
        assert(all[w + i] == id);
    }
    if queues.decode.contains(id) {
        let i = choose|i: int| 0 <= i < queues.decode.len() && queues.decode[i] == id;
        assert(all[w + p + i] == id);
    }
}

/// Whether everyone in three lists is in one of them only, once.
pub open spec fn apart(waiting: Seq<u128>, prefill: Seq<u128>, decode: Seq<u128>) -> bool {
    &&& waiting.no_duplicates()
    &&& prefill.no_duplicates()
    &&& decode.no_duplicates()
    &&& forall|id: u128|
        !(#[trigger] waiting.contains(id) && prefill.contains(id)) && !(waiting.contains(id)
            && decode.contains(id))
    &&& forall|id: u128| !(#[trigger] prefill.contains(id) && decode.contains(id))
}

/// Being in one queue once is being in one of three lists once.
pub proof fn lemma_apart<D, S>(queues: Queues<D, S>)
    ensures
        queues.queued().no_duplicates() <==> apart(queues.waiting, queues.prefill, queues.decode),
{
    let all = queues.queued();
    let w = queues.waiting.len() as int;
    let p = queues.prefill.len() as int;
    let d = queues.decode.len() as int;
    if all.no_duplicates() {
        assert forall|i: int, j: int| 0 <= i < w && 0 <= j < w && i != j implies queues.waiting[i]
            != queues.waiting[j] by {
            assert(all[i] != all[j]);
        }
        assert forall|i: int, j: int| 0 <= i < p && 0 <= j < p && i != j implies queues.prefill[i]
            != queues.prefill[j] by {
            assert(all[w + i] != all[w + j]);
        }
        assert forall|i: int, j: int| 0 <= i < d && 0 <= j < d && i != j implies queues.decode[i]
            != queues.decode[j] by {
            assert(all[w + p + i] != all[w + p + j]);
        }
        assert forall|id: u128|
            !(#[trigger] queues.waiting.contains(id) && queues.prefill.contains(id)) && !(
            queues.waiting.contains(id) && queues.decode.contains(id)) by {
            if queues.waiting.contains(id) {
                let i = choose|i: int| 0 <= i < w && queues.waiting[i] == id;
                if queues.prefill.contains(id) {
                    let j = choose|j: int| 0 <= j < p && queues.prefill[j] == id;
                    assert(all[i] != all[w + j]);
                }
                if queues.decode.contains(id) {
                    let j = choose|j: int| 0 <= j < d && queues.decode[j] == id;
                    assert(all[i] != all[w + p + j]);
                }
            }
        }
        assert forall|id: u128|
            !(#[trigger] queues.prefill.contains(id) && queues.decode.contains(id)) by {
            if queues.prefill.contains(id) && queues.decode.contains(id) {
                let i = choose|i: int| 0 <= i < p && queues.prefill[i] == id;
                let j = choose|j: int| 0 <= j < d && queues.decode[j] == id;
                assert(all[w + i] != all[w + p + j]);
            }
        }
    }
    if apart(queues.waiting, queues.prefill, queues.decode) {
        assert forall|i: int, j: int|
            0 <= i < all.len() && 0 <= j < all.len() && i != j implies all[i] != all[j] by {
            lemma_part_of(queues, i);
            lemma_part_of(queues, j);
        }
    }
}

/// In which of three lists a place of the whole lies.
proof fn lemma_part_of<D, S>(queues: Queues<D, S>, index: int)
    requires
        0 <= index < queues.queued().len(),
    ensures
        ({
            let w = queues.waiting.len() as int;
            let p = queues.prefill.len() as int;
            let id = queues.queued()[index];
            &&& index < w ==> queues.waiting[index] == id && queues.waiting.contains(id)
            &&& w <= index < w + p ==> queues.prefill[index - w] == id && queues.prefill.contains(
                id,
            )
            &&& w + p <= index ==> queues.decode[index - w - p] == id && queues.decode.contains(id)
        }),
{
}

/// Who is left in a list without its first.
pub proof fn lemma_drop_first(list: Seq<u128>, id: u128)
    requires
        list.no_duplicates(),
        list.len() > 0,
    ensures
        list.drop_first().no_duplicates(),
        list.contains(list[0]),
        list.drop_first().contains(id) <==> list.contains(id) && id != list[0],
{
    let rest = list.drop_first();
    if list.contains(id) && id != list[0] {
        let i = choose|i: int| 0 <= i < list.len() && list[i] == id;
        assert(rest[i - 1] == id);
    }
    if rest.contains(id) {
        let i = choose|i: int| 0 <= i < rest.len() && rest[i] == id;
        assert(list[i + 1] == id);
    }
}

/// Who is in a list with one more at its end.
pub proof fn lemma_push(list: Seq<u128>, last: u128, id: u128)
    requires
        list.no_duplicates(),
        !list.contains(last),
    ensures
        list.push(last).no_duplicates(),
        list.push(last).contains(id) <==> list.contains(id) || id == last,
{
    crate::seqs::lemma_push_contains(list, last, id);
    let longer = list.push(last);
    assert forall|i: int, j: int| 0 <= i < longer.len() && 0 <= j < longer.len() && i != j implies longer[i]
        != longer[j] by {
        if i == list.len() {
            assert(list.contains(list[j]));
        } else if j == list.len() {
            assert(list.contains(list[i]));
        }
    }
}

/// Who is in a list with one more at its start.
pub proof fn lemma_push_front(list: Seq<u128>, first: u128, id: u128)
    requires
        list.no_duplicates(),
        !list.contains(first),
    ensures
        (seq![first] + list).no_duplicates(),
        (seq![first] + list).contains(id) <==> list.contains(id) || id == first,
{
    let longer = seq![first] + list;
    assert(longer[0] == first);
    if list.contains(id) {
        let i = choose|i: int| 0 <= i < list.len() && list[i] == id;
        assert(longer[i + 1] == id);
    }
    if longer.contains(id) && id != first {
        let i = choose|i: int| 0 <= i < longer.len() && longer[i] == id;
        assert(list[i - 1] == id);
    }
    assert forall|i: int, j: int| 0 <= i < longer.len() && 0 <= j < longer.len() && i != j implies longer[i]
        != longer[j] by {
        if i == 0 {
            assert(list.contains(list[j - 1]));
        } else if j == 0 {
            assert(list.contains(list[i - 1]));
        }
    }
}

/// Who is left in a list without one of its members.
pub proof fn lemma_remove(list: Seq<u128>, index: int, id: u128)
    requires
        list.no_duplicates(),
        0 <= index < list.len(),
    ensures
        list.remove(index).no_duplicates(),
        list.remove(index).contains(id) <==> list.contains(id) && id != list[index],
{
    let rest = list.remove(index);
    if list.contains(id) && id != list[index] {
        let i = choose|i: int| 0 <= i < list.len() && list[i] == id;
        if i < index {
            assert(rest[i] == id);
        } else {
            assert(rest[i - 1] == id);
        }
    }
    if rest.contains(id) {
        let i = choose|i: int| 0 <= i < rest.len() && rest[i] == id;
        if i < index {
            assert(list[i] == id);
        } else {
            assert(list[i + 1] == id);
        }
    }
}

/// Empty queues are valid.
pub proof fn lemma_empty_valid<D, S>(limit: Option<usize>)
    ensures
        Queues::<D, S>::empty(limit).valid(),
{
    let queues = Queues::<D, S>::empty(limit);
    assert forall|id: u128| !(#[trigger] queues.queued().contains(id)) by {}
}

/// Queues stay valid when someone new comes.
pub proof fn lemma_received_valid<D, S>(queues: Queues<D, S>, id: u128, request: Request<D, S>)
    requires
        queues.valid(),
        !queues.requests.contains_key(id),
    ensures
        queues.received(id, request).valid(),
{
    let after = queues.received(id, request);
    lemma_apart(queues);
    lemma_apart(after);
    assert forall|other: u128| #[trigger]
        after.waiting.contains(other) <==> queues.waiting.contains(other) || other == id by {
        lemma_queued(queues, id);
        lemma_push(queues.waiting, id, other);
    }
    lemma_queued(queues, id);
    lemma_push(queues.waiting, id, id);
    assert forall|other: u128| #[trigger]
        after.requests.contains_key(other) <==> after.queued().contains(other) by {
        lemma_queued(queues, other);
        lemma_queued(after, other);
    }
}

/// Queues stay valid when the first who waits is called up, who is in none of them then.
pub proof fn lemma_called_valid<D, S>(queues: Queues<D, S>)
    requires
        queues.valid(),
        queues.waiting.len() > 0,
    ensures
        queues.called().valid(),
        queues.requests.contains_key(queues.waiting[0]),
        !queues.called().requests.contains_key(queues.waiting[0]),
{
    let first = queues.waiting[0];
    let after = queues.called();
    lemma_apart(queues);
    lemma_drop_first(queues.waiting, first);
    assert forall|other: u128| #[trigger]
        after.waiting.contains(other) <==> queues.waiting.contains(other) && other != first by {
        lemma_drop_first(queues.waiting, other);
    }
    lemma_apart(after);
    lemma_queued(queues, first);
    assert forall|other: u128| #[trigger]
        after.requests.contains_key(other) <==> after.queued().contains(other) by {
        lemma_queued(queues, other);
        lemma_queued(after, other);
    }
}

/// Queues stay valid when someone new waits before everyone.
pub proof fn lemma_put_first_valid<D, S>(queues: Queues<D, S>, id: u128, request: Request<D, S>)
    requires
        queues.valid(),
        !queues.requests.contains_key(id),
    ensures
        queues.put_first(id, request).valid(),
{
    let after = queues.put_first(id, request);
    lemma_apart(queues);
    lemma_queued(queues, id);
    lemma_push_front(queues.waiting, id, id);
    assert forall|other: u128| #[trigger]
        after.waiting.contains(other) <==> queues.waiting.contains(other) || other == id by {
        lemma_push_front(queues.waiting, id, other);
    }
    lemma_apart(after);
    assert forall|other: u128| #[trigger]
        after.requests.contains_key(other) <==> after.queued().contains(other) by {
        lemma_queued(queues, other);
        lemma_queued(after, other);
    }
}

/// Queues stay valid when someone new has their tokens put into the cache.
pub proof fn lemma_scheduled_valid<D, S>(
    queues: Queues<D, S>,
    id: u128,
    sequence: S,
    cost: PrefillCost,
)
    requires
        queues.valid(),
        !queues.requests.contains_key(id),
    ensures
        queues.scheduled(id, sequence, cost).valid(),
{
    let after = queues.scheduled(id, sequence, cost);
    lemma_apart(queues);
    lemma_queued(queues, id);
    lemma_push(queues.prefill, id, id);
    assert forall|other: u128| #[trigger]
        after.prefill.contains(other) <==> queues.prefill.contains(other) || other == id by {
        lemma_push(queues.prefill, id, other);
    }
    lemma_apart(after);
    assert forall|other: u128| #[trigger]
        after.requests.contains_key(other) <==> after.queued().contains(other) by {
        lemma_queued(queues, other);
        lemma_queued(after, other);
    }
    assert forall|other: u128|
        after.prefill.contains(other) || after.decode.contains(other) implies #[trigger]
        after.requests[other] is Active by {
        if other != id {
            assert(queues.requests[other] is Active);
        }
    }
    assert forall|other: u128| #[trigger] queues.prefill.contains(other) implies queues.costs[other]
        == after.costs[other] by {}
    lemma_tokens_left_same(queues.prefill, queues.costs, after.costs);
    lemma_tokens_left_push(queues.prefill, after.costs, id);
}

/// Queues stay valid when the first in line has tokens put into the cache.
pub proof fn lemma_prefilled_valid<D, S>(queues: Queues<D, S>)
    requires
        queues.valid(),
        queues.prefill.len() > 0,
        queues.limit matches Some(limit) ==> 0 <= queues.active_tokens <= limit,
    ensures
        queues.prefilled().valid(),
        queues.costs.contains_key(queues.prefill[0]),
        queues.waiting_tokens >= queues.costs[queues.prefill[0]].new_tokens,
{
    let id = queues.prefill[0];
    let after = queues.prefilled();
    let rest = queues.prefill.drop_first();
    lemma_apart(queues);
    lemma_drop_first(queues.prefill, id);
    lemma_tokens_left_nonnegative(queues.prefill, queues.costs);
    assert(queues.prefill.contains(id));
    assert forall|other: u128| #[trigger] rest.contains(other) <==> queues.prefill.contains(other)
        && other != id by {
        lemma_drop_first(queues.prefill, other);
    }
    assert forall|other: u128| #[trigger] rest.contains(other) implies queues.costs[other]
        == after.costs[other] by {}
    lemma_tokens_left_same(rest, queues.costs, after.costs);
    if queues.chunk() is None {
        lemma_push(queues.decode, id, id);
        assert forall|other: u128| #[trigger]
            after.decode.contains(other) <==> queues.decode.contains(other) || other == id by {
            lemma_push(queues.decode, id, other);
        }
    }
    lemma_apart(after);
    assert forall|other: u128| #[trigger]
        after.requests.contains_key(other) <==> after.queued().contains(other) by {
        lemma_queued(queues, other);
        lemma_queued(after, other);
    }
    assert forall|other: u128|
        after.prefill.contains(other) || after.decode.contains(other) implies #[trigger]
        after.requests[other] is Active by {
        assert(queues.prefill.contains(other) || queues.decode.contains(other));
    }
}

/// Queues stay valid when someone who is answered leaves.
pub proof fn lemma_completed_valid<D, S>(queues: Queues<D, S>, id: u128)
    requires
        queues.valid(),
        queues.decode.contains(id),
    ensures
        queues.completed(id).valid(),
{
    let at = queues.decode.index_of(id);
    let after = queues.completed(id);
    lemma_apart(queues);
    lemma_remove(queues.decode, at, id);
    assert forall|other: u128| #[trigger]
        after.decode.contains(other) <==> queues.decode.contains(other) && other != id by {
        lemma_remove(queues.decode, at, other);
    }
    lemma_apart(after);
    assert forall|other: u128| #[trigger]
        after.requests.contains_key(other) <==> after.queued().contains(other) by {
        lemma_queued(queues, other);
        lemma_queued(after, other);
    }
    assert forall|other: u128|
        after.prefill.contains(other) || after.decode.contains(other) implies #[trigger]
        after.requests[other] is Active by {
        assert(queues.requests[other] is Active);
    }
}

/// Queues stay valid when someone has to wait again.
pub proof fn lemma_preempted_valid<D, S>(queues: Queues<D, S>)
    requires
        queues.valid(),
        queues.decode.len() > 0,
    ensures
        queues.preempted().valid(),
{
    let id = queues.decode[0];
    let after = queues.preempted();
    lemma_apart(queues);
    lemma_drop_first(queues.decode, id);
    assert(queues.decode.contains(id));
    lemma_push(queues.waiting, id, id);
    assert forall|other: u128| #[trigger]
        after.decode.contains(other) <==> queues.decode.contains(other) && other != id by {
        lemma_drop_first(queues.decode, other);
    }
    assert forall|other: u128| #[trigger]
        after.waiting.contains(other) <==> queues.waiting.contains(other) || other == id by {
        lemma_push(queues.waiting, id, other);
    }
    lemma_apart(after);
    assert forall|other: u128| #[trigger]
        after.requests.contains_key(other) <==> after.queued().contains(other) by {
        lemma_queued(queues, other);
        lemma_queued(after, other);
    }
}

/// Who is called up and cannot be scheduled goes back to their place: nothing has changed but
/// what they have become.
pub proof fn law_refused_request_keeps_its_place<D, S>(
    queues: Queues<D, S>,
    request: Request<D, S>,
)
    requires
        queues.valid(),
        queues.waiting.len() > 0,
    ensures
        queues.called().put_first(queues.waiting[0], request) == (Queues {
            requests: queues.requests.insert(queues.waiting[0], request),
            ..queues
        }),
{
    let id = queues.waiting[0];
    let after = queues.called().put_first(id, request);
    assert(after.waiting =~= queues.waiting);
    assert(after.requests =~= queues.requests.insert(id, request));
}

/// Putting tokens into the cache neither makes nor loses any, and a step never has more than its
/// limit.
pub proof fn law_prefill_keeps_the_tokens<D, S>(queues: Queues<D, S>)
    requires
        queues.valid(),
        queues.prefill.len() > 0,
        queues.limit matches Some(limit) ==> 0 <= queues.active_tokens <= limit,
    ensures
        queues.prefilled().active_tokens + queues.prefilled().waiting_tokens
            == queues.active_tokens + queues.waiting_tokens,
        queues.limit matches Some(limit) ==> queues.prefilled().active_tokens <= limit,
        queues.chunk() is Some ==> queues.prefilled().prefill == queues.prefill
            && queues.prefilled().costs[queues.prefill[0]].new_tokens > 0,
{
}

/// Nobody is lost: filling the cache and making someone wait again keep everyone who was known.
pub proof fn law_nobody_is_lost<D, S>(queues: Queues<D, S>, id: u128)
    requires
        queues.valid(),
        queues.requests.contains_key(id),
        queues.limit matches Some(limit) ==> 0 <= queues.active_tokens <= limit,
    ensures
        queues.prefill.len() > 0 ==> queues.prefilled().queued().contains(id),
        queues.decode.len() > 0 ==> queues.preempted().queued().contains(id),
{
    if queues.prefill.len() > 0 {
        lemma_prefilled_valid(queues);
        assert(queues.prefilled().requests.contains_key(id));
    }
    if queues.decode.len() > 0 {
        lemma_preempted_valid(queues);
        assert(queues.preempted().requests.contains_key(id));
    }
}

} // verus!
