//! How much of a request each worker already holds.
use crate::kv_router::protocols::WorkerWithDpRank;
use crate::kv_router::worker_map::WorkerMap;
use crate::seqs::lemma_push_contains;
use vstd::prelude::*;

verus! {

/// How often `worker` occurs in `list`.
pub open spec fn times_listed(list: Seq<WorkerWithDpRank>, worker: WorkerWithDpRank) -> nat
    decreases list.len(),
{
    if list.len() == 0 {
        0
    } else {
        times_listed(list.drop_last(), worker) + if list.last() == worker {
            1nat
        } else {
            0nat
        }
    }
}

/// The score of a worker, zero for one without an entry.
pub open spec fn score_of(scores: Map<WorkerWithDpRank, u32>, worker: WorkerWithDpRank) -> int {
    if scores.contains_key(worker) {
        scores[worker] as int
    } else {
        0
    }
}

/// A worker is listed at least once exactly where the list contains it.
pub proof fn lemma_times_listed(list: Seq<WorkerWithDpRank>, worker: WorkerWithDpRank)
    ensures
        times_listed(list, worker) > 0 <==> list.contains(worker),
        times_listed(list, worker) <= list.len(),
    decreases list.len(),
{
    if list.len() > 0 {
        let shorter = list.drop_last();
        lemma_times_listed(shorter, worker);
        assert(list =~= shorter.push(list.last()));
        lemma_push_contains(shorter, list.last(), worker);
    }
}

/// A list in which every worker stands at most once lists each member once.
pub proof fn lemma_listed_once(list: Seq<WorkerWithDpRank>, worker: WorkerWithDpRank)
    requires
        forall|i: int, j: int|
            0 <= i < j < list.len() ==> (#[trigger] list[i]).precedes(#[trigger] list[j]),
    ensures
        times_listed(list, worker) == if list.contains(worker) {
            1nat
        } else {
            0nat
        },
    decreases list.len(),
{
    lemma_times_listed(list, worker);
    if list.len() > 0 {
        let shorter = list.drop_last();
        lemma_listed_once(shorter, worker);
        lemma_times_listed(shorter, worker);
        if list.last() == worker && shorter.contains(worker) {
            let i = choose|i: int| 0 <= i < shorter.len() && shorter[i] == worker;
            assert(list[i].precedes(list[list.len() - 1]));
        }
    }
}

/// Longer lists mention a worker at least as often.
pub proof fn lemma_times_listed_prefix(
    list: Seq<WorkerWithDpRank>,
    worker: WorkerWithDpRank,
    len: int,
)
    requires
        0 <= len <= list.len(),
    ensures
        times_listed(list.take(len), worker) <= times_listed(list, worker),
    decreases list.len(),
{
    if len < list.len() {
        lemma_times_listed_prefix(list.drop_last(), worker, len);
        assert(list.drop_last().take(len) =~= list.take(len));
    } else {
        assert(list.take(len) =~= list);
    }
}

/// The overlap of every worker with a request.
pub struct OverlapScores {
    /// The number of matched blocks that each worker holds.
    pub scores: WorkerMap<u32>,
    /// How often each matched block was used lately; blocks without a use are left out.
    pub frequencies: Vec<usize>,
    /// The number of blocks of each scored worker.
    pub tree_sizes: WorkerMap<usize>,
}

impl Default for OverlapScores {
    fn default() -> (scores: Self)
        ensures
            scores.scores@ == Map::<WorkerWithDpRank, u32>::empty(),
            scores.frequencies@ == Seq::<usize>::empty(),
            scores.tree_sizes@ == Map::<WorkerWithDpRank, usize>::empty(),
    {
        OverlapScores::new()
    }
}

impl OverlapScores {
    pub fn new() -> (scores: Self)
        ensures
            scores.scores@ == Map::<WorkerWithDpRank, u32>::empty(),
            scores.frequencies@ == Seq::<usize>::empty(),
            scores.tree_sizes@ == Map::<WorkerWithDpRank, usize>::empty(),
    {
        OverlapScores {
            scores: WorkerMap::new(),
            frequencies: Vec::with_capacity(32),
            tree_sizes: WorkerMap::new(),
        }
    }

    /// Raises the score of a worker by one for each time it is listed.
    pub fn update_scores(&mut self, workers: &[WorkerWithDpRank])
        requires
            forall|worker: WorkerWithDpRank| #[trigger]
                score_of(old(self).scores@, worker) + times_listed(workers@, worker) <= u32::MAX,
        ensures
            forall|worker: WorkerWithDpRank| #[trigger]
                score_of(final(self).scores@, worker) == score_of(old(self).scores@, worker)
                    + times_listed(workers@, worker),
            forall|worker: WorkerWithDpRank| #[trigger]
                final(self).scores@.contains_key(worker) <==> old(self).scores@.contains_key(worker)
                    || workers@.contains(worker),
            final(self).frequencies == old(self).frequencies,
            final(self).tree_sizes == old(self).tree_sizes,
    {
        let ghost before = self.scores@;
        let mut index: usize = 0;
        assert(workers@.take(0) =~= Seq::empty());
        while index < workers.len()
            invariant
                index <= workers@.len(),
                before == old(self).scores@,
                self.frequencies == old(self).frequencies,
                self.tree_sizes == old(self).tree_sizes,
                forall|worker: WorkerWithDpRank| #[trigger]
                    score_of(before, worker) + times_listed(workers@, worker) <= u32::MAX,
                forall|worker: WorkerWithDpRank| #[trigger]
                    score_of(self.scores@, worker) == score_of(before, worker) + times_listed(
                        workers@.take(index as int),
                        worker,
                    ),
                forall|worker: WorkerWithDpRank| #[trigger]
                    self.scores@.contains_key(worker) <==> before.contains_key(worker)
                        || workers@.take(index as int).contains(worker),
            decreases workers@.len() - index,
        {
            let worker = workers[index];
            let score: u32 = match self.scores.get(&worker) {
                Some(score) => *score,
                None => 0,
            };
            let ghost earlier = self.scores@;
            proof {
                let shorter = workers@.take(index as int);
                let longer = workers@.take(index + 1);
                assert(longer.drop_last() =~= shorter);
                lemma_times_listed_prefix(workers@, worker, index + 1);
                assert(score_of(before, worker) + times_listed(workers@, worker) <= u32::MAX);
                assert(score_of(earlier, worker) == score_of(before, worker) + times_listed(
                    shorter,
                    worker,
                ));
            }
            self.scores.insert(worker, score + 1);
            proof {
                let shorter = workers@.take(index as int);
                let longer = workers@.take(index + 1);
                assert(longer =~= shorter.push(worker));
                assert forall|other: WorkerWithDpRank| #[trigger]
                    score_of(self.scores@, other) == score_of(before, other) + times_listed(
                        longer,
                        other,
                    ) by {
                    assert(score_of(earlier, other) == score_of(before, other) + times_listed(
                        shorter,
                        other,
                    ));
                }
                assert forall|other: WorkerWithDpRank| #[trigger]
                    self.scores@.contains_key(other) <==> before.contains_key(other)
                        || longer.contains(other) by {
                    lemma_push_contains(shorter, worker, other);
                    assert(earlier.contains_key(other) <==> before.contains_key(other)
                        || shorter.contains(other));
                }
            }
            index += 1;
        }
        assert(workers@.take(index as int) =~= workers@);
    }

    /// Records how often a block was used; a block without a use leaves no entry.
    pub fn add_frequency(&mut self, frequency: usize)
        ensures
            final(self).frequencies@ == (if frequency != 0 {
                old(self).frequencies@.push(frequency)
            } else {
                old(self).frequencies@
            }),
            final(self).scores == old(self).scores,
            final(self).tree_sizes == old(self).tree_sizes,
    {
        if frequency != 0 {
            self.frequencies.push(frequency);
        }
    }
}

} // verus!
