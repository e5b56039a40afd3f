//! Spreading workers over index shards and joining what the shards answer.
use crate::kv_router::overlap::OverlapScores;
use crate::kv_router::protocols::WorkerId;
use crate::kv_router::radix_tree::RouterEvent;
use std::collections::HashMap;
use vstd::prelude::*;

verus! {

broadcast use vstd::std_specs::hash::group_hash_axioms;

/// The workers assigned to a shard.
pub open spec fn workers_on(assignments: Map<WorkerId, usize>, shard: int) -> Set<WorkerId> {
    Set::new(
        |worker: WorkerId| assignments.contains_key(worker) && assignments[worker] as int == shard,
    )
}

/// The shard with the fewest workers, the first of several.
pub open spec fn least_loaded(counts: Seq<usize>, shard: int) -> bool {
    &&& 0 <= shard < counts.len()
    &&& forall|other: int| 0 <= other < counts.len() ==> counts[shard] <= #[trigger] counts[other]
    &&& forall|other: int| 0 <= other < shard ==> counts[shard] < #[trigger] counts[other]
}

/// Which shard keeps the blocks of which worker.
pub struct ShardAssignments {
    worker_assignments: HashMap<WorkerId, usize>,
    worker_counts: Vec<usize>,
}

impl ShardAssignments {
    pub closed spec fn assignments(&self) -> Map<WorkerId, usize> {
        self.worker_assignments@
    }

    /// The number of workers on each shard.
    pub closed spec fn counts(&self) -> Seq<usize> {
        self.worker_counts@
    }

    /// Every worker is on a shard that exists, and the counts are right.
    pub closed spec fn wf(&self) -> bool {
        &&& forall|worker: WorkerId| #[trigger]
            self.worker_assignments@.contains_key(worker) ==> self.worker_assignments@[worker]
                < self.worker_counts@.len()
        &&& forall|shard: int|
            #![trigger self.worker_counts@[shard]]
            #![trigger workers_on(self.worker_assignments@, shard)]
            0 <= shard < self.worker_counts@.len() ==> {
                &&& workers_on(self.worker_assignments@, shard).finite()
                &&& self.worker_counts@[shard] == workers_on(
                    self.worker_assignments@,
                    shard,
                ).len()
            }
    }

    /// Every known worker is on one of the shards, and each shard counts those on it.
    pub proof fn law_counts_are_true(&self)
        requires
            self.wf(),
        ensures
            self.assignments().dom().finite(),
            forall|worker: WorkerId| #[trigger]
                self.assignments().contains_key(worker) ==> self.assignments()[worker]
                    < self.counts().len(),
            forall|shard: int|
                0 <= shard < self.counts().len() ==> #[trigger] self.counts()[shard] == workers_on(
                    self.assignments(),
                    shard,
                ).len(),
    {
    }

    /// No workers on any of the shards.
    pub fn new(num_shards: usize) -> (shards: Self)
        ensures
            shards.wf(),
            shards.assignments() == Map::<WorkerId, usize>::empty(),
            shards.counts() == Seq::new(num_shards as nat, |shard: int| 0usize),
    {
        let mut worker_counts: Vec<usize> = Vec::new();
        while worker_counts.len() < num_shards
            invariant
                worker_counts@ =~= Seq::new(worker_counts@.len(), |shard: int| 0usize),
                worker_counts@.len() <= num_shards,
            decreases num_shards - worker_counts@.len(),
        {
            worker_counts.push(0);
        }
        let shards = ShardAssignments { worker_assignments: HashMap::new(), worker_counts };
        proof {
            assert forall|shard: int| 0 <= shard < num_shards implies workers_on(
                shards.worker_assignments@,
                shard,
            ) == Set::<WorkerId>::empty() by {
                assert(workers_on(shards.worker_assignments@, shard) =~= Set::empty());
            }
        }
        shards
    }

    /// The shard of a worker, which a new worker gets now: the one with the fewest workers. A
    /// worker keeps its shard until it is removed.
    pub fn assign(&mut self, worker: WorkerId) -> (shard: usize)
        requires
            old(self).wf(),
            old(self).counts().len() > 0,
            old(self).assignments().len() < usize::MAX,
        ensures
            final(self).wf(),
            final(self).counts().len() == old(self).counts().len(),
            shard < old(self).counts().len(),
            old(self).assignments().contains_key(worker) ==> {
                &&& shard == old(self).assignments()[worker]
                &&& final(self).assignments() == old(self).assignments()
                &&& final(self).counts() == old(self).counts()
            },
            !old(self).assignments().contains_key(worker) ==> {
                &&& least_loaded(old(self).counts(), shard as int)
                &&& final(self).assignments() == old(self).assignments().insert(worker, shard)
                &&& final(self).counts() == old(self).counts().update(
                    shard as int,
                    (old(self).counts()[shard as int] + 1) as usize,
                )
            },
    {
        match self.worker_assignments.get(&worker) {
            Some(shard) => {
                return *shard;
            },
            None => {},
        }
        let mut selected: usize = 0;
        let mut index: usize = 1;
        while index < self.worker_counts.len()
            invariant
                0 <= selected < index <= self.worker_counts@.len(),
                self.worker_counts@ == old(self).worker_counts@,
                self.worker_assignments@ == old(self).worker_assignments@,
                forall|other: int|
                    0 <= other < index ==> self.worker_counts@[selected as int]
                        <= #[trigger] self.worker_counts@[other],
                forall|other: int|
                    0 <= other < selected ==> self.worker_counts@[selected as int]
                        < #[trigger] self.worker_counts@[other],
            decreases self.worker_counts@.len() - index,
        {
            if self.worker_counts[index] < self.worker_counts[selected] {
                selected = index;
            }
            index += 1;
        }
        let ghost before = self.worker_assignments@;
        let ghost counts = self.worker_counts@;
        proof {
            assert(workers_on(before, selected as int).subset_of(before.dom()));
            vstd::set_lib::lemma_len_subset(workers_on(before, selected as int), before.dom());
        }
        self.worker_assignments.insert(worker, selected);
        let count: usize = self.worker_counts[selected];
        self.worker_counts.set(selected, count + 1);
        proof {
            let after = self.worker_assignments@;
            assert forall|shard: int|
                #![trigger self.worker_counts@[shard]]
                #![trigger workers_on(after, shard)]
                0 <= shard < counts.len() implies {
                &&& workers_on(after, shard).finite()
                &&& self.worker_counts@[shard] == workers_on(after, shard).len()
            } by {
                assert(counts[shard] == workers_on(before, shard).len());
                assert(workers_on(before, shard).finite());
                if shard == selected {
                    assert(workers_on(after, shard) =~= workers_on(before, shard).insert(worker));
                } else {
                    assert(workers_on(after, shard) =~= workers_on(before, shard));
                }
            }
        }
        selected
    }

    /// Takes a worker off its shard, and tells which one it was.
    pub fn remove(&mut self, worker: WorkerId) -> (shard: Option<usize>)
        requires
            old(self).wf(),
        ensures
            final(self).wf(),
            final(self).counts().len() == old(self).counts().len(),
            final(self).assignments() == old(self).assignments().remove(worker),
            shard == (if old(self).assignments().contains_key(worker) {
                Some(old(self).assignments()[worker])
            } else {
                None
            }),
            final(self).counts() == (match shard {
                Some(shard) => old(self).counts().update(
                    shard as int,
                    (old(self).counts()[shard as int] - 1) as usize,
                ),
                None => old(self).counts(),
            }),
    {
        let ghost before = self.worker_assignments@;
        let ghost counts = self.worker_counts@;
        match self.worker_assignments.remove(&worker) {
            Some(shard) => {
                proof {
                    assert(counts[shard as int] == workers_on(before, shard as int).len());
                    assert(workers_on(before, shard as int).contains(worker));
                }
                let count: usize = self.worker_counts[shard];
                self.worker_counts.set(shard, count - 1);
                proof {
                    let after = self.worker_assignments@;
                    assert forall|other: int|
                        #![trigger self.worker_counts@[other]]
                        #![trigger workers_on(after, other)]
                        0 <= other < counts.len() implies {
                        &&& workers_on(after, other).finite()
                        &&& self.worker_counts@[other] == workers_on(after, other).len()
                    } by {
                        assert(counts[other] == workers_on(before, other).len());
                        assert(workers_on(before, other).finite());
                        if other == shard {
                            assert(workers_on(after, other) =~= workers_on(before, other).remove(
                                worker,
                            ));
                        } else {
                            assert(workers_on(after, other) =~= workers_on(before, other));
                        }
                    }
                }
                Some(shard)
            },
            None => {
                assert(self.worker_assignments@ =~= before);
                None
            },
        }
    }
}

/// The frequencies of two shards added up place by place; the shorter list counts as zeros.
pub open spec fn added(first: Seq<usize>, second: Seq<usize>) -> Seq<usize> {
    Seq::new(
        if first.len() < second.len() {
            second.len()
        } else {
            first.len()
        },
        |i: int|
            if i < first.len() && i < second.len() {
                (first[i] + second[i]) as usize
            } else if i < first.len() {
                first[i]
            } else {
                second[i]
            },
    )
}

/// Joins the answer of a further shard to what the others answered. Workers of the later answer
/// replace those of the same name, the first answer's frequencies are taken as they are, and
/// later ones are added.
pub fn merge_scores(merged: &mut OverlapScores, response: OverlapScores, response_num: usize)
    requires
        response_num > 0 ==> forall|i: int|
            0 <= i < old(merged).frequencies@.len() && i < response.frequencies@.len()
                ==> #[trigger] old(merged).frequencies@[i] + response.frequencies@[i]
                <= usize::MAX,
    ensures
        final(merged).scores@ == old(merged).scores@.union_prefer_right(response.scores@),
        final(merged).tree_sizes@ == old(merged).tree_sizes@.union_prefer_right(
            response.tree_sizes@,
        ),
        final(merged).frequencies@ == (if response_num == 0 {
            response.frequencies@
        } else {
            added(old(merged).frequencies@, response.frequencies@)
        }),
{
    merged.scores.extend(&response.scores);
    merged.tree_sizes.extend(&response.tree_sizes);
    if response_num == 0 {
        merged.frequencies = response.frequencies;
    } else {
        let ghost before = merged.frequencies@;
        let ghost more = response.frequencies@;
        let mut index: usize = 0;
        while index < response.frequencies.len()
            invariant
                response.frequencies@ == more,
                index <= more.len(),
                forall|i: int|
                    0 <= i < before.len() && i < more.len() ==> #[trigger] before[i] + more[i]
                        <= usize::MAX,
                merged.frequencies@ == added(before, more.take(index as int)),
                merged.scores@ == old(merged).scores@.union_prefer_right(response.scores@),
                merged.tree_sizes@ == old(merged).tree_sizes@.union_prefer_right(
                    response.tree_sizes@,
                ),
            decreases more.len() - index,
        {
            let value: usize = response.frequencies[index];
            if index < merged.frequencies.len() {
                assert(index < before.len());
                let sum: usize = merged.frequencies[index] + value;
                merged.frequencies.set(index, sum);
            } else {
                merged.frequencies.push(value);
            }
            index += 1;
            assert(merged.frequencies@ =~= added(before, more.take(index as int)));
        }
        assert(more.take(index as int) =~= more);
    }
}

/// Joins the dumps of the shards, shard by shard.
pub fn join_dumps(dumps: Vec<Vec<RouterEvent>>) -> (events: Vec<RouterEvent>)
    ensures
        events@ == dumps@.map_values(|dump: Vec<RouterEvent>| dump@).flatten(),
{
    let ghost all = dumps@.map_values(|dump: Vec<RouterEvent>| dump@);
    let mut rest = dumps;
    let mut events: Vec<RouterEvent> = Vec::new();
    assert(all.take(all.len() as int) =~= all);
    assert(all.flatten() + Seq::<RouterEvent>::empty() =~= all.flatten());
    while rest.len() > 0
        invariant
            rest@.len() <= all.len(),
            forall|i: int| 0 <= i < rest@.len() ==> (#[trigger] rest@[i])@ == all[i],
            all.flatten() == all.take(rest@.len() as int).flatten() + events@,
        decreases rest@.len(),
    {
        let ghost count = rest@.len() as int;
        match rest.pop() {
            Some(mut dump) => {
                let ghost listed = dump@;
                dump.append(&mut events);
                events = dump;
                proof {
                    let shorter = all.take(count - 1);
                    assert(all.take(count) =~= shorter.push(listed));
                    shorter.lemma_flatten_push(listed);
                    assert(shorter.flatten() + listed + (events@.skip(listed.len() as int))
                        =~= shorter.flatten() + events@);
                    assert(events@ =~= listed + events@.skip(listed.len() as int));
                }
            },
            None => {},
        }
    }
    proof {
        assert(all.take(0) =~= Seq::empty());
        assert(all.take(0).flatten() =~= Seq::empty());
        assert(Seq::<RouterEvent>::empty() + events@ =~= events@);
    }
    events
}

} // verus!
