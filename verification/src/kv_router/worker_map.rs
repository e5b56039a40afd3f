//! A map keyed by worker and data-parallel rank, walked in worker order.
use crate::kv_router::protocols::{DpRank, WorkerId, WorkerWithDpRank};
use std::collections::BTreeMap;
use vstd::prelude::*;

verus! {

/// The sort key of a worker.
pub open spec fn worker_key(worker: WorkerWithDpRank) -> (WorkerId, DpRank) {
    (worker.worker_id, worker.dp_rank)
}

/// The worker with a given sort key.
pub open spec fn key_worker(key: (WorkerId, DpRank)) -> WorkerWithDpRank {
    WorkerWithDpRank { worker_id: key.0, dp_rank: key.1 }
}

/// Whether the sequence lists the members of `workers` once each, in worker order.
pub open spec fn lists_in_order(
    list: Seq<WorkerWithDpRank>,
    workers: Set<WorkerWithDpRank>,
) -> bool {
    &&& forall|worker: WorkerWithDpRank| #[trigger]
        list.contains(worker) <==> workers.contains(worker)
    &&& forall|i: int, j: int|
        0 <= i < j < list.len() ==> (#[trigger] list[i]).precedes(#[trigger] list[j])
}

/// A map from workers to values.
pub struct WorkerMap<V> {
    entries: BTreeMap<(WorkerId, DpRank), V>,
}

impl<V> View for WorkerMap<V> {
    type V = Map<WorkerWithDpRank, V>;

    closed spec fn view(&self) -> Map<WorkerWithDpRank, V> {
        Map::new(
            |worker: WorkerWithDpRank| self.entries@.contains_key(worker_key(worker)),
            |worker: WorkerWithDpRank| self.entries@[worker_key(worker)],
        )
    }
}

impl<V> WorkerMap<V> {
    proof fn lemma_view_dom(&self)
        ensures
            self@.dom() == self.entries@.dom().map(|key: (WorkerId, DpRank)| key_worker(key)),
            self@.dom().finite(),
            self@.len() == self.entries@.len(),
    {
        let to_worker = |key: (WorkerId, DpRank)| key_worker(key);
        let image = self.entries@.dom().map(to_worker);
        assert forall|worker: WorkerWithDpRank| self@.dom().contains(worker) implies image.contains(
            worker,
        ) by {
            assert(to_worker(worker_key(worker)) == worker);
        }
        assert(self@.dom() =~= image);
        vstd::set_lib::lemma_map_size(self.entries@.dom(), image, to_worker);
    }

    pub fn new() -> (map: Self)
        ensures
            map@ == Map::<WorkerWithDpRank, V>::empty(),
    {
        let map = WorkerMap { entries: BTreeMap::new() };
        assert(map@ =~= Map::empty());
        map
    }

    pub fn len(&self) -> (len: usize)
        ensures
            len == self@.len(),
            self@.dom().finite(),
    {
        broadcast use vstd::laws_cmp::group_laws_cmp;

        proof {
            self.lemma_view_dom();
        }
        self.entries.len()
    }

    pub fn is_empty(&self) -> (empty: bool)
        ensures
            empty == (self@ == Map::<WorkerWithDpRank, V>::empty()),
    {
        let count: usize = self.len();
        proof {
            if count == 0 {
                assert(self@.dom() =~= Set::empty());
                assert(self@ =~= Map::empty());
            } else if self@ == Map::<WorkerWithDpRank, V>::empty() {
                assert(self@.dom() =~= Set::empty());
            }
        }
        count == 0
    }

    pub fn contains_key(&self, worker: &WorkerWithDpRank) -> (found: bool)
        ensures
            found == self@.contains_key(*worker),
    {
        broadcast use vstd::laws_cmp::group_laws_cmp;

        self.entries.contains_key(&(worker.worker_id, worker.dp_rank))
    }

    pub fn get(&self, worker: &WorkerWithDpRank) -> (value: Option<&V>)
        ensures
            value == (if self@.contains_key(*worker) {
                Some(&self@[*worker])
            } else {
                None
            }),
    {
        broadcast use vstd::laws_cmp::group_laws_cmp;

        self.entries.get(&(worker.worker_id, worker.dp_rank))
    }

    pub fn insert(&mut self, worker: WorkerWithDpRank, value: V) -> (replaced: Option<V>)
        ensures
            final(self)@ == old(self)@.insert(worker, value),
            replaced == (if old(self)@.contains_key(worker) {
                Some(old(self)@[worker])
            } else {
                None
            }),
    {
        broadcast use vstd::laws_cmp::group_laws_cmp;

        let replaced = self.entries.insert((worker.worker_id, worker.dp_rank), value);
        assert(self@ =~= old(self)@.insert(worker, value));
        replaced
    }

    pub fn remove(&mut self, worker: &WorkerWithDpRank) -> (removed: Option<V>)
        ensures
            final(self)@ == old(self)@.remove(*worker),
            removed == (if old(self)@.contains_key(*worker) {
                Some(old(self)@[*worker])
            } else {
                None
            }),
    {
        broadcast use vstd::laws_cmp::group_laws_cmp;

        let removed = self.entries.remove(&(worker.worker_id, worker.dp_rank));
        assert(self@ =~= old(self)@.remove(*worker));
        removed
    }

    /// The workers of the map, in worker order.
    pub fn keys(&self) -> (workers: Vec<WorkerWithDpRank>)
        ensures
            lists_in_order(workers@, self@.dom()),
            workers@.len() == self@.len(),
            self@.dom().finite(),
    {
        broadcast use vstd::laws_cmp::group_laws_cmp;

        proof {
            self.lemma_view_dom();
        }
        let mut workers: Vec<WorkerWithDpRank> = Vec::new();
        let ghost keys = vstd::std_specs::iter::IteratorSpec::remaining(
            &vstd::std_specs::btree::spec_keys_iter(&self.entries),
        );
        for key in iter: self.entries.keys()
            invariant
                iter.seq() == keys,
                workers@.len() == iter.index(),
                forall|i: int|
                    0 <= i < iter.index() ==> #[trigger] workers@[i] == key_worker(*keys[i]),
        {
            workers.push(WorkerWithDpRank { worker_id: key.0, dp_rank: key.1 });
        }
        proof {
            assert(keys.unref().to_set() == self.entries@.dom());
            assert(workers@.len() == keys.len());
            assert forall|worker: WorkerWithDpRank| workers@.contains(worker) implies self@.contains_key(worker) by {
                let i = choose|i: int| 0 <= i < workers@.len() && workers@[i] == worker;
                assert(keys.unref()[i] == worker_key(worker));
                assert(keys.unref().to_set().contains(worker_key(worker)));
            }
            assert forall|worker: WorkerWithDpRank| self@.contains_key(worker) implies workers@.contains(worker) by {
                assert(keys.unref().to_set().contains(worker_key(worker)));
                let i = choose|i: int| 0 <= i < keys.unref().len() && keys.unref()[i] == worker_key(worker);
                assert(workers@[i] == worker);
            }
            assert forall|i: int, j: int| 0 <= i < j < workers@.len() implies (#[trigger] workers@[i]).precedes(#[trigger] workers@[j]) by {
                assert(vstd::std_specs::cmp::OrdSpec::cmp_spec(&keys[i], &keys[j]) is Less);
            }
        }
        workers
    }
}

impl<V: Copy> WorkerMap<V> {
    /// Takes over all entries of another map.
    pub fn extend(&mut self, other: &WorkerMap<V>)
        ensures
            final(self)@ == old(self)@.union_prefer_right(other@),
    {
        let workers = other.keys();
        let mut index: usize = 0;
        while index < workers.len()
            invariant
                index <= workers@.len(),
                lists_in_order(workers@, other@.dom()),
                forall|worker: WorkerWithDpRank| #[trigger]
                    self@.contains_key(worker) <==> old(self)@.contains_key(worker)
                        || workers@.take(index as int).contains(worker),
                forall|worker: WorkerWithDpRank| #[trigger]
                    self@.contains_key(worker) ==> self@[worker] == if workers@.take(
                        index as int,
                    ).contains(worker) {
                        other@[worker]
                    } else {
                        old(self)@[worker]
                    },
            decreases workers@.len() - index,
        {
            let worker = workers[index];
            proof {
                assert(workers@.contains(worker));
                crate::seqs::lemma_take_next(workers@, index as int);
                assert forall|member: WorkerWithDpRank| workers@.take(index + 1).contains(member)
                    <==> workers@.take(index as int).contains(member) || member == worker by {
                    crate::seqs::lemma_push_contains(workers@.take(index as int), worker, member);
                }
            }
            match other.get(&worker) {
                Some(value) => {
                    self.insert(worker, *value);
                },
                None => {},
            }
            index += 1;
        }
        proof {
            assert(workers@.take(index as int) =~= workers@);
            assert(self@ =~= old(self)@.union_prefer_right(other@));
        }
    }
}

} // verus!
