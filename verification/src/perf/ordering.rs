//! Putting things in order by rank.
use vstd::prelude::*;

verus! {

/// Whether one of two places comes before the other by rank; places of equal rank stay in order.
pub open spec fn ranks_before(ranks: Seq<i64>, first: usize, second: usize) -> bool {
    ranks[first as int] < ranks[second as int] || (ranks[first as int] == ranks[second as int]
        && first < second)
}

/// Whether a list holds the first so many places, once each, by ascending rank.
pub open spec fn is_order(ranks: Seq<i64>, order: Seq<usize>, count: int) -> bool {
    &&& order.len() == count
    &&& forall|i: int| 0 <= i < count ==> (#[trigger] order[i]) < count
    &&& forall|i: int, j: int|
        0 <= i < j < count ==> ranks_before(ranks, #[trigger] order[i], #[trigger] order[j])
}

fn place_for(ranks: &Vec<i64>, order: &Vec<usize>, next: usize) -> (place: usize)
    requires
        next < ranks@.len(),
        is_order(ranks@, order@, next as int),
    ensures
        place <= next,
        forall|i: int| 0 <= i < place ==> ranks@[#[trigger] order@[i] as int] <= ranks@[next as int],
        forall|i: int|
            place <= i < next ==> ranks@[#[trigger] order@[i] as int] > ranks@[next as int],
{
    let mut place: usize = next;
    while place > 0 && ranks[order[place - 1]] > ranks[next]
        invariant
            place <= next < ranks@.len(),
            is_order(ranks@, order@, next as int),
            forall|i: int|
                place <= i < next ==> ranks@[#[trigger] order@[i] as int] > ranks@[next as int],
        ensures
            place > 0 ==> ranks@[order@[place - 1] as int] <= ranks@[next as int],
        decreases place,
    {
        place -= 1;
    }
    proof {
        assert forall|i: int| 0 <= i < place implies ranks@[#[trigger] order@[i] as int]
            <= ranks@[next as int] by {
            if i < place - 1 {
                assert(ranks_before(ranks@, order@[i], order@[place - 1]));
            }
        }
    }
    place
}

/// A list in order stays so if the next place is put behind those of no greater rank.
proof fn lemma_insert(ranks: Seq<i64>, order: Seq<usize>, next: int, place: int)
    requires
        0 <= next < ranks.len(),
        next <= usize::MAX,
        is_order(ranks, order, next),
        0 <= place <= next,
        forall|i: int| 0 <= i < place ==> ranks[#[trigger] order[i] as int] <= ranks[next],
        forall|i: int| place <= i < next ==> ranks[#[trigger] order[i] as int] > ranks[next],
    ensures
        is_order(ranks, order.insert(place, next as usize), next + 1),
{
    let after = order.insert(place, next as usize);
    assert forall|i: int| 0 <= i < next + 1 implies (#[trigger] after[i]) < next + 1 by {
        if i < place {
            assert(after[i] == order[i]);
        } else if i > place {
            assert(after[i] == order[i - 1]);
        }
    }
    assert forall|i: int, j: int| 0 <= i < j < next + 1 implies ranks_before(
        ranks,
        #[trigger] after[i],
        #[trigger] after[j],
    ) by {
        let old_i = if i < place {
            i
        } else {
            i - 1
        };
        let old_j = if j < place {
            j
        } else {
            j - 1
        };
        if i != place {
            assert(after[i] == order[old_i]);
        }
        if j != place {
            assert(after[j] == order[old_j]);
        }
        if i != place && j != place {
            assert(ranks_before(ranks, order[old_i], order[old_j]));
        }
    }
}

/// Where the next place belongs, looked for from some place of the list down.
proof fn lemma_place(ranks: Seq<i64>, order: Seq<usize>, next: int, from: int) -> (place: int)
    requires
        0 <= next < ranks.len(),
        is_order(ranks, order, next),
        0 <= from <= next,
        forall|i: int| from <= i < next ==> ranks[#[trigger] order[i] as int] > ranks[next],
    ensures
        0 <= place <= next,
        forall|i: int| 0 <= i < place ==> ranks[#[trigger] order[i] as int] <= ranks[next],
        forall|i: int| place <= i < next ==> ranks[#[trigger] order[i] as int] > ranks[next],
    decreases from,
{
    if from > 0 && ranks[order[from - 1] as int] > ranks[next] {
        lemma_place(ranks, order, next, from - 1)
    } else {
        assert forall|i: int| 0 <= i < from implies ranks[#[trigger] order[i] as int]
            <= ranks[next] by {
            if i < from - 1 {
                assert(ranks_before(ranks, order[i], order[from - 1]));
            }
        }
        from
    }
}

/// The first places can always be listed.
proof fn lemma_order_exists(ranks: Seq<i64>, count: int) -> (order: Seq<usize>)
    requires
        0 <= count <= ranks.len(),
        count <= usize::MAX,
    ensures
        is_order(ranks, order, count),
    decreases count,
{
    if count == 0 {
        Seq::empty()
    } else {
        let shorter = lemma_order_exists(ranks, count - 1);
        let place = lemma_place(ranks, shorter, count - 1, count - 1);
        lemma_insert(ranks, shorter, count - 1, place);
        shorter.insert(place, (count - 1) as usize)
    }
}

/// Lists all places by ascending rank. Places of equal rank stay in order.
pub fn ascending_order(ranks: &Vec<i64>) -> (order: Vec<usize>)
    ensures
        is_order(ranks@, order@, ranks@.len() as int),
{
    let mut order: Vec<usize> = Vec::new();
    let mut next: usize = 0;
    while next < ranks.len()
        invariant
            next <= ranks@.len(),
            is_order(ranks@, order@, next as int),
        decreases ranks@.len() - next,
    {
        let place = place_for(ranks, &order, next);
        proof {
            lemma_insert(ranks@, order@, next as int, place as int);
        }
        order.insert(place, next);
        next += 1;
    }
    order
}

/// There is only one such list.
pub proof fn law_order_is_determined(ranks: Seq<i64>, first: Seq<usize>, second: Seq<usize>)
    requires
        ranks.len() <= usize::MAX,
        is_order(ranks, first, ranks.len() as int),
        is_order(ranks, second, ranks.len() as int),
    ensures
        first == second,
{
    let n = ranks.len() as int;
    lemma_lists_all(ranks, first);
    lemma_lists_all(ranks, second);
    assert forall|i: int| 0 <= i < n implies first[i] == second[i] by {
        lemma_same_place(ranks, first, second, i);
    }
    assert(first =~= second);
}

/// Such a list holds every place.
proof fn lemma_lists_all(ranks: Seq<i64>, order: Seq<usize>)
    requires
        ranks.len() <= usize::MAX,
        is_order(ranks, order, ranks.len() as int),
    ensures
        forall|k: usize| k < ranks.len() ==> #[trigger] order.contains(k),
{
    let n = ranks.len();
    assert(order.no_duplicates()) by {
        assert forall|i: int, j: int| 0 <= i < order.len() && 0 <= j < order.len() && i != j implies order[i]
            != order[j] by {
            if i < j {
                assert(ranks_before(ranks, order[i], order[j]));
            } else {
                assert(ranks_before(ranks, order[j], order[i]));
            }
        }
    }
    let all = Set::new(|k: usize| k < n);
    let held = order.to_set();
    order.unique_seq_to_set();
    assert(held.subset_of(all)) by {
        assert forall|k: usize| held.contains(k) implies all.contains(k) by {
            let i = choose|i: int| 0 <= i < order.len() && order[i] == k;
            assert(order[i] < n);
        }
    }
    lemma_first_numbers(n);
    vstd::set_lib::lemma_subset_equality(held, all);
    assert forall|k: usize| k < n implies #[trigger] order.contains(k) by {
        assert(all.contains(k));
    }
}

/// There are as many numbers below a bound as the bound says.
proof fn lemma_first_numbers(n: nat)
    requires
        n <= usize::MAX,
    ensures
        Set::new(|k: usize| k < n).finite(),
        Set::new(|k: usize| k < n).len() == n,
    decreases n,
{
    let all = Set::new(|k: usize| k < n);
    if n == 0 {
        assert(all =~= Set::<usize>::empty());
    } else {
        let fewer = Set::new(|k: usize| k < (n - 1) as nat);
        lemma_first_numbers((n - 1) as nat);
        assert(all =~= fewer.insert((n - 1) as usize));
    }
}

/// Two such lists agree on every place, by induction over the places before it.
proof fn lemma_same_place(ranks: Seq<i64>, first: Seq<usize>, second: Seq<usize>, place: int)
    requires
        is_order(ranks, first, ranks.len() as int),
        is_order(ranks, second, ranks.len() as int),
        forall|k: usize| k < ranks.len() ==> #[trigger] first.contains(k),
        forall|k: usize| k < ranks.len() ==> #[trigger] second.contains(k),
        0 <= place < ranks.len(),
    ensures
        first[place] == second[place],
    decreases place,
{
    assert forall|i: int| 0 <= i < place implies first[i] == second[i] by {
        lemma_same_place(ranks, first, second, i);
    }
    if first[place] != second[place] {
        assert(second.contains(first[place]));
        let j = choose|j: int| 0 <= j < second.len() && second[j] == first[place];
        assert(j > place) by {
            if j < place {
                assert(first[j] == second[j]);
                assert(ranks_before(ranks, first[j], first[place]));
            }
        }
        assert(ranks_before(ranks, second[place], second[j]));
        assert(first.contains(second[place]));
        let k = choose|k: int| 0 <= k < first.len() && first[k] == second[place];
        assert(k > place) by {
            if k < place {
                assert(second[k] == first[k]);
                assert(ranks_before(ranks, second[k], second[place]));
            }
        }
        assert(ranks_before(ranks, first[place], first[k]));
    }
}

/// The places of some ranks, by ascending rank.
pub open spec fn order_of(ranks: Seq<i64>) -> Seq<usize> {
    choose|order: Seq<usize>| is_order(ranks, order, ranks.len() as int)
}

/// Things by ascending rank; those of equal rank stay in order.
pub open spec fn arranged<T>(things: Seq<T>, ranks: Seq<i64>) -> Seq<T> {
    Seq::new(things.len(), |i: int| things[order_of(ranks)[i] as int])
}

/// Things come out by ascending rank, those of equal rank as they were, and each comes out.
pub proof fn law_arranged<T>(things: Seq<T>, ranks: Seq<i64>)
    requires
        ranks.len() <= usize::MAX,
        things.len() == ranks.len(),
    ensures
        is_order(ranks, order_of(ranks), ranks.len() as int),
        arranged(things, ranks).len() == things.len(),
        forall|thing: T| #[trigger]
            arranged(things, ranks).contains(thing) <==> things.contains(thing),
{
    let found = lemma_order_exists(ranks, ranks.len() as int);
    let order = order_of(ranks);
    lemma_lists_all(ranks, order);
    let out = arranged(things, ranks);
    assert forall|thing: T| #[trigger] out.contains(thing) <==> things.contains(thing) by {
        if out.contains(thing) {
            let i = choose|i: int| 0 <= i < out.len() && out[i] == thing;
            assert(things[order[i] as int] == thing);
        }
        if things.contains(thing) {
            let k = choose|k: int| 0 <= k < things.len() && things[k] == thing;
            assert(order.contains(k as usize));
            let i = choose|i: int| 0 <= i < order.len() && order[i] == k as usize;
            assert(out[i] == thing);
        }
    }
}

/// Puts things in order by ascending rank; those of equal rank stay in order.
pub fn arrange<T>(things: Vec<T>, ranks: &Vec<i64>) -> (in_order: Vec<T>)
    requires
        things@.len() == ranks@.len(),
    ensures
        in_order@ == arranged(things@, ranks@),
{
    let count: usize = things.len();
    let order = ascending_order(ranks);
    proof {
        law_order_is_determined(ranks@, order_of(ranks@), order@);
    }
    let ghost all = things@;
    let mut slots: Vec<Option<T>> = Vec::new();
    for thing in iter: things
        invariant
            iter.seq() == all,
            slots@.len() == iter.index(),
            forall|i: int| 0 <= i < slots@.len() ==> #[trigger] slots@[i] == Some(all[i]),
    {
        slots.push(Some(thing));
    }
    let mut in_order: Vec<T> = Vec::new();
    let mut next: usize = 0;
    while next < count
        invariant
            next <= count,
            all.len() == count,
            ranks@.len() == count,
            slots@.len() == count,
            is_order(ranks@, order@, count as int),
            in_order@.len() == next,
            forall|i: int| 0 <= i < next ==> #[trigger] in_order@[i] == all[order@[i] as int],
            forall|i: int|
                next <= i < count ==> slots@[#[trigger] order@[i] as int] == Some(
                    all[order@[i] as int],
                ),
        decreases count - next,
    {
        let from: usize = order[next];
        let thing = slots[from].take();
        proof {
            assert forall|i: int| next < i < count implies slots@[#[trigger] order@[i] as int]
                == Some(all[order@[i] as int]) by {
                assert(ranks_before(ranks@, order@[next as int], order@[i]));
            }
        }
        if let Some(thing) = thing {
            in_order.push(thing);
        }
        next += 1;
    }
    assert(in_order@ =~= arranged(all, ranks@));
    in_order
}

} // verus!
