//! Facts about sequences that several modules use.
use vstd::prelude::*;

verus! {

/// Appending adds exactly one member.
pub proof fn lemma_push_contains<A>(list: Seq<A>, last: A, member: A)
    ensures
        list.push(last).contains(member) <==> list.contains(member) || member == last,
{
    let longer = list.push(last);
    assert(longer[list.len() as int] == last);
    if list.contains(member) {
        let i = choose|i: int| 0 <= i < list.len() && list[i] == member;
        assert(longer[i] == member);
    }
    if longer.contains(member) && member != last {
        let i = choose|i: int| 0 <= i < longer.len() && longer[i] == member;
        assert(list[i] == member);
    }
}

/// Taking one element more appends it.
pub proof fn lemma_take_next<A>(list: Seq<A>, len: int)
    requires
        0 <= len < list.len(),
    ensures
        list.take(len + 1) == list.take(len).push(list[len]),
        list.take(len + 1).drop_last() == list.take(len),
        list.take(len + 1).last() == list[len],
{
    assert(list.take(len + 1) =~= list.take(len).push(list[len]));
    assert(list.take(len + 1).drop_last() =~= list.take(len));
}

/// Whether the sequence lists the members of `members` once each, in increasing order.
pub open spec fn lists_increasing(list: Seq<u64>, members: Set<u64>) -> bool {
    &&& forall|member: u64| #[trigger] list.contains(member) <==> members.contains(member)
    &&& forall|i: int, j: int| 0 <= i < j < list.len() ==> list[i] < list[j]
}

/// Two lists of the same members are equal if a key puts both in strictly increasing order.
pub proof fn lemma_increasing_unique<A>(first: Seq<A>, second: Seq<A>, key: spec_fn(A) -> int)
    requires
        forall|member: A| #[trigger] first.contains(member) <==> second.contains(member),
        forall|i: int, j: int|
            #![trigger first[i], first[j]]
            0 <= i < j < first.len() ==> key(first[i]) < key(first[j]),
        forall|i: int, j: int|
            #![trigger second[i], second[j]]
            0 <= i < j < second.len() ==> key(second[i]) < key(second[j]),
    ensures
        first == second,
    decreases first.len(),
{
    if first.len() == 0 {
        if second.len() > 0 {
            assert(second.contains(second[0]));
            assert(first.contains(second[0]));
        }
        assert(first =~= second);
    } else {
        assert(first.contains(first[0]));
        let at = choose|i: int| 0 <= i < second.len() && second[i] == first[0];
        assert(second.contains(second[0]));
        assert(first.contains(second[0]));
        let back = choose|i: int| 0 <= i < first.len() && first[i] == second[0];
        assert(first[0] == second[0]) by {
            if at > 0 && back > 0 {
                assert(key(second[0]) < key(second[at]));
                assert(key(first[0]) < key(first[back]));
            }
        }
        let first_rest = first.skip(1);
        let second_rest = second.skip(1);
        assert forall|member: A| #[trigger]
            first_rest.contains(member) <==> second_rest.contains(member) by {
            if first_rest.contains(member) {
                let i = choose|i: int| 0 <= i < first_rest.len() && first_rest[i] == member;
                assert(first[i + 1] == member);
                assert(first.contains(member));
                let j = choose|j: int| 0 <= j < second.len() && second[j] == member;
                if j == 0 {
                    assert(key(first[0]) < key(first[i + 1]));
                }
                assert(second_rest[j - 1] == member);
            }
            if second_rest.contains(member) {
                let i = choose|i: int| 0 <= i < second_rest.len() && second_rest[i] == member;
                assert(second[i + 1] == member);
                assert(second.contains(member));
                assert(first.contains(member));
                let j = choose|j: int| 0 <= j < first.len() && first[j] == member;
                if j == 0 {
                    assert(key(second[0]) < key(second[i + 1]));
                }
                assert(first_rest[j - 1] == member);
            }
        }
        lemma_increasing_unique(first_rest, second_rest, key);
        assert(first =~= seq![first[0]] + first_rest);
        assert(second =~= seq![second[0]] + second_rest);
    }
}

/// The list with one more member, put before the first one with a larger key.
pub open spec fn insert_by<A>(list: Seq<A>, member: A, key: spec_fn(A) -> int) -> Seq<A>
    decreases list.len(),
{
    if list.len() == 0 || key(member) < key(list[0]) {
        seq![member] + list
    } else {
        seq![list[0]] + insert_by(list.skip(1), member, key)
    }
}

proof fn lemma_insert_by<A>(list: Seq<A>, member: A, key: spec_fn(A) -> int)
    requires
        forall|i: int, j: int|
            #![trigger list[i], list[j]]
            0 <= i < j < list.len() ==> key(list[i]) < key(list[j]),
        forall|i: int| 0 <= i < list.len() ==> key(#[trigger] list[i]) != key(member),
    ensures
        ({
            let longer = insert_by(list, member, key);
            &&& forall|i: int, j: int|
                #![trigger longer[i], longer[j]]
                0 <= i < j < longer.len() ==> key(longer[i]) < key(longer[j])
            &&& forall|other: A| #[trigger]
                longer.contains(other) <==> list.contains(other) || other == member
        }),
    decreases list.len(),
{
    let longer = insert_by(list, member, key);
    if list.len() == 0 || key(member) < key(list[0]) {
        assert forall|i: int, j: int| #![trigger longer[i], longer[j]]
            0 <= i < j < longer.len() implies key(longer[i]) < key(longer[j]) by {
            if i == 0 {
                if j > 1 {
                    assert(key(list[0]) < key(list[j - 1]));
                }
                assert(longer[j] == list[j - 1]);
            } else {
                assert(key(list[i - 1]) < key(list[j - 1]));
            }
        }
        assert forall|other: A| #[trigger]
            longer.contains(other) <==> list.contains(other) || other == member by {
            assert(longer[0] == member);
            if list.contains(other) {
                let i = choose|i: int| 0 <= i < list.len() && list[i] == other;
                assert(longer[i + 1] == other);
            }
            if longer.contains(other) && other != member {
                let i = choose|i: int| 0 <= i < longer.len() && longer[i] == other;
                assert(list[i - 1] == other);
            }
        }
    } else {
        let rest = list.skip(1);
        assert forall|i: int, j: int| #![trigger rest[i], rest[j]]
            0 <= i < j < rest.len() implies key(rest[i]) < key(rest[j]) by {
            assert(key(list[i + 1]) < key(list[j + 1]));
        }
        assert forall|i: int| 0 <= i < rest.len() implies key(#[trigger] rest[i]) != key(
            member,
        ) by {
            assert(rest[i] == list[i + 1]);
        }
        lemma_insert_by(rest, member, key);
        let tail = insert_by(rest, member, key);
        assert(longer =~= seq![list[0]] + tail);
        assert forall|i: int, j: int| #![trigger longer[i], longer[j]]
            0 <= i < j < longer.len() implies key(longer[i]) < key(longer[j]) by {
            if i == 0 {
                assert(longer[j] == tail[j - 1]);
                assert(tail.contains(tail[j - 1]));
                if rest.contains(tail[j - 1]) {
                    let at = choose|at: int| 0 <= at < rest.len() && rest[at] == tail[j - 1];
                    assert(key(list[0]) < key(list[at + 1]));
                } else {
                    assert(key(list[0]) != key(member));
                }
            } else {
                assert(longer[i] == tail[i - 1]);
                assert(longer[j] == tail[j - 1]);
            }
        }
        assert forall|other: A| #[trigger]
            longer.contains(other) <==> list.contains(other) || other == member by {
            assert(tail.contains(other) <==> rest.contains(other) || other == member);
            if longer.contains(other) {
                let i = choose|i: int| 0 <= i < longer.len() && longer[i] == other;
                if i == 0 {
                    assert(list[0] == other);
                } else {
                    assert(tail[i - 1] == other);
                    if rest.contains(other) {
                        let k = choose|k: int| 0 <= k < rest.len() && rest[k] == other;
                        assert(list[k + 1] == other);
                    }
                }
            }
            if list.contains(other) {
                let i = choose|i: int| 0 <= i < list.len() && list[i] == other;
                if i == 0 {
                    assert(longer[0] == other);
                } else {
                    assert(rest[i - 1] == other);
                    let k = choose|k: int| 0 <= k < tail.len() && tail[k] == other;
                    assert(longer[k + 1] == other);
                }
            }
            if other == member {
                let k = choose|k: int| 0 <= k < tail.len() && tail[k] == other;
                assert(longer[k + 1] == other);
            }
        }
    }
}

/// A finite set can be listed in the order of a key that tells its members apart.
pub proof fn lemma_list_exists<A>(members: Set<A>, key: spec_fn(A) -> int) -> (list: Seq<A>)
    requires
        members.finite(),
        forall|a: A, b: A| #![trigger key(a), key(b)] key(a) == key(b) ==> a == b,
    ensures
        forall|member: A| #[trigger] list.contains(member) <==> members.contains(member),
        forall|i: int, j: int|
            #![trigger list[i], list[j]]
            0 <= i < j < list.len() ==> key(list[i]) < key(list[j]),
    decreases members.len(),
{
    if members.len() == 0 {
        let list = Seq::<A>::empty();
        assert(members =~= Set::empty());
        list
    } else {
        let member = members.choose();
        let shorter = lemma_list_exists(members.remove(member), key);
        assert forall|i: int| 0 <= i < shorter.len() implies key(#[trigger] shorter[i]) != key(
            member,
        ) by {
            assert(shorter.contains(shorter[i]));
        }
        lemma_insert_by(shorter, member, key);
        insert_by(shorter, member, key)
    }
}

} // verus!
