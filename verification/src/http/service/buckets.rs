//! The buckets of histograms. Their bounds are given by rank.
use crate::ranks::{INFINITY_RANK, ONE_RANK, TEN_RANK};
use crate::seqs::lemma_take_next;
use vstd::prelude::*;

verus! {

/// No histogram has more buckets.
pub const MAX_BUCKET_COUNT: usize = 512;

/// Bounds and number of the buckets of a histogram.
#[derive(Clone, Copy, Debug, PartialEq, Eq, Structural)]
pub struct Buckets {
    pub min: i64,
    pub max: i64,
    pub count: usize,
}

impl Buckets {
    /// Whether the bounds are finite, greater than zero and apart, and there are some buckets but
    /// not too many.
    pub open spec fn is_valid(self) -> bool {
        0 < self.min < self.max < INFINITY_RANK && 0 < self.count <= MAX_BUCKET_COUNT
    }
}

/// Whether a histogram can have such buckets.
pub fn validate_bucket_config(buckets: Buckets) -> (valid: bool)
    ensures
        valid == buckets.is_valid(),
{
    buckets.min > 0 && buckets.min < buckets.max && buckets.max < INFINITY_RANK && buckets.count > 0
        && buckets.count <= MAX_BUCKET_COUNT
}

/// The buckets where some settings replace the usual ones.
pub open spec fn with_settings(
    usual: Buckets,
    min: Option<i64>,
    max: Option<i64>,
    count: Option<usize>,
) -> Buckets {
    Buckets {
        min: if min is Some {
            min->0
        } else {
            usual.min
        },
        max: if max is Some {
            max->0
        } else {
            usual.max
        },
        count: if count is Some {
            count->0
        } else {
            usual.count
        },
    }
}

/// Chooses the buckets of a histogram: the usual ones with what was set, or the usual ones if that
/// is no good. Where the usual ones are no good themselves, there are ten from one to ten.
pub fn bucket_config(
    usual: Buckets,
    min: Option<i64>,
    max: Option<i64>,
    count: Option<usize>,
) -> (buckets: Buckets)
    ensures
        buckets == (if !usual.is_valid() {
            Buckets { min: ONE_RANK, max: TEN_RANK, count: 10 }
        } else if with_settings(usual, min, max, count).is_valid() {
            with_settings(usual, min, max, count)
        } else {
            usual
        }),
        buckets.is_valid(),
{
    if !validate_bucket_config(usual) {
        return Buckets { min: ONE_RANK, max: TEN_RANK, count: 10 };
    }
    let wanted = Buckets {
        min: match min {
            Some(min) => min,
            None => usual.min,
        },
        max: match max {
            Some(max) => max,
            None => usual.max,
        },
        count: match count {
            Some(count) => count,
            None => usual.count,
        },
    };
    if validate_bucket_config(wanted) {
        wanted
    } else {
        usual
    }
}

/// A list without those of its members that equal the one before.
pub open spec fn deduped(list: Seq<i64>) -> Seq<i64>
    decreases list.len(),
{
    if list.len() <= 1 {
        list
    } else {
        let before = deduped(list.drop_last());
        if list.last() == list[list.len() - 2] {
            before
        } else {
            before.push(list.last())
        }
    }
}

/// The bounds of buckets: nothing for none, zero for one, and otherwise zero and what is spaced
/// above it, without repetitions.
pub open spec fn bounds(count: usize, spaced: Seq<i64>) -> Seq<i64> {
    if count == 0 {
        Seq::empty()
    } else if count == 1 {
        seq![0]
    } else {
        deduped(seq![0] + spaced)
    }
}

/// The bounds of buckets, and whether so many were lost to repetition that someone should know.
#[derive(Debug, PartialEq, Eq)]
pub struct LogBuckets {
    pub bounds: Vec<i64>,
    pub many_repeated: bool,
}

/// Puts together the bounds of buckets from those spaced above zero. It is told when more than a
/// tenth of them were lost to repetition.
pub fn log_buckets(count: usize, spaced: &Vec<i64>) -> (buckets: LogBuckets)
    requires
        spaced@.len() < usize::MAX,
    ensures
        buckets.bounds@ == bounds(count, spaced@),
        buckets.many_repeated == (count > 1 && (spaced@.len() + 1) - bounds(count, spaced@).len()
            > (spaced@.len() + 1) / 10),
{
    let mut bounds: Vec<i64> = Vec::new();
    if count == 0 {
        return LogBuckets { bounds, many_repeated: false };
    }
    bounds.push(0);
    if count == 1 {
        assert(bounds@ =~= seq![0i64]);
        return LogBuckets { bounds, many_repeated: false };
    }
    let ghost all = seq![0i64] + spaced@;
    let mut last: i64 = 0;
    let mut index: usize = 0;
    assert(bounds@ =~= deduped(all.take(1))) by {
        assert(all.take(1) =~= seq![0i64]);
    }
    while index < spaced.len()
        invariant
            index <= spaced@.len(),
            spaced@.len() < usize::MAX,
            all == seq![0i64] + spaced@,
            last == all[index as int],
            bounds@ == deduped(all.take(index + 1)),
            bounds@.len() <= index + 1,
        decreases spaced@.len() - index,
    {
        proof {
            lemma_take_next(all, index + 1);
        }
        let next: i64 = spaced[index];
        if next != last {
            bounds.push(next);
        }
        last = next;
        index += 1;
    }
    assert(all.take(index + 1) =~= all);
    let wanted: usize = spaced.len() + 1;
    let many_repeated = wanted - bounds.len() > wanted / 10;
    LogBuckets { bounds, many_repeated }
}

/// Where nothing spaced above zero comes before something smaller, the bounds increase from zero on
/// up to the last of it.
pub proof fn law_bounds_increase(count: usize, spaced: Seq<i64>)
    requires
        count > 1,
        forall|i: int| 0 <= i < spaced.len() ==> #[trigger] spaced[i] >= 0,
        forall|i: int, j: int| 0 <= i < j < spaced.len() ==> spaced[i] <= spaced[j],
    ensures
        bounds(count, spaced).len() > 0,
        bounds(count, spaced)[0] == 0,
        bounds(count, spaced).last() == (if spaced.len() > 0 {
            spaced.last()
        } else {
            0
        }),
        forall|i: int, j: int|
            0 <= i < j < bounds(count, spaced).len() ==> bounds(count, spaced)[i] < bounds(
                count,
                spaced,
            )[j],
{
    let all = seq![0i64] + spaced;
    assert forall|i: int, j: int| 0 <= i < j < all.len() implies all[i] <= all[j] by {
        if i > 0 {
            assert(spaced[i - 1] <= spaced[j - 1]);
        } else {
            assert(spaced[j - 1] >= 0);
        }
    }
    lemma_deduped_increases(all);
}

proof fn lemma_deduped_increases(list: Seq<i64>)
    requires
        list.len() > 0,
        forall|i: int, j: int| 0 <= i < j < list.len() ==> list[i] <= list[j],
    ensures
        deduped(list).len() > 0,
        deduped(list)[0] == list[0],
        deduped(list).last() == list.last(),
        forall|i: int, j: int|
            0 <= i < j < deduped(list).len() ==> deduped(list)[i] < deduped(list)[j],
    decreases list.len(),
{
    if list.len() > 1 {
        let shorter = list.drop_last();
        lemma_deduped_increases(shorter);
        assert(shorter.last() == list[list.len() - 2]);
        assert(list[list.len() - 2] <= list.last());
        let before = deduped(shorter);
        let after = deduped(list);
        assert forall|i: int, j: int| 0 <= i < j < after.len() implies after[i] < after[j] by {
            if j == before.len() {
                assert(before[i] <= before.last());
            }
        }
    }
}

} // verus!
