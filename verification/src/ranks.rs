//! Floating point numbers as integers in the same order: a greater rank stands for a greater
//! number, and the two zeros share a rank.
use vstd::prelude::*;

verus! {

/// The sign of a number in its binary64 bits.
pub const SIGN_BIT: u64 = 0x8000_0000_0000_0000;

/// The rank of positive infinity; finite numbers that are greater than zero have a smaller rank.
pub const INFINITY_RANK: i64 = 0x7ff0_0000_0000_0000;

/// The rank of one.
pub const ONE_RANK: i64 = 0x3ff0_0000_0000_0000;

/// The rank of ten.
pub const TEN_RANK: i64 = 0x4024_0000_0000_0000;

/// The rank of a number that is given by its binary64 bits. The bits of numbers without a sign grow
/// with the numbers; those with a sign are ranked the other way round, below zero.
pub open spec fn rank(bits: u64) -> int {
    if bits < SIGN_BIT {
        bits as int
    } else {
        SIGN_BIT - bits
    }
}

/// Ranks a number that is given by its binary64 bits.
pub fn rank_of(bits: u64) -> (place: i64)
    ensures
        place == rank(bits),
{
    if bits < SIGN_BIT {
        bits as i64
    } else {
        -((bits - SIGN_BIT) as i64)
    }
}

/// The bits of the number of a rank; for the rank of the zeros, those of the one without a sign.
pub fn bits_of(place: i64) -> (bits: u64)
    requires
        place > i64::MIN,
    ensures
        rank(bits) == place,
        bits != SIGN_BIT,
{
    if place >= 0 {
        place as u64
    } else {
        SIGN_BIT + (-place) as u64
    }
}

/// Only the two zeros share a rank.
pub proof fn law_ranks_tell_numbers_apart(first: u64, second: u64)
    ensures
        rank(first) == rank(second) ==> first == second || (rank(first) == 0 && (first == 0
            || first == SIGN_BIT) && (second == 0 || second == SIGN_BIT)),
{
}

/// Ranks grow with the numbers that bits stand for: with the bits where there is no sign, against
/// them where there is one, and a number with a sign has the rank of the one without, negated.
pub proof fn law_ranks_grow_with_numbers(
    first: u64,
    second: u64,
    first_rank: i64,
    second_rank: i64,
    bits: u64,
)
    requires
        call_ensures(rank_of, (first,), first_rank),
        call_ensures(rank_of, (second,), second_rank),
        first_rank > i64::MIN,
        call_ensures(bits_of, (first_rank,), bits),
    ensures
        first < 0x8000_0000_0000_0000 && second < 0x8000_0000_0000_0000 ==> (first_rank
            < second_rank <==> first < second),
        first >= 0x8000_0000_0000_0000 && second >= 0x8000_0000_0000_0000 ==> (first_rank
            < second_rank <==> first > second),
        first >= 0x8000_0000_0000_0000 && second < 0x8000_0000_0000_0000 ==> first_rank
            <= second_rank,
        first == second + 0x8000_0000_0000_0000 ==> first_rank == -second_rank,
        first == 0 ==> first_rank == 0,
        first != 0x8000_0000_0000_0000 ==> bits == first,
{
}

} // verus!
