//! Choice of the transform length: the smallest seven-smooth number that is
//! at least a given minimum.

use crate::smooth::{
    is_seven_smooth, lemma_one_is_smooth, lemma_smooth_iff_residue_is_one,
    lemma_smooth_times_small_prime, strip_factor,
};
use vstd::arithmetic::div_mod::{lemma_div_decreases, lemma_div_pos_is_pos};
use vstd::arithmetic::power2::{lemma2_to64, lemma_pow2_pos, lemma_pow2_unfold, pow2};
use vstd::layout::unsigned_int_max_values;
use vstd::prelude::*;

verus! {

/// The largest minimum for which a transform length is searched: half the
/// range of `usize`, which is a power of two.
pub open spec fn largest_minimum() -> nat {
    (usize::MAX / 2 + 1) as nat
}

/// `length` is the smallest seven-smooth number that is at least `minimum`.
pub open spec fn is_transform_length(minimum: nat, length: nat) -> bool {
    &&& minimum <= length
    &&& is_seven_smooth(length)
    &&& forall|k: nat| minimum <= k < length ==> !#[trigger] is_seven_smooth(k)
}

/// Every power of two is seven-smooth.
pub proof fn lemma_power_of_two_is_smooth(e: nat)
    ensures
        is_seven_smooth(pow2(e)),
    decreases e,
{
    if e == 0 {
        lemma2_to64();
        lemma_one_is_smooth();
    } else {
        lemma_pow2_unfold(e);
        lemma_pow2_pos((e - 1) as nat);
        lemma_power_of_two_is_smooth((e - 1) as nat);
        lemma_smooth_times_small_prime(2, pow2((e - 1) as nat));
    }
}

/// The largest minimum is itself seven-smooth, so the search from any
/// minimum up to it ends within `usize`.
pub proof fn lemma_largest_minimum_is_smooth()
    ensures
        is_seven_smooth(largest_minimum()),
        largest_minimum() <= usize::MAX,
{
    unsigned_int_max_values();
    let bits = usize::BITS as nat;
    lemma_pow2_unfold(bits);
    lemma_pow2_pos((bits - 1) as nat);
    lemma_power_of_two_is_smooth((bits - 1) as nat);
}

/// No minimum has two transform lengths.
pub proof fn lemma_transform_length_is_unique(minimum: nat, first: nat, second: nat)
    requires
        is_transform_length(minimum, first),
        is_transform_length(minimum, second),
    ensures
        first == second,
{
}

/// A larger minimum never has a smaller transform length.
pub proof fn lemma_transform_length_is_monotonic(
    lower_minimum: nat,
    lower_length: nat,
    upper_minimum: nat,
    upper_length: nat,
)
    requires
        is_transform_length(lower_minimum, lower_length),
        is_transform_length(upper_minimum, upper_length),
        lower_minimum <= upper_minimum,
    ensures
        lower_length <= upper_length,
{
}

/// A seven-smooth number is its own transform length.
pub proof fn lemma_smooth_number_is_its_transform_length(n: nat)
    requires
        is_seven_smooth(n),
    ensures
        is_transform_length(n, n),
{
}

/// The transform length of zero is one.
pub proof fn lemma_transform_length_of_zero()
    ensures
        is_transform_length(0, 1),
{
    lemma_one_is_smooth();
}

/// From `2^e` upwards there is a power of two that is at least `m` and
/// below twice `m`, when every smaller power of two is below `m`.
proof fn lemma_power_of_two_from(m: nat, e: nat) -> (found: nat)
    requires
        m >= 1,
        e > 0 ==> pow2((e - 1) as nat) < m,
    ensures
        m <= pow2(found) < 2 * m,
    decreases
        if pow2(e) < m {
            m - pow2(e)
        } else {
            0
        },
{
    if e == 0 {
        lemma2_to64();
    } else {
        lemma_pow2_unfold(e);
    }
    if pow2(e) >= m {
        e
    } else {
        lemma_pow2_unfold(e + 1);
        lemma_pow2_pos(e);
        assert(pow2(e + 1) == 2 * pow2(e)) by {
            assert((e + 1 - 1) as nat == e);
        }
        lemma_power_of_two_from(m, e + 1)
    }
}

/// The transform length of a positive minimum is below twice the minimum:
/// a power of two lies in between.
pub proof fn lemma_transform_length_below_double(minimum: nat, length: nat)
    requires
        minimum >= 1,
        is_transform_length(minimum, length),
    ensures
        length < 2 * minimum,
{
    let e = lemma_power_of_two_from(minimum, 0);
    lemma_power_of_two_is_smooth(e);
}

/// Divides `value` by `prime` for as long as it is above one and divisible.
fn divide_out(value: usize, prime: usize) -> (rest: usize)
    requires
        prime >= 2,
    ensures
        rest == strip_factor(value as nat, prime as nat),
{
    let mut rest: usize = value;
    while rest > 1 && rest % prime == 0
        invariant
            prime >= 2,
            strip_factor(rest as nat, prime as nat) == strip_factor(value as nat, prime as nat),
        decreases rest,
    {
        proof {
            lemma_div_decreases(rest as int, prime as int);
            lemma_div_pos_is_pos(rest as int, prime as int);
        }
        rest = rest / prime;
    }
    rest
}

/// Tells whether `n` is seven-smooth, by dividing out 2, 3, 5 and 7 in that
/// order and looking at what is left.
pub fn has_only_small_factors(n: usize) -> (smooth: bool)
    ensures
        smooth == is_seven_smooth(n as nat),
{
    let mut rest: usize = divide_out(n, 2);
    rest = divide_out(rest, 3);
    rest = divide_out(rest, 5);
    rest = divide_out(rest, 7);
    proof {
        if n >= 1 {
            lemma_smooth_iff_residue_is_one(n as nat);
        }
    }
    rest == 1
}

/// Returns the smallest seven-smooth number that is at least `minimum`.
///
/// Candidates are tried upwards from `minimum`; the search ends at the
/// latest at the largest minimum, which is a power of two.
pub fn find_transform_length(minimum: usize) -> (length: usize)
    requires
        minimum <= largest_minimum(),
    ensures
        is_transform_length(minimum as nat, length as nat),
        length <= largest_minimum(),
        minimum >= 1 ==> length < 2 * minimum,
{
    proof {
        lemma_largest_minimum_is_smooth();
    }
    let mut candidate: usize = minimum;
    while !has_only_small_factors(candidate)
        invariant
            minimum <= candidate <= largest_minimum(),
            largest_minimum() <= usize::MAX,
            is_seven_smooth(largest_minimum()),
            forall|k: nat| minimum <= k < candidate ==> !#[trigger] is_seven_smooth(k),
        decreases largest_minimum() - candidate,
    {
        candidate = candidate + 1;
    }
    proof {
        if minimum >= 1 {
            lemma_transform_length_below_double(minimum as nat, candidate as nat);
        }
    }
    candidate
}

} // verus!
