//! What the lag window means, in exact arithmetic.
//!
//! The transform of a product of spectra is a circular correlation: its
//! indices wrap around the transform length. This module states the
//! circular and the linear correlation of two integer signals as sums of
//! products, and proves that the lag window of the circular correlation of
//! two padded signals is their linear correlation, once the transform
//! length is at least the number of lags.

use crate::lag_window::{circular_index, lag_at, lag_count, linear_window};
use crate::padding::padded;
use vstd::arithmetic::div_mod::{lemma_mod_add_multiples_vanish, lemma_small_mod};
use vstd::prelude::*;

verus! {

/// The sum of `term(0)`, ..., `term(count - 1)`.
pub open spec fn sum_of(count: nat, term: spec_fn(int) -> int) -> int
    decreases count,
{
    if count == 0 {
        0
    } else {
        sum_of((count - 1) as nat, term) + term(count - 1)
    }
}

/// The sample of `signal` at `index`, and zero outside the signal.
pub open spec fn sample_or_zero(signal: Seq<int>, index: int) -> int {
    if 0 <= index < signal.len() {
        signal[index]
    } else {
        0
    }
}

/// The correlation of `a` against `b` at `lag`: the sum over `j` of
/// `a[j + lag] * b[j]`, where samples outside `a` count as zero.
pub open spec fn linear_correlation_at(a: Seq<int>, b: Seq<int>, lag: int) -> int {
    sum_of(b.len(), |j: int| sample_or_zero(a, j + lag) * b[j])
}

/// The circular correlation of two buffers of one length at `shift`: the
/// sum over `j` of `a[(j + shift) mod n] * b[j]`.
pub open spec fn circular_correlation_at(a: Seq<int>, b: Seq<int>, shift: int) -> int {
    sum_of(b.len(), |j: int| a[(j + shift) % (a.len() as int)] * b[j])
}

/// The circular correlation of two buffers of one length, one value for
/// each shift.
pub open spec fn circular_correlation(a: Seq<int>, b: Seq<int>) -> Seq<int> {
    Seq::new(a.len(), |shift: int| circular_correlation_at(a, b, shift))
}

/// Two sums agree when the terms of the shorter agree with those of the
/// longer and the remaining terms of the longer are zero.
pub proof fn lemma_sum_of_ignores_zero_tail(
    short: nat,
    long: nat,
    short_term: spec_fn(int) -> int,
    long_term: spec_fn(int) -> int,
)
    requires
        short <= long,
        forall|j: int| 0 <= j < short ==> #[trigger] short_term(j) == long_term(j),
        forall|j: int| short <= j < long ==> #[trigger] long_term(j) == 0,
    ensures
        sum_of(short, short_term) == sum_of(long, long_term),
    decreases long,
{
    if long > short {
        lemma_sum_of_ignores_zero_tail(short, (long - 1) as nat, short_term, long_term);
    } else if long > 0 {
        lemma_sum_of_ignores_zero_tail(
            (short - 1) as nat,
            (long - 1) as nat,
            short_term,
            long_term,
        );
    }
}

/// The circular correlation of two padded signals, read at the place of a
/// lag, is the linear correlation of the signals at that lag, provided the
/// transform length is at least the number of lags.
pub proof fn lemma_circular_at_lag_is_linear(
    a: Seq<int>,
    b: Seq<int>,
    transform_length: nat,
    lag: int,
)
    requires
        a.len() == b.len(),
        a.len() >= 1,
        lag_count(a.len()) <= transform_length,
        -(a.len() - 1) <= lag <= a.len() - 1,
    ensures
        circular_correlation_at(
            padded(a, transform_length, 0),
            padded(b, transform_length, 0),
            circular_index(lag, transform_length),
        ) == linear_correlation_at(a, b, lag),
{
    let l = a.len();
    let n = transform_length;
    let wide_a = padded(a, n, 0);
    let wide_b = padded(b, n, 0);
    let shift = circular_index(lag, n);
    let linear_term = |j: int| sample_or_zero(a, j + lag) * b[j];
    let circular_term = |j: int| wide_a[(j + shift) % (wide_a.len() as int)] * wide_b[j];
    assert forall|j: int| 0 <= j < l implies #[trigger] linear_term(j) == circular_term(j) by {
        assert(wide_b[j] == b[j]);
        if lag >= 0 {
            lemma_small_mod((j + lag) as nat, n);
        } else if j + lag >= 0 {
            lemma_mod_add_multiples_vanish(j + lag, n as int);
            lemma_small_mod((j + lag) as nat, n);
        } else {
            lemma_small_mod((n + j + lag) as nat, n);
        }
    }
    assert forall|j: int| l <= j < n implies #[trigger] circular_term(j) == 0 by {
        assert(wide_b[j] == 0);
        assert(wide_a[(j + shift) % (wide_a.len() as int)] * 0 == 0) by (nonlinear_arith);
    }
    lemma_sum_of_ignores_zero_tail(l, n, linear_term, circular_term);
}

/// The lag window of the circular correlation of two padded signals holds,
/// at each index, the linear correlation of the signals at the lag of that
/// index, provided the transform length is at least the number of lags.
pub proof fn lemma_window_of_circular_is_linear(a: Seq<int>, b: Seq<int>, transform_length: nat)
    requires
        a.len() == b.len(),
        lag_count(a.len()) <= transform_length,
    ensures
        linear_window(
            circular_correlation(padded(a, transform_length, 0), padded(b, transform_length, 0)),
            a.len(),
        ) =~= Seq::new(
            lag_count(a.len()),
            |i: int| linear_correlation_at(a, b, lag_at(i, a.len())),
        ),
{
    let l = a.len();
    let circular = circular_correlation(
        padded(a, transform_length, 0),
        padded(b, transform_length, 0),
    );
    assert forall|i: int| 0 <= i < lag_count(l) implies linear_window(circular, l)[i]
        == linear_correlation_at(a, b, lag_at(i, l)) by {
        lemma_circular_at_lag_is_linear(a, b, transform_length, lag_at(i, l));
    }
}

} // verus!
