//! Reading a circular correlation by signed lag.
//!
//! A circular correlation of transform length `n` holds the lags from zero
//! upwards at its head and the negative lags, wrapped around, at its tail.
//! For signals of `l` samples the lags run from `-(l - 1)` to `l - 1`; the
//! window lists them in rising order.

use vstd::prelude::*;

verus! {

/// How many lags two signals of `signal_length` samples have.
pub open spec fn lag_count(signal_length: nat) -> nat {
    if signal_length == 0 {
        0
    } else {
        (2 * signal_length - 1) as nat
    }
}

/// The lag that stands at `index` of the window.
pub open spec fn lag_at(index: int, signal_length: nat) -> int {
    index - (signal_length - 1)
}

/// Where a circular sequence of `transform_length` values holds `lag`.
pub open spec fn circular_index(lag: int, transform_length: nat) -> int {
    if lag >= 0 {
        lag
    } else {
        transform_length + lag
    }
}

/// The window of a circular sequence for signals of `signal_length`
/// samples: its last `signal_length - 1` values, then its first
/// `signal_length` values.
pub open spec fn linear_window<T>(circular: Seq<T>, signal_length: nat) -> Seq<T> {
    if signal_length == 0 {
        Seq::empty()
    } else {
        circular.subrange(circular.len() - (signal_length - 1), circular.len() as int)
            + circular.subrange(0, signal_length as int)
    }
}

/// The window has one value for each lag, and the value at an index is the
/// one that the circular sequence holds for the lag of that index.
pub proof fn lemma_window_by_lag<T>(circular: Seq<T>, signal_length: nat)
    requires
        signal_length <= circular.len(),
    ensures
        linear_window(circular, signal_length).len() == lag_count(signal_length),
        forall|i: int|
            0 <= i < lag_count(signal_length) ==> {
                &&& 0 <= circular_index(lag_at(i, signal_length), circular.len()) < circular.len()
                &&& #[trigger] linear_window(circular, signal_length)[i] == circular[circular_index(
                    lag_at(i, signal_length),
                    circular.len(),
                )]
            },
{
}

/// For signals of one sample or more the window has `2 * signal_length - 1`
/// values, and lag zero stands in its middle, at `signal_length - 1`.
pub proof fn lemma_window_shape<T>(circular: Seq<T>, signal_length: nat)
    requires
        1 <= signal_length <= circular.len(),
    ensures
        linear_window(circular, signal_length).len() == 2 * signal_length - 1,
        lag_at(signal_length - 1, signal_length) == 0,
        linear_window(circular, signal_length)[signal_length - 1] == circular[0],
{
    lemma_window_by_lag(circular, signal_length);
}

/// The lags that a window separates do not meet in the circular sequence
/// when the transform length is at least the number of lags.
pub proof fn lemma_lags_do_not_collide(signal_length: nat, transform_length: nat, i: int, j: int)
    requires
        lag_count(signal_length) <= transform_length,
        0 <= i < lag_count(signal_length),
        0 <= j < lag_count(signal_length),
        i != j,
    ensures
        circular_index(lag_at(i, signal_length), transform_length) != circular_index(
            lag_at(j, signal_length),
            transform_length,
        ),
{
}

/// Lists a circular sequence by rising lag, for signals of `signal_length`
/// samples: the negative lags from its tail, then lag zero and the
/// positive lags from its head.
pub fn extract_linear<T: Copy>(circular: &Vec<T>, signal_length: usize) -> (window: Vec<T>)
    requires
        signal_length <= circular.len(),
        lag_count(signal_length as nat) <= usize::MAX,
    ensures
        window@ == linear_window(circular@, signal_length as nat),
        window@.len() == lag_count(signal_length as nat),
        signal_length >= 1 ==> window@.len() == 2 * signal_length - 1,
{
    let mut window: Vec<T> = Vec::new();
    if signal_length == 0 {
        assert(window@ =~= linear_window(circular@, 0));
        return window;
    }
    let n: usize = circular.len();
    let max_lag: usize = signal_length - 1;
    let mut i: usize = n - max_lag;
    while i < n
        invariant
            n == circular.len(),
            max_lag <= n,
            n - max_lag <= i <= n,
            window@ == circular@.subrange(n - max_lag, i as int),
        decreases n - i,
    {
        window.push(circular[i]);
        i = i + 1;
        assert(window@ =~= circular@.subrange(n - max_lag, i as int));
    }
    let mut j: usize = 0;
    while j < signal_length
        invariant
            n == circular.len(),
            signal_length <= n,
            max_lag <= n,
            j <= signal_length,
            window@ == circular@.subrange(n - max_lag, n as int) + circular@.subrange(0, j as int),
        decreases signal_length - j,
    {
        window.push(circular[j]);
        j = j + 1;
        assert(window@ =~= circular@.subrange(n - max_lag, n as int) + circular@.subrange(
            0,
            j as int,
        ));
    }
    window
}

} // verus!
