//! Zero padding: a signal is laid at the head of a longer buffer and the
//! rest of the buffer is filled with the silent sample.

use vstd::prelude::*;

verus! {

/// The buffer of `length` samples that starts with `signal` and holds
/// `zero` everywhere after it.
pub open spec fn padded<T>(signal: Seq<T>, length: nat, zero: T) -> Seq<T> {
    Seq::new(
        length,
        |i: int|
            if i < signal.len() {
                signal[i]
            } else {
                zero
            },
    )
}

/// A padded buffer is the signal followed by a run of the silent sample.
pub proof fn lemma_padded_is_signal_then_zeros<T>(signal: Seq<T>, length: nat, zero: T)
    requires
        signal.len() <= length,
    ensures
        padded(signal, length, zero) =~= signal + Seq::new(
            (length - signal.len()) as nat,
            |i: int| zero,
        ),
        padded(signal, length, zero).len() == length,
        padded(signal, length, zero).subrange(0, signal.len() as int) =~= signal,
{
}

/// Copies `signal` to the head of a new buffer of `length` samples and
/// fills the rest with `zero`, the silent sample.
pub fn pad<T: Copy>(signal: &Vec<T>, length: usize, zero: T) -> (buffer: Vec<T>)
    requires
        signal.len() <= length,
    ensures
        buffer@ == padded(signal@, length as nat, zero),
{
    let mut buffer: Vec<T> = Vec::with_capacity(length);
    let mut i: usize = 0;
    while i < length
        invariant
            i <= length,
            signal.len() <= length,
            buffer@ == padded(signal@, i as nat, zero),
        decreases length - i,
    {
        let sample = if i < signal.len() {
            signal[i]
        } else {
            zero
        };
        buffer.push(sample);
        i = i + 1;
        assert(buffer@ =~= padded(signal@, i as nat, zero));
    }
    buffer
}

} // verus!
