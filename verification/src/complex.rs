//! Complex values and their two layouts: a sequence of values, and a flat
//! sequence in which each real part is followed by its imaginary part.

use vstd::prelude::*;

verus! {

/// A complex value with real part `re` and imaginary part `im`.
#[derive(Clone, Copy, Debug, PartialEq)]
pub struct Complex<T> {
    pub re: T,
    pub im: T,
}

/// The flat layout of `values`: real and imaginary parts in turn.
pub open spec fn flat_form<T>(values: Seq<Complex<T>>) -> Seq<T> {
    Seq::new(
        2 * values.len(),
        |i: int|
            if i % 2 == 0 {
                values[i / 2].re
            } else {
                values[i / 2].im
            },
    )
}

/// The complex values that a flat sequence holds, pair by pair. A last
/// part without a partner is left out.
pub open spec fn object_form<T>(parts: Seq<T>) -> Seq<Complex<T>> {
    Seq::new(parts.len() / 2, |i: int| Complex { re: parts[2 * i], im: parts[2 * i + 1] })
}

/// Reading back the flat layout of complex values gives the same values.
pub proof fn lemma_object_form_of_flat_form<T>(values: Seq<Complex<T>>)
    ensures
        object_form(flat_form(values)) =~= values,
{
    assert forall|i: int| 0 <= i < values.len() implies object_form(flat_form(values))[i]
        == values[i] by {
        assert((2 * i) % 2 == 0 && (2 * i) / 2 == i);
        assert((2 * i + 1) % 2 == 1 && (2 * i + 1) / 2 == i);
    }
}

/// Laying out flat again what was read from a flat sequence gives that
/// sequence, without its last part when their number is odd.
pub proof fn lemma_flat_form_of_object_form<T>(parts: Seq<T>)
    ensures
        flat_form(object_form(parts)) =~= parts.subrange(0, 2 * (parts.len() as int / 2)),
        parts.len() % 2 == 0 ==> flat_form(object_form(parts)) =~= parts,
{
    assert forall|i: int| 0 <= i < 2 * (parts.len() / 2) implies flat_form(object_form(parts))[i]
        == parts[i] by {
        assert(0 <= i / 2 < parts.len() / 2);
        if i % 2 == 0 {
            assert(2 * (i / 2) == i);
        } else {
            assert(2 * (i / 2) + 1 == i);
        }
    }
}

/// Lays complex values out flat: the real part of each value, then its
/// imaginary part.
pub fn complex_object_form_to_flat_form<T: Copy>(object_form: Vec<Complex<T>>) -> (flat: Vec<T>)
    requires
        2 * object_form.len() <= usize::MAX,
    ensures
        flat@ == flat_form(object_form@),
{
    let mut flat: Vec<T> = Vec::with_capacity(object_form.len() * 2);
    let mut i: usize = 0;
    while i < object_form.len()
        invariant
            i <= object_form.len(),
            flat@ == flat_form(object_form@.subrange(0, i as int)),
        decreases object_form.len() - i,
    {
        let value = object_form[i];
        flat.push(value.re);
        flat.push(value.im);
        i = i + 1;
        assert(flat@ =~= flat_form(object_form@.subrange(0, i as int)));
    }
    assert(object_form@.subrange(0, i as int) =~= object_form@);
    flat
}

/// Reads complex values from a flat sequence, two parts for each value. A
/// last part without a partner is left out.
pub fn complex_flat_form_to_object_form<T: Copy>(flat_form: Vec<T>) -> (values: Vec<Complex<T>>)
    ensures
        values@ == object_form(flat_form@),
{
    let count: usize = flat_form.len() / 2;
    let mut values: Vec<Complex<T>> = Vec::with_capacity(count);
    let mut i: usize = 0;
    while i < count
        invariant
            count == flat_form.len() / 2,
            i <= count,
            values@ == object_form(flat_form@.subrange(0, 2 * i)),
        decreases count - i,
    {
        values.push(Complex { re: flat_form[i * 2], im: flat_form[i * 2 + 1] });
        i = i + 1;
        assert(values@ =~= object_form(flat_form@.subrange(0, 2 * i)));
    }
    assert(values@ =~= object_form(flat_form@));
    values
}

} // verus!
