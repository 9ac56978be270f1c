//! Picking elements out of pairs and slices, and cutting slices in parts.
use vstd::prelude::*;

verus! {

/// The second element of the pair when `is_next`, else the first, to change
/// in place.
pub fn get_element_from_pair<T>(values: &mut (T, T), is_next: bool) -> (r: &mut T)
    ensures
        is_next ==> *r == old(values).1 && *final(values) == (old(values).0, *final(r)),
        !is_next ==> *r == old(values).0 && *final(values) == (*final(r), old(values).1),
{
    if is_next {
        &mut values.1
    } else {
        &mut values.0
    }
}

/// The element `n` places from the end (0 is the last one).
pub fn get_element_from_end<T>(values: &mut [T], n: usize) -> (r: &T)
    requires
        n < old(values)@.len(),
    ensures
        *r == old(values)@[old(values)@.len() - 1 - n],
        final(values)@ == old(values)@,
{
    let len = values.len();
    &values[len - 1 - n]
}

/// The element at position `n`, to change in place.
pub fn get_element_from_slice<T>(values: &mut [T], n: usize) -> (r: &mut T)
    requires
        n < old(values)@.len(),
    ensures
        *r == old(values)@[n as int],
        final(values)@ == old(values)@.update(n as int, *final(r)),
{
    &mut values[n]
}

/// The slice cut in two at `n`: the first `n` elements and the rest.
pub fn split_slice_by2<T>(values: &[T], n: usize) -> (parts: [&[T]; 2])
    requires
        0 < n < values@.len(),
    ensures
        parts[0]@ == values@.subrange(0, n as int),
        parts[1]@ == values@.subrange(n as int, values@.len() as int),
{
    let (left, right) = values.split_at(n);
    [left, right]
}

/// The slice cut in four: first in halves at `len / 2`, then each half in
/// halves at its own `len / 2`.
pub fn split_slice_by4<T>(values: &[T]) -> (parts: [&[T]; 4])
    ensures
        ({
            let len = values@.len() as int;
            let mid = len / 2;
            let q1 = mid / 2;
            let q3 = mid + (len - mid) / 2;
            &&& parts[0]@ == values@.subrange(0, q1)
            &&& parts[1]@ == values@.subrange(q1, mid)
            &&& parts[2]@ == values@.subrange(mid, q3)
            &&& parts[3]@ == values@.subrange(q3, len)
        }),
{
    let (left, right) = values.split_at(values.len() / 2);
    let (one, two) = left.split_at(left.len() / 2);
    let (three, four) = right.split_at(right.len() / 2);
    [one, two, three, four]
}

} // verus!
