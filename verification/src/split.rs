//! Splitting one mutable slice into two that do not overlap.

use vstd::prelude::*;

verus! {

/// Splits `values` at `mid`, of which the caller has made sure that it does
/// not lie behind the end of the slice: the first part borrows the elements
/// before `mid`, the second those from `mid` on, and whatever is written
/// through the parts ends up in `values`, in place. The split is the standard
/// library's, which needs no raw pointers for it.
pub fn split_at_mut_unchecked<T>(values: &mut [T], mid: usize) -> (parts: (&mut [T], &mut [T]))
    requires
        mid <= old(values)@.len(),
    ensures
        parts.0@ == old(values)@.subrange(0, mid as int),
        parts.1@ == old(values)@.subrange(mid as int, old(values)@.len() as int),
        final(values)@ == final(parts.0)@ + final(parts.1)@,
{
    values.split_at_mut(mid)
}

/// Splits `values` at `mid`, which must not lie behind the end of the slice:
/// the same two parts as `split_at_mut_unchecked` gives.
pub fn split_at_mut<T>(values: &mut [T], mid: usize) -> (parts: (&mut [T], &mut [T]))
    requires
        mid <= old(values)@.len(),
    ensures
        parts.0@ == old(values)@.subrange(0, mid as int),
        parts.1@ == old(values)@.subrange(mid as int, old(values)@.len() as int),
        final(values)@ == final(parts.0)@ + final(parts.1)@,
{
    split_at_mut_unchecked(values, mid)
}

} // verus!
