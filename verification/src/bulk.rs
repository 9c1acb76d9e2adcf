//! Block copies to the end of a vector. The two functions here hand the
//! work to the standard library; their contracts are taken on trust.

use vstd::prelude::*;

verus! {

/// Appends a copy of `items` to `buffer` in one block.
///
/// Calls `Extend::<&T>::extend` of `Vec<T>`, which for `T: Copy` copies the
/// elements out of the slice and appends the whole slice at once. Trusted:
/// afterwards `buffer` holds what it held before, followed by the elements
/// of `items` in order.
#[verifier::external_body]
pub(crate) fn append_slice<T: Copy>(buffer: &mut Vec<T>, items: &[T])
    requires
        old(buffer)@.len() + items@.len() <= usize::MAX,
    ensures
        final(buffer)@ == old(buffer)@ + items@,
{
    buffer.extend(items);
}

/// Appends a copy of `buffer[start..end]` to `buffer` in one block.
///
/// Calls `Vec::extend_from_within`, which clones the elements of the range
/// and appends them; for `T: Copy` a clone is a copy. The call panics on a
/// range that is not within the vector, so `requires` leaves such ranges
/// out. Trusted: afterwards `buffer` holds what it held before, followed by
/// the elements that stood in `start..end`, in order.
#[verifier::external_body]
pub(crate) fn append_from_within<T: Copy>(buffer: &mut Vec<T>, start: usize, end: usize)
    requires
        start <= end <= old(buffer)@.len(),
        old(buffer)@.len() + (end - start) <= usize::MAX,
    ensures
        final(buffer)@ == old(buffer)@ + old(buffer)@.subrange(start as int, end as int),
{
    buffer.extend_from_within(start..end);
}

} // verus!
