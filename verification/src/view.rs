//! A vector split into what it already holds, which can only be read, and
//! room for a fixed number of further elements, which can only be appended.

use vstd::prelude::*;
use crate::bulk::{append_from_within, append_slice};
use crate::error::ExtendError;
use crate::repeat::{
    lemma_repeated_add, lemma_repeated_len, lemma_repeated_nothing, lemma_repeated_prefix, repeated,
    tail,
};
use vstd::slice::slice_subrange;
use vstd::std_specs::iter::IteratorSpec;

verus! {

/// An exclusive borrow of a vector that may append to it, up to a limit
/// fixed when the borrow began, and that never changes what the vector held
/// at that moment.
///
/// The elements below `start` are the read region, see
/// [`content`](Self::content); those from `start` on are the write region,
/// which is the view of this type and grows up to `max_len`. When the borrow
/// ends, the vector holds both.
///
/// The fields are public so that contracts can speak of the vector behind
/// `buffer`, also of what it holds when the borrow has ended. Every method
/// asks for [`inv`](Self::inv) and keeps it; code that assigns to a field
/// has to establish it again.
#[derive(Debug)]
pub struct FixedCapacityVec<'a, T> {
    /// Length of the vector when the borrow began.
    pub start: usize,
    /// Length that the vector may not exceed.
    pub max_len: usize,
    /// The vector itself.
    pub buffer: &'a mut Vec<T>,
}

impl<'a, T> View for FixedCapacityVec<'a, T> {
    type V = Seq<T>;

    /// The elements appended so far.
    open spec fn view(&self) -> Seq<T> {
        self.buffer@.subrange(self.start as int, self.buffer@.len() as int)
    }
}

impl<'a, T> FixedCapacityVec<'a, T> {
    /// The vector is at least as long as it was when the borrow began and no
    /// longer than the limit.
    pub open spec fn inv(&self) -> bool {
        self.start <= self.buffer@.len() <= self.max_len
    }

    /// What the vector held when the borrow began.
    pub open spec fn spec_content(&self) -> Seq<T> {
        self.buffer@.subrange(0, self.start as int)
    }

    /// How many elements the vector holds.
    pub open spec fn spec_buffer_len(&self) -> nat {
        self.buffer@.len()
    }

    /// How many elements may be appended in all.
    pub open spec fn spec_capacity(&self) -> nat {
        (self.max_len - self.start) as nat
    }

    /// How many elements may still be appended.
    pub open spec fn spec_additional_cap(&self) -> nat {
        (self.max_len - self.buffer@.len()) as nat
    }

    /// `next` has the same limits as `self` and holds the same elements,
    /// followed by `items`.
    pub open spec fn grown_by(&self, next: &Self, items: Seq<T>) -> bool {
        &&& next.start == self.start
        &&& next.max_len == self.max_len
        &&& next.buffer@ == self.buffer@ + items
    }

    /// Returns what the vector held when the borrow began.
    pub fn content(&self) -> (slice: &[T])
        requires
            self.inv(),
        ensures
            slice@ == self.spec_content(),
    {
        slice_subrange(self.buffer.as_slice(), 0, self.start)
    }

    /// Returns the elements appended so far.
    pub fn as_slice(&self) -> (slice: &[T])
        requires
            self.inv(),
        ensures
            slice@ == self@,
    {
        slice_subrange(self.buffer.as_slice(), self.start, self.buffer.len())
    }

    /// Returns the number of elements that may still be appended.
    pub fn additional_cap(&self) -> (n: usize)
        requires
            self.inv(),
        ensures
            n == self.spec_additional_cap(),
    {
        self.max_len - self.buffer.len()
    }

    /// Appends `item`.
    pub fn push(&mut self, item: T)
        requires
            old(self).inv(),
            old(self).spec_additional_cap() > 0,
        ensures
            final(self).inv(),
            old(self).grown_by(final(self), seq![item]),
            *final(final(self).buffer) == *final(old(self).buffer),
    {
        self.buffer.push(item);
        assert(self.buffer@ =~= old(self).buffer@ + seq![item]);
    }

    /// Appends `item` if there is room for it, and nothing otherwise.
    pub fn try_push(&mut self, item: T) -> (result: Result<(), ExtendError>)
        requires
            old(self).inv(),
        ensures
            final(self).inv(),
            *final(final(self).buffer) == *final(old(self).buffer),
            result is Ok <==> old(self).spec_additional_cap() > 0,
            result is Ok ==> old(self).grown_by(final(self), seq![item]),
            result is Err ==> result == Err::<(), ExtendError>(ExtendError::CapacityExceeded)
                && old(self).grown_by(final(self), Seq::empty()),
    {
        if self.additional_cap() > 0 {
            self.push(item);
            Ok(())
        } else {
            Err(ExtendError::CapacityExceeded)
        }
    }

    /// Appends the items that `iter` yields, one by one.
    pub fn extend<I: Iterator<Item = T>>(&mut self, iter: I)
        requires
            old(self).inv(),
            iter.obeys_prophetic_iter_laws(),
            iter.remaining().len() <= old(self).spec_additional_cap(),
        ensures
            final(self).inv(),
            old(self).grown_by(final(self), iter.remaining()),
            *final(final(self).buffer) == *final(old(self).buffer),
    {
        let ghost items = iter.remaining();
        let mut rest = iter;
        while self.buffer.len() < self.max_len
            invariant
                self.inv(),
                self.start == old(self).start,
                self.max_len == old(self).max_len,
                *final(self.buffer) == *final(old(self).buffer),
                rest.obeys_prophetic_iter_laws(),
                items == iter.remaining(),
                items.len() <= old(self).spec_additional_cap(),
                self.buffer@.len() + rest.remaining().len() == old(self).buffer@.len()
                    + items.len(),
                self.buffer@ + rest.remaining() == old(self).buffer@ + items,
            decreases self.max_len - self.buffer@.len(),
        {
            let ghost held = self.buffer@;
            let ghost ahead = rest.remaining();
            match rest.next() {
                Some(item) => {
                    self.buffer.push(item);
                    assert(self.buffer@ + rest.remaining() =~= held + ahead);
                },
                None => {
                    assert(held + ahead =~= held);
                    return ;
                },
            }
        }
        assert(self.buffer@ + rest.remaining() =~= self.buffer@);
    }

    /// Appends the items that `iter` yields for as long as there is room.
    /// An item that comes when the limit is reached is dropped, and
    /// reported as an error.
    pub fn try_extend<I: Iterator<Item = T>>(&mut self, iter: I) -> (result: Result<
        (),
        ExtendError,
    >)
        requires
            old(self).inv(),
        ensures
            final(self).inv(),
            final(self).start == old(self).start,
            final(self).max_len == old(self).max_len,
            final(self).spec_content() == old(self).spec_content(),
            old(self).buffer@.is_prefix_of(final(self).buffer@),
            *final(final(self).buffer) == *final(old(self).buffer),
            result is Err ==> result == Err::<(), ExtendError>(ExtendError::CapacityExceeded),
            iter.obeys_prophetic_iter_laws() ==> {
                &&& result is Ok <==> iter.remaining().len() <= old(self).spec_additional_cap()
                &&& result is Ok ==> old(self).grown_by(final(self), iter.remaining())
                &&& result is Err ==> old(self).grown_by(
                    final(self),
                    iter.remaining().take(old(self).spec_additional_cap() as int),
                )
            },
    {
        let ghost items = iter.remaining();
        let ghost room = self.spec_additional_cap() as int;
        let mut rest = iter;
        while self.buffer.len() < self.max_len
            invariant
                self.inv(),
                self.start == old(self).start,
                self.max_len == old(self).max_len,
                *final(self.buffer) == *final(old(self).buffer),
                old(self).inv(),
                old(self).buffer@.is_prefix_of(self.buffer@),
                rest.obeys_prophetic_iter_laws() == iter.obeys_prophetic_iter_laws(),
                items == iter.remaining(),
                room == old(self).spec_additional_cap(),
                iter.obeys_prophetic_iter_laws() ==> {
                    &&& self.buffer@.len() + rest.remaining().len() == old(self).buffer@.len()
                        + items.len()
                    &&& self.buffer@ + rest.remaining() == old(self).buffer@ + items
                },
            decreases self.max_len - self.buffer@.len(),
        {
            let ghost held = self.buffer@;
            let ghost ahead = rest.remaining();
            match rest.next() {
                Some(item) => {
                    self.buffer.push(item);
                    assert(iter.obeys_prophetic_iter_laws() ==> self.buffer@ + rest.remaining()
                        =~= held + ahead);
                },
                None => {
                    assert(iter.obeys_prophetic_iter_laws() ==> held + ahead =~= held);
                    assert(self.spec_content() =~= old(self).spec_content());
                    return Ok(());
                },
            }
        }
        let ghost held = self.buffer@;
        let ghost ahead = rest.remaining();
        assert(self.spec_content() =~= old(self).spec_content());
        match rest.next() {
            Some(_) => {
                proof {
                    if iter.obeys_prophetic_iter_laws() {
                        assert(held =~= (held + ahead).take(held.len() as int));
                        assert((old(self).buffer@ + items).take(held.len() as int)
                            =~= old(self).buffer@ + items.take(room));
                    }
                }
                Err(ExtendError::CapacityExceeded)
            },
            None => {
                assert(iter.obeys_prophetic_iter_laws() ==> held + ahead =~= held);
                Ok(())
            },
        }
    }

    /// Returns the number of elements that may be appended in all.
    pub fn capacity(&mut self) -> (n: usize)
        requires
            old(self).inv(),
        ensures
            n == old(self).spec_capacity(),
            final(self).inv(),
            old(self).grown_by(final(self), Seq::empty()),
            *final(final(self).buffer) == *final(old(self).buffer),
    {
        self.max_len - self.start
    }

    /// Returns the number of elements appended so far.
    pub fn len(&mut self) -> (n: usize)
        requires
            old(self).inv(),
        ensures
            n == old(self)@.len(),
            final(self).inv(),
            old(self).grown_by(final(self), Seq::empty()),
            *final(final(self).buffer) == *final(old(self).buffer),
    {
        self.buffer.len() - self.start
    }
}

impl<'a, T: Copy> FixedCapacityVec<'a, T> {
    /// Appends the elements of `other`, as one block. `other` cannot be a
    /// part of this vector, which is borrowed exclusively: to copy from the
    /// vector itself, use [`extend_from_within`](Self::extend_from_within).
    pub fn extend_from_slice(&mut self, other: &[T])
        requires
            old(self).inv(),
            other@.len() <= old(self).spec_additional_cap(),
        ensures
            final(self).inv(),
            old(self).grown_by(final(self), other@),
            *final(final(self).buffer) == *final(old(self).buffer),
    {
        append_slice(self.buffer, other);
    }

    /// Appends the elements that stand at `start..end` in the vector, as one
    /// block. The range may lie anywhere in what the vector holds, in the
    /// read region or among the elements appended so far; the block is
    /// written behind the last element, so it never overlaps its source.
    pub fn extend_from_within(&mut self, start: usize, end: usize)
        requires
            old(self).inv(),
            start <= end <= old(self).buffer@.len(),
            end - start <= old(self).spec_additional_cap(),
        ensures
            final(self).inv(),
            old(self).grown_by(final(self), old(self).buffer@.subrange(start as int, end as int)),
            *final(final(self).buffer) == *final(old(self).buffer),
    {
        append_from_within(self.buffer, start, end);
    }

    /// Appends `n` copies of `slice`: the first as one block, the others by
    /// doubling what has been written, see [`repeat_tail`](Self::repeat_tail).
    pub fn extend_with_repeat(&mut self, slice: &[T], n: usize)
        requires
            old(self).inv(),
            slice@.len() * n <= old(self).spec_additional_cap(),
        ensures
            final(self).inv(),
            old(self).grown_by(final(self), repeated(slice@, n as nat)),
            final(self).spec_buffer_len() == old(self).spec_buffer_len() + slice@.len() * n,
            *final(final(self).buffer) == *final(old(self).buffer),
    {
        proof {
            lemma_repeated_len(slice@, n as nat);
        }
        if n == 0 || slice.len() == 0 {
            proof {
                lemma_repeated_nothing(slice@, n as nat);
                assert(self.buffer@ + repeated(slice@, n as nat) =~= self.buffer@);
            }
            return ;
        }
        let ghost before = self.buffer@;
        proof {
            assert(slice@.len() * (n - 1) + slice@.len() == slice@.len() * n)
                by (nonlinear_arith);
            assert(0 <= slice@.len() * (n - 1)) by (nonlinear_arith)
                requires
                    n >= 1,
            ;
        }
        self.extend_from_slice(slice);
        proof {
            assert(tail(self.buffer@, slice@.len()) =~= slice@);
            lemma_repeated_add(slice@, 1, (n - 1) as nat);
            assert(repeated(slice@, 1) =~= slice@) by {
                assert(repeated(slice@, 0) =~= Seq::<T>::empty());
            }
        }
        self.repeat_tail(slice.len(), n - 1);
        assert(self.buffer@ =~= before + repeated(slice@, n as nat));
    }

    /// Appends the elements of `other` if there is room for all of them,
    /// and nothing otherwise.
    pub fn try_extend_from_slice(&mut self, other: &[T]) -> (result: Result<(), ExtendError>)
        requires
            old(self).inv(),
        ensures
            final(self).inv(),
            *final(final(self).buffer) == *final(old(self).buffer),
            result is Ok <==> other@.len() <= old(self).spec_additional_cap(),
            result is Ok ==> old(self).grown_by(final(self), other@),
            result is Err ==> result == Err::<(), ExtendError>(ExtendError::CapacityExceeded)
                && old(self).grown_by(final(self), Seq::empty()),
    {
        if other.len() <= self.additional_cap() {
            self.extend_from_slice(other);
            Ok(())
        } else {
            Err(ExtendError::CapacityExceeded)
        }
    }

    /// Appends `n` copies of `slice` if there is room for all of them, and
    /// nothing otherwise.
    pub fn try_extend_with_repeat(&mut self, slice: &[T], n: usize) -> (result: Result<
        (),
        ExtendError,
    >)
        requires
            old(self).inv(),
        ensures
            final(self).inv(),
            *final(final(self).buffer) == *final(old(self).buffer),
            result is Ok <==> slice@.len() * n <= old(self).spec_additional_cap(),
            result is Ok ==> old(self).grown_by(final(self), repeated(slice@, n as nat)),
            result is Ok ==> final(self).spec_buffer_len() == old(self).spec_buffer_len()
                + slice@.len() * n,
            result is Err ==> old(self).grown_by(final(self), Seq::empty()),
            result == Err::<(), ExtendError>(ExtendError::CapacityOverflow) <==> slice@.len() * n
                > usize::MAX,
            result == Err::<(), ExtendError>(ExtendError::CapacityExceeded) <==> old(
                self,
            ).spec_additional_cap() < slice@.len() * n <= usize::MAX,
    {
        match slice.len().checked_mul(n) {
            None => Err(ExtendError::CapacityOverflow),
            Some(cap_needed) => {
                if cap_needed <= self.additional_cap() {
                    self.extend_with_repeat(slice, n);
                    Ok(())
                } else {
                    Err(ExtendError::CapacityExceeded)
                }
            },
        }
    }

    /// Appends `times` copies of the last `unit` elements of the vector.
    ///
    /// The copies are written by doubling: each step copies the whole run
    /// written so far, the last `unit` elements included, to its own end, and
    /// one last step copies the start of the run to add what is then still
    /// missing. Source and destination of a step never overlap, since the
    /// destination begins where the vector ends.
    pub fn repeat_tail(&mut self, unit: usize, times: usize)
        requires
            old(self).inv(),
            1 <= unit <= old(self).buffer@.len(),
            unit * times <= old(self).spec_additional_cap(),
        ensures
            final(self).inv(),
            old(self).grown_by(
                final(self),
                repeated(tail(old(self).buffer@, unit as nat), times as nat),
            ),
            final(self).spec_buffer_len() == old(self).spec_buffer_len() + unit * times,
            *final(final(self).buffer) == *final(old(self).buffer),
    {
        let ghost before = self.buffer@;
        let ghost pattern = tail(before, unit as nat);
        proof {
            lemma_repeated_len(pattern, times as nat);
            assert(times <= unit * times) by (nonlinear_arith)
                requires
                    1 <= unit,
                    0 <= times,
            ;
        }
        // The run begins with the copy that the vector already holds.
        let n = times + 1;
        let run_start = self.buffer.len() - unit;
        let mut copy_size = unit;
        let mut m = n / 2;
        let ghost mut copies: nat = 1;
        proof {
            assert(repeated(pattern, 1) =~= pattern) by {
                assert(repeated(pattern, 0) =~= Seq::<T>::empty());
            }
            assert(before =~= before.subrange(0, run_start as int) + repeated(pattern, 1));
            assert(unit * 1 == unit) by (nonlinear_arith);
            assert(unit * (n - 1) == unit * times);
            assert(2 * copies * m == 2 * m && 2 * copies * (m + 1) == 2 * m + 2)
                by (nonlinear_arith)
                requires
                    copies == 1,
            ;
        }
        while m > 0
            invariant
                self.inv(),
                self.start == old(self).start,
                self.max_len == old(self).max_len,
                *final(self.buffer) == *final(old(self).buffer),
                before == old(self).buffer@,
                pattern == tail(before, unit as nat),
                1 <= unit <= before.len(),
                run_start == before.len() - unit,
                unit * (n - 1) <= old(self).spec_additional_cap(),
                1 <= copies <= n,
                2 * copies * m <= n < 2 * copies * (m + 1),
                copy_size == unit * copies,
                self.buffer@ == before.subrange(0, run_start as int) + repeated(pattern, copies),
                self.buffer@.len() == run_start + copy_size,
            decreases m,
        {
            proof {
                lemma_doubling_step(unit as nat, n as nat, copies, m as nat);
                lemma_repeated_add(pattern, copies, copies);
                lemma_repeated_len(pattern, copies);
            }
            let ghost run = self.buffer@;
            append_from_within(self.buffer, run_start, run_start + copy_size);
            assert(run.subrange(run_start as int, run_start + copy_size) =~= repeated(
                pattern,
                copies,
            ));
            assert(self.buffer@ =~= before.subrange(0, run_start as int) + repeated(
                pattern,
                2 * copies,
            ));
            copy_size = copy_size * 2;
            m = m / 2;
            proof {
                copies = 2 * copies;
            }
        }
        proof {
            assert(2 * copies * (m + 1) == 2 * copies) by (nonlinear_arith)
                requires
                    m == 0,
            ;
            lemma_doubling_rest(unit as nat, n as nat, copies);
            lemma_repeated_prefix(pattern, copies, (n - copies) as nat);
            lemma_repeated_add(pattern, copies, (n - copies) as nat);
            lemma_repeated_add(pattern, 1, times as nat);
            lemma_repeated_len(pattern, copies);
        }
        let rem_len = unit * n - copy_size;
        let ghost run = self.buffer@;
        if rem_len > 0 {
            append_from_within(self.buffer, run_start, run_start + rem_len);
        }
        assert(run.subrange(run_start as int, run_start + rem_len) =~= repeated(
            pattern,
            copies,
        ).subrange(0, rem_len as int));
        assert(self.buffer@ =~= before.subrange(0, run_start as int) + repeated(pattern, n as nat));
        assert(self.buffer@ =~= before + repeated(pattern, times as nat));
    }
}

/// Appending within the room that is left keeps the vector within its
/// limit and uses up exactly as much room as was appended.
pub proof fn lemma_grown_within_limit<T>(
    first: FixedCapacityVec<'_, T>,
    next: FixedCapacityVec<'_, T>,
    items: Seq<T>,
)
    requires
        first.inv(),
        first.grown_by(&next, items),
        items.len() <= first.spec_additional_cap(),
    ensures
        next.inv(),
        next.spec_capacity() == first.spec_capacity(),
        next.spec_additional_cap() == first.spec_additional_cap() - items.len(),
        next.spec_content() == first.spec_content(),
        next@ == first@ + items,
{
    assert(next.spec_content() =~= first.spec_content());
    assert(next@ =~= first@ + items);
}

/// Appending one run of elements and then another appends the two runs
/// joined.
pub proof fn lemma_grown_twice<T>(
    first: FixedCapacityVec<'_, T>,
    second: FixedCapacityVec<'_, T>,
    third: FixedCapacityVec<'_, T>,
    items: Seq<T>,
    more: Seq<T>,
)
    requires
        first.grown_by(&second, items),
        second.grown_by(&third, more),
    ensures
        first.grown_by(&third, items + more),
{
    assert(third.buffer@ =~= first.buffer@ + (items + more));
}

/// A borrow that began with room for `capacity` elements and has appended
/// exactly that many has brought the vector to the length it began with plus
/// `capacity`, whatever the steps were, and has no room left.
pub proof fn lemma_capacity_used_up<T>(
    first: FixedCapacityVec<'_, T>,
    last: FixedCapacityVec<'_, T>,
    items: Seq<T>,
)
    requires
        first.inv(),
        first@.len() == 0,
        first.grown_by(&last, items),
        items.len() == first.spec_capacity(),
    ensures
        last.inv(),
        last.spec_buffer_len() == first.spec_buffer_len() + first.spec_capacity(),
        last.spec_additional_cap() == 0,
        last@ == items,
{
    lemma_grown_within_limit(first, last, items);
    assert(first@ + items =~= items);
}

/// One doubling step is within the limits: twice the run fits where `n`
/// copies fit, and halving the count keeps it in step with the run.
proof fn lemma_doubling_step(unit: nat, n: nat, copies: nat, m: nat)
    requires
        1 <= copies,
        1 <= m,
        2 * copies * m <= n < 2 * copies * (m + 1),
    ensures
        2 * copies <= n,
        unit * copies + unit * copies == unit * (2 * copies),
        unit * (2 * copies) <= unit * n,
        unit * (2 * copies) - unit <= unit * (n - 1),
        2 * (2 * copies) * (m / 2) <= n < 2 * (2 * copies) * (m / 2 + 1),
{
    let half = m / 2;
    assert(2 * half <= m <= 2 * half + 1);
    assert(2 * copies <= n) by (nonlinear_arith)
        requires
            1 <= copies,
            1 <= m,
            2 * copies * m <= n,
    ;
    assert(unit * copies + unit * copies == unit * (2 * copies)) by (nonlinear_arith);
    assert(unit * (2 * copies) <= unit * n) by (nonlinear_arith)
        requires
            2 * copies <= n,
    ;
    assert(unit * (n - 1) == unit * n - unit) by (nonlinear_arith);
    assert(2 * (2 * copies) * half <= n) by (nonlinear_arith)
        requires
            2 * half <= m,
            2 * copies * m <= n,
            1 <= copies,
    ;
    assert(n < 2 * (2 * copies) * (half + 1)) by (nonlinear_arith)
        requires
            m <= 2 * half + 1,
            n < 2 * copies * (m + 1),
            1 <= copies,
    ;
}

/// When no doubling step is left, less than one run is missing.
proof fn lemma_doubling_rest(unit: nat, n: nat, copies: nat)
    requires
        1 <= copies <= n,
        n < 2 * copies,
    ensures
        unit * copies <= unit * n,
        unit * n - unit * copies == unit * (n - copies),
        unit * (n - copies) <= unit * copies,
        unit * n - unit == unit * (n - 1),
{
    assert(unit * copies <= unit * n) by (nonlinear_arith)
        requires
            copies <= n,
    ;
    assert(unit * n - unit * copies == unit * (n - copies)) by (nonlinear_arith);
    assert(unit * (n - copies) <= unit * copies) by (nonlinear_arith)
        requires
            n - copies <= copies,
    ;
    assert(unit * n - unit == unit * (n - 1)) by (nonlinear_arith);
}

/// Vectors that can lend themselves out for appending within a fixed
/// capacity.
pub trait AsFixedCapacityVec {
    type Item;

    /// The elements that the vector holds.
    spec fn elements(&self) -> Seq<Self::Item>;

    /// Makes room for `capacity` more elements and lends the vector out for
    /// appending that many.
    fn with_fixed_capacity(&mut self, capacity: usize) -> (view: FixedCapacityVec<'_, Self::Item>)
        requires
            old(self).elements().len() + capacity <= usize::MAX,
        ensures
            view.inv(),
            view.buffer@ == old(self).elements(),
            view.start == old(self).elements().len(),
            view.max_len == old(self).elements().len() + capacity,
            final(view.buffer)@ == final(self).elements(),
    ;
}

impl<T> AsFixedCapacityVec for Vec<T> {
    type Item = T;

    open spec fn elements(&self) -> Seq<T> {
        self@
    }

    fn with_fixed_capacity(&mut self, capacity: usize) -> (view: FixedCapacityVec<'_, T>) {
        let len = self.len();
        self.reserve(capacity);
        FixedCapacityVec { start: len, max_len: len + capacity, buffer: self }
    }
}

} // verus!
