use vstd::prelude::*;

use crate::arrayvec::ArrayVec;
use crate::error::ArrayVecError;

verus! {

/// A draining iterator: removes the elements of a chosen sub-range from a
/// container and yields them in order.
///
/// It holds the container exclusively for its whole lifetime, so no other
/// operation can interleave with the removals. Releasing it goes through
/// `finish`, which forces any removals still outstanding and hands the
/// container back; the requested range is therefore always removed in full,
/// whether or not the caller consumed every yielded value.
pub struct ArrayVecDrain<T> {
    /// The container being drained.
    pub(crate) parent: ArrayVec<T>,
    /// The position in the parent removed next; removal shifts the rest of
    /// the range down onto this same position.
    pub(crate) target_index: usize,
    /// How many removals remain.
    pub(crate) target_count: usize,
}

impl<T> ArrayVecDrain<T> {
    /// The internal invariant: the remaining target range lies inside the
    /// parent's live region.
    pub open(crate) spec fn well_formed(&self) -> bool {
        &&& self.parent.well_formed()
        &&& self.target_index + self.target_count <= self.parent@.len()
    }

    /// The fixed capacity of the container being drained.
    pub open(crate) spec fn spec_capacity(&self) -> nat {
        self.parent.spec_capacity()
    }

    /// The elements still to be yielded, in order.
    pub open(crate) spec fn pending(&self) -> Seq<T> {
        self.parent@.subrange(
            self.target_index as int,
            self.target_index + self.target_count,
        )
    }

    /// The contents the container keeps once draining completes: everything
    /// outside the remaining target range, in order.
    pub open(crate) spec fn residue(&self) -> Seq<T> {
        self.parent@.subrange(0, self.target_index as int) + self.parent@.subrange(
            self.target_index + self.target_count,
            self.parent@.len() as int,
        )
    }
}

impl<T: Default> ArrayVecDrain<T> {
    /// Remove and yield the next element of the target range, or yield
    /// nothing once the range is exhausted. What the parent will keep is
    /// unaffected either way.
    pub fn next(&mut self) -> (r: Option<T>)
        requires
            old(self).well_formed(),
        ensures
            final(self).well_formed(),
            final(self).spec_capacity() == old(self).spec_capacity(),
            old(self).pending().len() > 0 ==> r == Some(old(self).pending().first()) && final(self).pending() == old(self).pending().drop_first() && final(self).residue() == old(
                self,
            ).residue(),
            old(self).pending().len() == 0 ==> r is None && *final(self) == *old(self),
    {
        if self.target_count > 0 {
            let out = self.parent.remove(self.target_index);
            self.target_count -= 1;
            proof {
                assert(final(self).pending() =~= old(self).pending().drop_first());
                assert(final(self).residue() =~= old(self).residue());
            }
            Some(out)
        } else {
            None
        }
    }

    /// Force the removals still outstanding and hand the container back.
    /// Every path that releases the iterator goes through this call, so the
    /// drained range is always excised in full.
    pub fn finish(self) -> (v: ArrayVec<T>)
        requires
            self.well_formed(),
        ensures
            v.well_formed(),
            v.spec_capacity() == self.spec_capacity(),
            v@ == self.residue(),
    {
        let mut d = self;
        while d.target_count > 0
            invariant
                d.well_formed(),
                d.spec_capacity() == self.spec_capacity(),
                d.residue() == self.residue(),
            decreases d.pending().len(),
        {
            let _ = d.next();
        }
        proof {
            assert(d.parent@ =~= d.residue());
        }
        d.parent
    }
}

impl<T: Default> ArrayVec<T> {
    /// Creates a draining iterator that removes the live elements at
    /// `[start, end)` and yields them in order. The container moves into the
    /// iterator, which holds it exclusively; `finish` hands it back with the
    /// range excised.
    ///
    /// The range must satisfy `start <= end <= len`; `try_drain` is the
    /// fallible form, which tells an inverted range apart from one that ends
    /// past the live region.
    pub fn drain(self, start: usize, end: usize) -> (d: ArrayVecDrain<T>)
        requires
            self.well_formed(),
            start <= end <= self@.len(),
        ensures
            d.well_formed(),
            d.spec_capacity() == self.spec_capacity(),
            d.pending() == self@.subrange(start as int, end as int),
            d.residue() == self@.subrange(0, start as int) + self@.subrange(
                end as int,
                self@.len() as int,
            ),
    {
        ArrayVecDrain { parent: self, target_index: start, target_count: end - start }
    }

    /// The fallible form of `drain`: reports `InvalidRange` for a start
    /// beyond the end and `IndexOutOfBounds` for an end beyond the live
    /// region, handing the container back unchanged in either case.
    pub fn try_drain(self, start: usize, end: usize) -> (r: Result<
        ArrayVecDrain<T>,
        (Self, ArrayVecError),
    >)
        requires
            self.well_formed(),
        ensures
            start > end ==> r == Err::<ArrayVecDrain<T>, _>((self, ArrayVecError::InvalidRange)),
            start <= end && end > self@.len() ==> r == Err::<ArrayVecDrain<T>, _>(
                (self, ArrayVecError::IndexOutOfBounds),
            ),
            start <= end <= self@.len() ==> (r matches Ok(d) && d.well_formed()
                && d.spec_capacity() == self.spec_capacity() && d.pending() == self@.subrange(
                start as int,
                end as int,
            ) && d.residue() == self@.subrange(0, start as int) + self@.subrange(
                end as int,
                self@.len() as int,
            )),
    {
        if start > end {
            Err((self, ArrayVecError::InvalidRange))
        } else if end > self.len() {
            Err((self, ArrayVecError::IndexOutOfBounds))
        } else {
            Ok(self.drain(start, end))
        }
    }
}

} // verus!
