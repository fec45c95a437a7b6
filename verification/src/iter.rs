use vstd::prelude::*;

use crate::arrayvec::ArrayVec;

verus! {

/// An owning iterator: consumes a container and yields its live elements in
/// order, moved out of the storage. Each yielded slot is replaced with a
/// default value, so no step ever reads a logically consumed slot.
pub struct ArrayVecIterator<T> {
    /// The position of the next element to yield.
    pub(crate) base: usize,
    /// A snapshot of the container's length; elements at `[base, len)` are
    /// still to be yielded.
    pub(crate) len: usize,
    /// The storage moved out of the container.
    pub(crate) data: Vec<T>,
}

impl<T> ArrayVecIterator<T> {
    /// The internal invariant: the unyielded region lies inside the storage.
    pub open(crate) spec fn well_formed(&self) -> bool {
        self.base <= self.len <= self.data@.len()
    }

    /// The elements still to be yielded, in order.
    pub open(crate) spec fn remaining(&self) -> Seq<T> {
        self.data@.subrange(self.base as int, self.len as int)
    }

    /// How many elements remain, and the same as an upper bound: the exact
    /// size of the rest of the iteration.
    pub fn size_hint(&self) -> (r: (usize, Option<usize>))
        requires
            self.well_formed(),
        ensures
            r.0 == self.remaining().len(),
            r.1 == Some(r.0),
    {
        let s = self.len - self.base;
        (s, Some(s))
    }

    /// How many elements remain, consuming the iterator.
    pub fn count(self) -> (r: usize)
        requires
            self.well_formed(),
        ensures
            r == self.remaining().len(),
    {
        self.len - self.base
    }
}

impl<T: Default> ArrayVecIterator<T> {
    /// Move the next element out of the storage and yield it, or yield
    /// nothing once the live region is exhausted.
    pub fn next(&mut self) -> (r: Option<T>)
        requires
            old(self).well_formed(),
        ensures
            final(self).well_formed(),
            old(self).remaining().len() > 0 ==> r == Some(old(self).remaining().first()) && final(self).remaining() == old(self).remaining().drop_first(),
            old(self).remaining().len() == 0 ==> r is None && *final(self) == *old(self),
    {
        if self.base < self.len {
            let mut out = T::default();
            core::mem::swap(&mut out, &mut self.data[self.base]);
            self.base += 1;
            proof {
                assert(self.remaining() =~= old(self).remaining().drop_first());
            }
            Some(out)
        } else {
            None
        }
    }

    /// Move the last remaining element out and yield it, consuming the
    /// iterator; yields nothing if the iteration is already exhausted.
    pub fn last(self) -> (r: Option<T>)
        requires
            self.well_formed(),
        ensures
            self.remaining().len() > 0 ==> r == Some(self.remaining().last()),
            self.remaining().len() == 0 ==> r is None,
    {
        let mut it = self;
        if it.base < it.len {
            let mut out = T::default();
            core::mem::swap(&mut out, &mut it.data[it.len - 1]);
            Some(out)
        } else {
            None
        }
    }

    /// Skip `n` elements and yield the one after them, moved out of the
    /// storage; if fewer than `n + 1` remain, the iteration is exhausted and
    /// nothing is yielded. Never reads past the live region.
    pub fn nth(&mut self, n: usize) -> (r: Option<T>)
        requires
            old(self).well_formed(),
        ensures
            final(self).well_formed(),
            n < old(self).remaining().len() ==> r == Some(old(self).remaining()[n as int])
                && final(self).remaining() == old(self).remaining().skip(n + 1),
            n >= old(self).remaining().len() ==> r is None && final(self).remaining()
                == Seq::<T>::empty(),
    {
        if n < self.len - self.base {
            let i = self.base + n;
            let mut out = T::default();
            core::mem::swap(&mut out, &mut self.data[i]);
            self.base = i + 1;
            proof {
                assert(self.remaining() =~= old(self).remaining().skip(n + 1));
            }
            Some(out)
        } else {
            self.base = self.len;
            proof {
                assert(self.remaining() =~= Seq::<T>::empty());
            }
            None
        }
    }
}

impl<T> ArrayVec<T> {
    /// Consume the container and return an owning iterator over its live
    /// elements, in order.
    pub fn into_iter(self) -> (it: ArrayVecIterator<T>)
        requires
            self.well_formed(),
        ensures
            it.well_formed(),
            it.remaining() == self@,
    {
        ArrayVecIterator { base: 0, len: self.len, data: self.data }
    }
}

} // verus!
