use vstd::prelude::*;

use crate::error::ArrayVecError;
use vstd::std_specs::cmp::PartialEqSpec;

use crate::laws::lemma_dedup_mask_extend;
use crate::laws::lemma_masked_empty;
use crate::laws::lemma_masked_extend;
use crate::laws::masked;
use crate::laws::truncated;

verus! {

broadcast use vstd::std_specs::vec::group_vec_axioms;

/// An array-backed vector-like container.
///
/// * Fixed capacity, chosen when the container is made.
/// * Variable length: the live elements are the prefix `[0, len)` of the
///   backing storage, in insertion order.
/// * Every slot of the backing storage always holds a well-defined value of
///   the element type; the slots at `[len, capacity)` are spare storage whose
///   contents are semantically irrelevant. A slot vacated by moving its
///   element out receives a default value of the element type.
pub struct ArrayVec<T> {
    /// The backing storage. Its length is the container's capacity and never
    /// changes after construction.
    pub(crate) data: Vec<T>,
    /// How many elements of `data` are live, always at most the capacity.
    pub(crate) len: usize,
}

impl<T> View for ArrayVec<T> {
    type V = Seq<T>;

    /// The observable contents: the live prefix of the backing storage.
    open(crate) spec fn view(&self) -> Seq<T> {
        self.data@.subrange(0, self.len as int)
    }
}

impl<T> ArrayVec<T> {
    /// The internal invariant: the live region fits inside the storage.
    pub open(crate) spec fn well_formed(&self) -> bool {
        self.len <= self.data@.len()
    }

    /// The fixed capacity: the size of the backing storage.
    pub open(crate) spec fn spec_capacity(&self) -> nat {
        self.data@.len()
    }

    /// The spare region: the storage slots past the live prefix.
    pub open(crate) spec fn spec_spare(&self) -> Seq<T> {
        self.data@.subrange(self.len as int, self.data@.len() as int)
    }

    /// The capacity of the container, fixed at construction.
    pub fn capacity(&self) -> (c: usize)
        ensures
            c == self.spec_capacity(),
    {
        self.data.len()
    }

    /// The length of the container (in live elements).
    pub fn len(&self) -> (n: usize)
        requires
            self.well_formed(),
        ensures
            n == self@.len(),
    {
        self.len
    }

    /// Whether the container holds no live elements.
    pub fn is_empty(&self) -> (e: bool)
        requires
            self.well_formed(),
        ensures
            e <==> self@.len() == 0,
    {
        self.len == 0
    }

    /// A read-only view of the live prefix as a contiguous slice.
    pub fn as_slice(&self) -> (s: &[T])
        requires
            self.well_formed(),
        ensures
            s@ == self@,
    {
        vstd::slice::slice_subrange(self.data.as_slice(), 0, self.len)
    }

    /// A read-only view of the spare region after the live prefix.
    pub fn grab_spare_slice(&self) -> (s: &[T])
        requires
            self.well_formed(),
        ensures
            s@ == self.spec_spare(),
    {
        vstd::slice::slice_subrange(self.data.as_slice(), self.len, self.data.len())
    }

    /// Read the live element at `index`.
    pub fn get(&self, index: usize) -> (r: &T)
        requires
            self.well_formed(),
            index < self@.len(),
        ensures
            *r == self@[index as int],
    {
        &self.data[index]
    }



    /// Forces the length to `new_len` without touching the storage contents.
    ///
    /// The new length must be at most the capacity. Callers may not rely on
    /// any particular contents in the newly live region beyond each slot
    /// holding a well-defined value of the element type.
    pub fn set_len(&mut self, new_len: usize)
        requires
            old(self).well_formed(),
            new_len <= old(self).spec_capacity(),
        ensures
            final(self).well_formed(),
            final(self).spec_capacity() == old(self).spec_capacity(),
            final(self)@.len() == new_len,
            final(self)@ + final(self).spec_spare() == old(self)@ + old(self).spec_spare(),
            new_len <= old(self)@.len() ==> final(self)@ == old(self)@.subrange(0, new_len as int),
    {
        self.len = new_len;
        proof {
            assert(self@ + self.spec_spare() =~= old(self)@ + old(self).spec_spare());
            if new_len <= old(self)@.len() {
                assert(self@ =~= old(self)@.subrange(0, new_len as int));
            }
        }
    }


    /// Wraps up a full backing buffer, using the given length as the initial
    /// length; the buffer's size becomes the fixed capacity. The length must
    /// be at most that capacity.
    pub fn from_array_len(data: Vec<T>, len: usize) -> (v: Self)
        requires
            len <= data@.len(),
        ensures
            v.well_formed(),
            v.spec_capacity() == data@.len(),
            v@ == data@.subrange(0, len as int),
            v.spec_spare() == data@.subrange(len as int, data@.len() as int),
    {
        ArrayVec { data, len }
    }

    /// Wraps up a full backing buffer, using the given length as the initial
    /// length, or hands the buffer back unchanged if the length exceeds its
    /// size.
    pub fn try_from_array_len(data: Vec<T>, len: usize) -> (r: Result<Self, Vec<T>>)
        ensures
            len <= data@.len() ==> (r matches Ok(v) && v.well_formed() && v.spec_capacity()
                == data@.len() && v@ == data@.subrange(0, len as int) && v.spec_spare()
                == data@.subrange(len as int, data@.len() as int)),
            len > data@.len() ==> r == Err::<Self, Vec<T>>(data),
    {
        if len <= data.len() {
            Ok(ArrayVec { data, len })
        } else {
            Err(data)
        }
    }


    /// Overwrite the live element at `index` with `value`; the old occupant
    /// is dropped.
    pub fn set(&mut self, index: usize, value: T)
        requires
            old(self).well_formed(),
            index < old(self)@.len(),
        ensures
            final(self).well_formed(),
            final(self).spec_capacity() == old(self).spec_capacity(),
            final(self)@ == old(self)@.update(index as int, value),
            final(self).spec_spare() == old(self).spec_spare(),
    {
        self.data[index] = value;
        proof {
            assert(self@ =~= old(self)@.update(index as int, value));
            assert(self.spec_spare() =~= old(self).spec_spare());
        }
    }
}

impl<T: Default> ArrayVec<T> {
    /// Makes a new, empty container whose fixed capacity is `capacity`.
    /// Every storage slot starts holding a default value of the element type.
    pub fn new(capacity: usize) -> (v: Self)
        ensures
            v.well_formed(),
            v.spec_capacity() == capacity,
            v@ == Seq::<T>::empty(),
    {
        let mut data: Vec<T> = Vec::new();
        let mut i: usize = 0;
        while i < capacity
            invariant
                i <= capacity,
                data@.len() == i,
            decreases capacity - i,
        {
            data.push(T::default());
            i += 1;
        }
        let v = ArrayVec { data, len: 0 };
        proof {
            assert(v@ =~= Seq::<T>::empty());
        }
        v
    }

    /// Place an element onto the end of the live prefix.
    ///
    /// The container must not be full; `try_push` is the fallible form.
    pub fn push(&mut self, val: T)
        requires
            old(self).well_formed(),
            old(self)@.len() < old(self).spec_capacity(),
        ensures
            final(self).well_formed(),
            final(self).spec_capacity() == old(self).spec_capacity(),
            final(self)@ == old(self)@.push(val),
    {
        self.data[self.len] = val;
        proof {
            vstd::std_specs::vec::axiom_spec_len(&self.data);
        }
        self.len += 1;
        proof {
            assert(self@ =~= old(self)@.push(val));
        }
    }

    /// Place an element onto the end of the live prefix, or report
    /// `CapacityExceeded` and hand the element back, leaving the container
    /// unchanged, if the container is full.
    pub fn try_push(&mut self, val: T) -> (r: Result<(), (T, ArrayVecError)>)
        requires
            old(self).well_formed(),
        ensures
            final(self).well_formed(),
            final(self).spec_capacity() == old(self).spec_capacity(),
            old(self)@.len() < old(self).spec_capacity() ==> r is Ok && final(self)@ == old(
                self,
            )@.push(val),
            old(self)@.len() == old(self).spec_capacity() ==> r == Err::<(), (T, ArrayVecError)>(
                (val, ArrayVecError::CapacityExceeded),
            ) && *final(self) == *old(self),
    {
        if self.len < self.data.len() {
            self.push(val);
            Ok(())
        } else {
            Err((val, ArrayVecError::CapacityExceeded))
        }
    }


    /// Inserts an item at the position given, moving all later live elements
    /// one slot toward the end by pairwise value replacement.
    ///
    /// The index must be at most the length, and the container must not be
    /// full.
    pub fn insert(&mut self, index: usize, item: T)
        requires
            old(self).well_formed(),
            index <= old(self)@.len(),
            old(self)@.len() < old(self).spec_capacity(),
        ensures
            final(self).well_formed(),
            final(self).spec_capacity() == old(self).spec_capacity(),
            final(self)@ == old(self)@.insert(index as int, item),
    {
        let ghost shifted: Seq<T> = seq![item] + old(self)@.skip(index as int);
        let mut temp = item;
        let mut j: usize = index;
        while j < self.len
            invariant
                old(self).well_formed(),
                old(self)@.len() < old(self).spec_capacity(),
                index <= j <= self.len,
                self.len == old(self).len,
                self.data@.len() == old(self).data@.len(),
                shifted == seq![item] + old(self)@.skip(index as int),
                self.data@ == old(self).data@.take(index as int) + shifted.take(j - index)
                    + old(self).data@.skip(j as int),
                temp == shifted[j - index],
            decreases self.len - j,
        {
            proof {
                assert(self.data@[j as int] == old(self).data@[j as int]);
                assert(old(self).data@[j as int] == shifted[j + 1 - index]);
            }
            core::mem::swap(&mut temp, &mut self.data[j]);
            proof {
                assert(self.data@ =~= old(self).data@.take(index as int) + shifted.take(
                    j + 1 - index,
                ) + old(self).data@.skip(j + 1));
            }
            j += 1;
        }
        self.push(temp);
        proof {
            assert(self@ =~= old(self)@.insert(index as int, item));
        }
    }

    /// Removes the item at `index`, moving all later live elements one slot
    /// toward the start by pairwise value replacement, and returns it. The
    /// vacated slot at the end of the live prefix receives a default value.
    pub fn remove(&mut self, index: usize) -> (r: T)
        requires
            old(self).well_formed(),
            index < old(self)@.len(),
        ensures
            final(self).well_formed(),
            final(self).spec_capacity() == old(self).spec_capacity(),
            r == old(self)@[index as int],
            final(self)@ == old(self)@.remove(index as int),
    {
        let mut spare = T::default();
        let ghost ext: Seq<T> = old(self).data@.subrange(index as int, old(self).len as int)
            + seq![spare];
        let mut j: usize = self.len;
        while j > index
            invariant
                old(self).well_formed(),
                index < old(self)@.len(),
                index <= j <= old(self).len,
                self.len == old(self).len,
                self.data@.len() == old(self).data@.len(),
                ext.len() == old(self).len - index + 1,
                forall|k: int|
                    index <= k < old(self).len ==> ext[k - index] == old(self).data@[k],
                self.data@ == old(self).data@.take(j as int) + ext.subrange(
                    j - index + 1,
                    old(self).len - index + 1,
                ) + old(self).data@.skip(old(self).len as int),
                spare == ext[j - index],
            decreases j,
        {
            j -= 1;
            core::mem::swap(&mut spare, &mut self.data[j]);
            proof {
                assert(self.data@ =~= old(self).data@.take(j as int) + ext.subrange(
                    j - index + 1,
                    old(self).len - index + 1,
                ) + old(self).data@.skip(old(self).len as int));
            }
        }
        self.len -= 1;
        proof {
            assert(self@ =~= old(self)@.remove(index as int));
        }
        spare
    }

    /// Remove the element at `index` and return it, moving the last live
    /// element into its place instead of shifting. Does not preserve order.
    pub fn swap_remove(&mut self, index: usize) -> (r: T)
        requires
            old(self).well_formed(),
            index < old(self)@.len(),
        ensures
            final(self).well_formed(),
            final(self).spec_capacity() == old(self).spec_capacity(),
            r == old(self)@[index as int],
            final(self)@ == old(self)@.update(index as int, old(self)@.last()).drop_last(),
    {
        let last = self.pop().unwrap();
        if index == self.len {
            proof {
                assert(self@ =~= old(self)@.update(index as int, old(self)@.last()).drop_last());
            }
            last
        } else {
            let ghost mid = *self;
            let mut out = last;
            core::mem::swap(&mut out, &mut self.data[index]);
            proof {
                assert(self.data@ == mid.data@.update(index as int, old(self)@.last()));
                assert(out == mid.data@[index as int]);
                assert(mid.well_formed());
                assert(mid@.len() == old(self)@.len() - 1);
                assert(mid@.len() == mid.len);
                assert(index < mid.len);
                assert(mid@[index as int] == mid.data@[index as int]);
                assert(self@ =~= mid@.update(index as int, old(self)@.last()));
                assert(mid@ == old(self)@.drop_last());
                assert(self@ =~= old(self)@.update(index as int, old(self)@.last()).drop_last());
            }
            out
        }
    }

    /// Reduces the length to `new_len` by popping, letting each dropped
    /// element release its resources; if the container is already at most
    /// that long, nothing happens.
    pub fn truncate(&mut self, new_len: usize)
        requires
            old(self).well_formed(),
        ensures
            final(self).well_formed(),
            final(self).spec_capacity() == old(self).spec_capacity(),
            final(self)@ == truncated(old(self)@, new_len as int),
            new_len >= old(self)@.len() ==> *final(self) == *old(self),
            new_len < old(self)@.len() ==> final(self)@ == old(self)@.subrange(0, new_len as int),
    {
        while self.len > new_len
            invariant
                old(self).well_formed(),
                self.well_formed(),
                self.spec_capacity() == old(self).spec_capacity(),
                new_len >= old(self)@.len() ==> *self == *old(self),
                self@.len() <= old(self)@.len(),
                self@.len() >= new_len || self@.len() == old(self)@.len(),
                new_len <= self@.len() ==> self@ == old(self)@.subrange(0, self.len as int),
            decreases self.len,
        {
            let _ = self.pop();
        }
    }

    /// Removes all live elements.
    pub fn clear(&mut self)
        requires
            old(self).well_formed(),
        ensures
            final(self).well_formed(),
            final(self).spec_capacity() == old(self).spec_capacity(),
            final(self)@ == Seq::<T>::empty(),
    {
        self.truncate(0);
        proof {
            assert(final(self)@ =~= Seq::<T>::empty());
        }
    }


    /// Splits the container at the point given: `[0, at)` stays, `[at, len)`
    /// moves into a new container of the same capacity, in order. Vacated
    /// slots receive default values.
    pub fn split_off(&mut self, at: usize) -> (r: Self)
        requires
            old(self).well_formed(),
            at <= old(self)@.len(),
        ensures
            final(self).well_formed(),
            final(self).spec_capacity() == old(self).spec_capacity(),
            final(self)@ == old(self)@.subrange(0, at as int),
            r.well_formed(),
            r.spec_capacity() == old(self).spec_capacity(),
            r@ == old(self)@.subrange(at as int, old(self)@.len() as int),
    {
        let capacity = self.data.len();
        let mut new: ArrayVec<T> = ArrayVec::new(capacity);
        let count = self.len - at;
        let mut k: usize = 0;
        while k < count
            invariant
                old(self).well_formed(),
                at + count == old(self).len,
                k <= count,
                self.len == old(self).len,
                self.data@.len() == old(self).data@.len(),
                new.data@.len() == old(self).data@.len(),
                forall|i: int|
                    0 <= i < self.data@.len() && !(at <= i < at + k) ==> self.data@[i] == old(
                        self,
                    ).data@[i],
                forall|i: int| 0 <= i < k ==> new.data@[i] == old(self).data@[at + i],
            decreases count - k,
        {
            let mut tmp = T::default();
            core::mem::swap(&mut tmp, &mut self.data[at + k]);
            new.data[k] = tmp;
            k += 1;
        }
        new.len = count;
        self.len = at;
        proof {
            assert(self@ =~= old(self)@.subrange(0, at as int));
            assert(new@ =~= old(self)@.subrange(at as int, old(self)@.len() as int));
        }
        new
    }

    /// Move all live elements from `other` into this container, in order,
    /// leaving `other` empty. The combined length must fit this container's
    /// capacity; `try_append` is the fallible form.
    pub fn append(&mut self, other: &mut Self)
        requires
            old(self).well_formed(),
            old(other).well_formed(),
            old(self)@.len() + old(other)@.len() <= old(self).spec_capacity(),
        ensures
            final(self).well_formed(),
            final(self).spec_capacity() == old(self).spec_capacity(),
            final(self)@ == old(self)@ + old(other)@,
            final(other).well_formed(),
            final(other).spec_capacity() == old(other).spec_capacity(),
            final(other)@ == Seq::<T>::empty(),
    {
        let ghost total: int = old(other)@.len() as int;
        while other.len > 0
            invariant
                old(self).well_formed(),
                old(other).well_formed(),
                old(self)@.len() + total <= old(self).spec_capacity(),
                self.well_formed(),
                other.well_formed(),
                self.spec_capacity() == old(self).spec_capacity(),
                other.spec_capacity() == old(other).spec_capacity(),
                total == old(other)@.len(),
                other@.len() <= total,
                self@ == old(self)@ + old(other)@.subrange(0, total - other@.len()),
                other@ == old(other)@.subrange(total - other@.len(), total),
            decreases other@.len(),
        {
            let item = other.remove(0);
            proof {
                assert(item == old(other)@[total - (other@.len() + 1)]);
            }
            self.push(item);
            proof {
                assert(self@ =~= old(self)@ + old(other)@.subrange(0, total - other@.len()));
                assert(other@ =~= old(other)@.subrange(total - other@.len(), total));
            }
        }
        proof {
            assert(self@ =~= old(self)@ + old(other)@);
            assert(other@ =~= Seq::<T>::empty());
        }
    }

    /// Move all live elements from `other` into this container, in order,
    /// leaving `other` empty; or report `CapacityExceeded` and leave both
    /// containers unchanged if the combined length exceeds this container's
    /// capacity.
    pub fn try_append(&mut self, other: &mut Self) -> (r: Result<(), ArrayVecError>)
        requires
            old(self).well_formed(),
            old(other).well_formed(),
        ensures
            final(self).well_formed(),
            final(self).spec_capacity() == old(self).spec_capacity(),
            final(other).well_formed(),
            final(other).spec_capacity() == old(other).spec_capacity(),
            old(self)@.len() + old(other)@.len() <= old(self).spec_capacity() ==> r is Ok
                && final(self)@ == old(self)@ + old(other)@ && final(other)@ == Seq::<T>::empty(),
            old(self)@.len() + old(other)@.len() > old(self).spec_capacity() ==> r == Err::<(),
                ArrayVecError,
            >(ArrayVecError::CapacityExceeded) && *final(self) == *old(self) && *final(other)
                == *old(other),
    {
        if other.len <= self.data.len() - self.len {
            self.append(other);
            Ok(())
        } else {
            Err(ArrayVecError::CapacityExceeded)
        }
    }

    /// Push a cloned copy of each element of the slice, in order. The
    /// combined length must fit the capacity.
    pub fn extend_from_slice(&mut self, sli: &[T]) where T: Clone
        requires
            old(self).well_formed(),
            old(self)@.len() + sli@.len() <= old(self).spec_capacity(),
        ensures
            final(self).well_formed(),
            final(self).spec_capacity() == old(self).spec_capacity(),
            final(self)@.len() == old(self)@.len() + sli@.len(),
            final(self)@.subrange(0, old(self)@.len() as int) == old(self)@,
            forall|i: int|
                0 <= i < sli@.len() ==> cloned::<T>(sli@[i], final(self)@[old(self)@.len() + i]),
    {
        let n = sli.len();
        let mut i: usize = 0;
        while i < n
            invariant
                old(self).well_formed(),
                old(self)@.len() + n <= old(self).spec_capacity(),
                n == sli@.len(),
                i <= n,
                self.well_formed(),
                self.spec_capacity() == old(self).spec_capacity(),
                self@.len() == old(self)@.len() + i,
                self@.subrange(0, old(self)@.len() as int) == old(self)@,
                forall|k: int| 0 <= k < i ==> cloned::<T>(sli@[k], self@[old(self)@.len() + k]),
            decreases n - i,
        {
            let c = sli[i].clone();
            self.push(c);
            proof {
                assert(self@.subrange(0, old(self)@.len() as int) =~= old(self)@);
            }
            i += 1;
        }
    }

    /// Resize the container to the new length, which must fit the capacity.
    /// If it grows, the new slots are filled with clones of `new_val`; if it
    /// shrinks, it is truncated.
    pub fn resize(&mut self, new_len: usize, new_val: T) where T: Clone
        requires
            old(self).well_formed(),
            new_len <= old(self).spec_capacity(),
        ensures
            final(self).well_formed(),
            final(self).spec_capacity() == old(self).spec_capacity(),
            new_len < old(self)@.len() ==> final(self)@ == old(self)@.subrange(0, new_len as int),
            new_len == old(self)@.len() ==> *final(self) == *old(self),
            new_len > old(self)@.len() ==> final(self)@.len() == new_len && final(self)@.subrange(
                0,
                old(self)@.len() as int,
            ) == old(self)@ && (forall|i: int|
                old(self)@.len() <= i < new_len ==> cloned::<T>(new_val, final(self)@[i])),
    {
        if new_len < self.len {
            self.truncate(new_len);
        } else {
            while self.len < new_len
                invariant
                    old(self).well_formed(),
                    new_len <= old(self).spec_capacity(),
                    self.well_formed(),
                    self.spec_capacity() == old(self).spec_capacity(),
                    old(self)@.len() <= self@.len() <= new_len || *self == *old(self),
                    self@.len() < new_len ==> self@.len() >= old(self)@.len(),
                    self@.subrange(0, old(self)@.len() as int) == old(self)@ || *self == *old(
                        self,
                    ),
                    self@.len() == old(self)@.len() ==> *self == *old(self),
                    forall|i: int|
                        old(self)@.len() <= i < self@.len() ==> cloned::<T>(
                            new_val,
                            self@[i],
                        ),
                decreases new_len - self.len,
            {
                let c = new_val.clone();
                self.push(c);
                proof {
                    assert(self@.subrange(0, old(self)@.len() as int) =~= old(self)@);
                }
            }
        }
    }

    /// Resize the container to the new length, which must fit the capacity.
    /// If it grows, each new slot is filled with a freshly produced value of
    /// the generator; if it shrinks, it is truncated.
    pub fn resize_with<F: Fn() -> T>(&mut self, new_len: usize, f: F)
        requires
            old(self).well_formed(),
            new_len <= old(self).spec_capacity(),
            call_requires(f, ()),
        ensures
            final(self).well_formed(),
            final(self).spec_capacity() == old(self).spec_capacity(),
            new_len < old(self)@.len() ==> final(self)@ == old(self)@.subrange(0, new_len as int),
            new_len == old(self)@.len() ==> *final(self) == *old(self),
            new_len > old(self)@.len() ==> final(self)@.len() == new_len && final(self)@.subrange(
                0,
                old(self)@.len() as int,
            ) == old(self)@ && (forall|i: int|
                old(self)@.len() <= i < new_len ==> call_ensures(f, (), final(self)@[i])),
    {
        if new_len < self.len {
            self.truncate(new_len);
        } else {
            while self.len < new_len
                invariant
                    old(self).well_formed(),
                    new_len <= old(self).spec_capacity(),
                    call_requires(f, ()),
                    self.well_formed(),
                    self.spec_capacity() == old(self).spec_capacity(),
                    old(self)@.len() <= self@.len() <= new_len || *self == *old(self),
                    self@.len() < new_len ==> self@.len() >= old(self)@.len(),
                    self@.subrange(0, old(self)@.len() as int) == old(self)@ || *self == *old(
                        self,
                    ),
                    self@.len() == old(self)@.len() ==> *self == *old(self),
                    forall|i: int|
                        old(self)@.len() <= i < self@.len() ==> call_ensures(f, (), self@[i]),
                decreases new_len - self.len,
            {
                let c = f();
                self.push(c);
                proof {
                    assert(self@.subrange(0, old(self)@.len() as int) =~= old(self)@);
                }
            }
        }
    }


    /// Walk the live elements in order and keep only those the predicate
    /// accepts, preserving the relative order of the kept elements; every
    /// rejected element is removed through the removal primitive.
    ///
    /// The mask in the postcondition records, for each element of the
    /// original contents in order, the predicate's verdict on it.
    pub fn retain<F: Fn(&T) -> bool>(&mut self, acceptable: F)
        requires
            old(self).well_formed(),
            forall|i: int|
                0 <= i < old(self)@.len() ==> call_requires(acceptable, (&old(self)@[i],)),
        ensures
            final(self).well_formed(),
            final(self).spec_capacity() == old(self).spec_capacity(),
            exists|keep: Seq<bool>|
                {
                    &&& keep.len() == old(self)@.len()
                    &&& final(self)@ == masked(old(self)@, keep)
                    &&& forall|p: int|
                        0 <= p < keep.len() ==> call_ensures(
                            acceptable,
                            (&old(self)@[p],),
                            keep[p],
                        )
                },
    {
        let ghost orig: Seq<T> = old(self)@;
        let ghost mut keep: Seq<bool> = Seq::<bool>::empty();
        proof {
            assert(orig.take(0) =~= Seq::<T>::empty());
            lemma_masked_empty::<T>(keep);
            assert(self@ =~= masked(orig.take(0), keep) + orig.skip(0));
        }
        let mut i: usize = 0;
        while i < self.len
            invariant
                old(self).well_formed(),
                forall|k: int| 0 <= k < orig.len() ==> call_requires(acceptable, (&orig[k],)),
                orig == old(self)@,
                self.well_formed(),
                self.spec_capacity() == old(self).spec_capacity(),
                keep.len() <= orig.len(),
                forall|p: int| 0 <= p < keep.len() ==> call_ensures(acceptable, (&orig[p],), keep[p]),
                self@ == masked(orig.take(keep.len() as int), keep) + orig.skip(keep.len() as int),
                i == masked(orig.take(keep.len() as int), keep).len(),
            decreases orig.len() - keep.len(),
        {
            let ghost p = keep.len() as int;
            proof {
                assert(self@[i as int] == orig[p]);
            }
            let verdict = acceptable(self.get(i));
            proof {
                let prefix = masked(orig.take(p), keep);
                assert(orig.take(p + 1) =~= orig.take(p).push(orig[p]));
                lemma_masked_extend(orig.take(p), keep, orig[p], verdict);
                assert(masked(orig.take(p + 1), keep.push(verdict)) == if verdict {
                    prefix.push(orig[p])
                } else {
                    prefix
                });
            }
            if !verdict {
                let _ = self.remove(i);
                proof {
                    keep = keep.push(false);
                    assert(self@ =~= masked(orig.take(p + 1), keep) + orig.skip(p + 1));
                }
            } else {
                i += 1;
                proof {
                    keep = keep.push(true);
                    assert(self@ =~= masked(orig.take(p + 1), keep) + orig.skip(p + 1));
                }
            }
        }
        proof {
            assert(keep.len() == orig.len());
            assert(orig.take(keep.len() as int) =~= orig);
            assert(self@ =~= masked(orig, keep));
        }
    }


    /// De-duplicate the live elements according to the predicate given: walk
    /// them in order and remove every element for which the predicate relates
    /// it to the element kept just before it, so of each run of elements the
    /// predicate lumps together only the first stays. The first element is
    /// always kept.
    ///
    /// The mask in the postcondition records, for each element of the
    /// original contents in order, whether it was kept; an element was
    /// removed exactly when the predicate related it to the last kept one.
    #[verifier::rlimit(100)]
    #[verifier::spinoff_prover]
    pub fn dedup_by<F: Fn(&T, &T) -> bool>(&mut self, same_bucket: F)
        requires
            old(self).well_formed(),
            forall|i: int, j: int|
                0 <= i < old(self)@.len() && 0 <= j < old(self)@.len() ==> call_requires(
                    same_bucket,
                    (&old(self)@[i], &old(self)@[j]),
                ),
        ensures
            final(self).well_formed(),
            final(self).spec_capacity() == old(self).spec_capacity(),
            exists|keep: Seq<bool>|
                #![trigger masked(old(self)@, keep)]
                {
                    &&& keep.len() == old(self)@.len()
                    &&& final(self)@ == masked(old(self)@, keep)
                    &&& (keep.len() > 0 ==> keep[0])
                    &&& forall|p: int|
                        #![trigger masked(old(self)@.take(p), keep)]
                        1 <= p < keep.len() ==> masked(old(self)@.take(p), keep).len() > 0
                            && call_ensures(
                            same_bucket,
                            (&old(self)@[p], &masked(old(self)@.take(p), keep).last()),
                            !keep[p],
                        )
                },
    {
        let ghost orig: Seq<T> = old(self)@;
        if self.len == 0 {
            proof {
                let keep = Seq::<bool>::empty();
                lemma_masked_empty::<T>(keep);
                assert(orig =~= Seq::<T>::empty());
                assert(self@ =~= masked(orig, keep));
            }
            return ;
        }
        let ghost mut keep: Seq<bool> = seq![true];
        let ghost mut last_kept: int = 0;
        proof {
            assert(orig.take(0) =~= Seq::<T>::empty());
            lemma_masked_empty::<T>(Seq::<bool>::empty());
            assert(orig.take(1) =~= orig.take(0).push(orig[0]));
            lemma_masked_extend(orig.take(0), Seq::<bool>::empty(), orig[0], true);
            assert(Seq::<bool>::empty().push(true) =~= keep);
            assert(masked(orig.take(1), keep) =~= seq![orig[0]]);
            assert(self@ =~= masked(orig.take(1), keep) + orig.skip(1));
        }
        let mut i: usize = 1;
        while i < self.len
            invariant
                old(self).well_formed(),
                forall|a: int, b: int|
                    0 <= a < orig.len() && 0 <= b < orig.len() ==> call_requires(
                        same_bucket,
                        (&orig[a], &orig[b]),
                    ),
                orig == old(self)@,
                orig.len() > 0,
                self.well_formed(),
                self.spec_capacity() == old(self).spec_capacity(),
                1 <= keep.len() <= orig.len(),
                keep[0],
                0 <= last_kept < orig.len(),
                masked(orig.take(keep.len() as int), keep).len() > 0,
                masked(orig.take(keep.len() as int), keep).last() == orig[last_kept],
                forall|p: int|
                    #![trigger masked(orig.take(p), keep)]
                    1 <= p < keep.len() ==> masked(orig.take(p), keep).len() > 0 && call_ensures(
                        same_bucket,
                        (&orig[p], &masked(orig.take(p), keep).last()),
                        !keep[p],
                    ),
                self@ == masked(orig.take(keep.len() as int), keep) + orig.skip(keep.len() as int),
                i == masked(orig.take(keep.len() as int), keep).len(),
                1 <= i,
            decreases orig.len() - keep.len(),
        {
            let ghost p = keep.len() as int;
            let ghost prefix = masked(orig.take(p), keep);
            proof {
                assert(self@[i as int] == orig[p]);
                assert(self@[i - 1] == prefix.last());
                assert(call_requires(same_bucket, (&orig[p], &orig[last_kept])));
            }
            let verdict = same_bucket(self.get(i), self.get(i - 1));
            proof {
                lemma_dedup_mask_extend(same_bucket, orig, keep, !verdict);
            }
            if verdict {
                let _ = self.remove(i);
                proof {
                    keep = keep.push(false);
                    assert(self@ =~= masked(orig.take(p + 1), keep) + orig.skip(p + 1));
                }
            } else {
                i += 1;
                proof {
                    keep = keep.push(true);
                    last_kept = p;
                    assert(self@ =~= masked(orig.take(p + 1), keep) + orig.skip(p + 1));
                }
            }
        }
        proof {
            assert(keep.len() == orig.len());
            assert(orig.take(keep.len() as int) =~= orig);
            assert(self@ =~= masked(orig, keep));
        }
    }


    /// De-duplicate the live elements: of each run of consecutive equal
    /// elements, only the first stays. The first element is always kept; the
    /// mask in the postcondition records which elements were, and an element
    /// was removed exactly when it equalled the one kept just before it.
    pub fn dedup(&mut self) where T: PartialEq
        requires
            old(self).well_formed(),
            T::obeys_eq_spec(),
        ensures
            final(self).well_formed(),
            final(self).spec_capacity() == old(self).spec_capacity(),
            exists|keep: Seq<bool>|
                #![trigger masked(old(self)@, keep)]
                {
                    &&& keep.len() == old(self)@.len()
                    &&& final(self)@ == masked(old(self)@, keep)
                    &&& (keep.len() > 0 ==> keep[0])
                    &&& forall|p: int|
                        #![trigger masked(old(self)@.take(p), keep)]
                        1 <= p < keep.len() ==> masked(old(self)@.take(p), keep).len() > 0 && (
                        keep[p] <==> !old(self)@[p].eq_spec(
                            &masked(old(self)@.take(p), keep).last(),
                        ))
                },
    {
        let eq_buckets = |a: &T, b: &T| -> (r: bool)
            requires
                T::obeys_eq_spec(),
            ensures
                r == a.eq_spec(b),
            { a.eq(b) };
        self.dedup_by(eq_buckets);
        proof {
            let keep = choose|keep: Seq<bool>|
                #![trigger masked(old(self)@, keep)]
                {
                    &&& keep.len() == old(self)@.len()
                    &&& self@ == masked(old(self)@, keep)
                    &&& (keep.len() > 0 ==> keep[0])
                    &&& forall|p: int|
                        #![trigger masked(old(self)@.take(p), keep)]
                        1 <= p < keep.len() ==> masked(old(self)@.take(p), keep).len() > 0
                            && call_ensures(
                            eq_buckets,
                            (&old(self)@[p], &masked(old(self)@.take(p), keep).last()),
                            !keep[p],
                        )
                };
            assert forall|p: int|
                #![trigger masked(old(self)@.take(p), keep)]
                1 <= p < keep.len() implies masked(old(self)@.take(p), keep).len() > 0 && (
            keep[p] <==> !old(self)@[p].eq_spec(
                &masked(old(self)@.take(p), keep).last(),
            )) by {
                assert(call_ensures(
                    eq_buckets,
                    (&old(self)@[p], &masked(old(self)@.take(p), keep).last()),
                    !keep[p],
                ));
            }
        }
    }

    /// De-duplicate the live elements according to the key selector given:
    /// walk them in order and remove every element whose key equals the key
    /// of the element kept just before it. The first element is always kept;
    /// the mask in the postcondition records which elements were.
    pub fn dedup_by_key<F: Fn(&T) -> K, K: PartialEq>(&mut self, key: F)
        requires
            old(self).well_formed(),
            K::obeys_eq_spec(),
            forall|i: int| 0 <= i < old(self)@.len() ==> call_requires(key, (&old(self)@[i],)),
        ensures
            final(self).well_formed(),
            final(self).spec_capacity() == old(self).spec_capacity(),
            exists|keep: Seq<bool>|
                #![trigger masked(old(self)@, keep)]
                {
                    &&& keep.len() == old(self)@.len()
                    &&& final(self)@ == masked(old(self)@, keep)
                    &&& (keep.len() > 0 ==> keep[0])
                    &&& forall|p: int|
                        #![trigger masked(old(self)@.take(p), keep)]
                        1 <= p < keep.len() ==> masked(old(self)@.take(p), keep).len() > 0 && (
                        exists|ka: K, kb: K|
                            {
                                &&& call_ensures(key, (&old(self)@[p],), ka)
                                &&& call_ensures(
                                    key,
                                    (&masked(old(self)@.take(p), keep).last(),),
                                    kb,
                                )
                                &&& (keep[p] <==> !ka.eq_spec(&kb))
                            })
                },
    {
        let gkey = Ghost(&key);
        let key_ref = &key;
        let same_key = |a: &T, b: &T| -> (r: bool)
            requires
                K::obeys_eq_spec(),
                call_requires(*gkey@, (a,)),
                call_requires(*gkey@, (b,)),
            ensures
                exists|ka: K, kb: K|
                    {
                        &&& call_ensures(*gkey@, (a,), ka)
                        &&& call_ensures(*gkey@, (b,), kb)
                        &&& (r <==> ka.eq_spec(&kb))
                    },
            {
                let ka = key_ref(a);
                let kb = key_ref(b);
                ka.eq(&kb)
            };
        self.dedup_by(same_key);
        proof {
            let keep = choose|keep: Seq<bool>|
                #![trigger masked(old(self)@, keep)]
                {
                    &&& keep.len() == old(self)@.len()
                    &&& self@ == masked(old(self)@, keep)
                    &&& (keep.len() > 0 ==> keep[0])
                    &&& forall|p: int|
                        #![trigger masked(old(self)@.take(p), keep)]
                        1 <= p < keep.len() ==> masked(old(self)@.take(p), keep).len() > 0
                            && call_ensures(
                            same_key,
                            (&old(self)@[p], &masked(old(self)@.take(p), keep).last()),
                            !keep[p],
                        )
                };
            assert forall|p: int|
                #![trigger masked(old(self)@.take(p), keep)]
                1 <= p < keep.len() implies masked(old(self)@.take(p), keep).len() > 0 && (
            exists|ka: K, kb: K|
                {
                    &&& call_ensures(key, (&old(self)@[p],), ka)
                    &&& call_ensures(key, (&masked(old(self)@.take(p), keep).last(),), kb)
                    &&& (keep[p] <==> !ka.eq_spec(&kb))
                }) by {
                assert(call_ensures(
                    same_key,
                    (&old(self)@[p], &masked(old(self)@.take(p), keep).last()),
                    !keep[p],
                ));
            }
        }
    }

    /// Remove and return the last live element, if there is one; the vacated
    /// slot receives a default value.
    pub fn pop(&mut self) -> (r: Option<T>)
        requires
            old(self).well_formed(),
        ensures
            final(self).well_formed(),
            final(self).spec_capacity() == old(self).spec_capacity(),
            old(self)@.len() > 0 ==> r == Some(old(self)@.last()) && final(self)@ == old(
                self,
            )@.drop_last(),
            old(self)@.len() == 0 ==> r is None && *final(self) == *old(self),
    {
        if self.len > 0 {
            self.len -= 1;
            let mut out = T::default();
            core::mem::swap(&mut out, &mut self.data[self.len]);
            proof {
                assert(self@ =~= old(self)@.drop_last());
            }
            Some(out)
        } else {
            None
        }
    }
}

} // verus!
