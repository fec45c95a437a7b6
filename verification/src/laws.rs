use vstd::prelude::*;

verus! {

/// The subsequence of `s` at the positions `p` where `keep[p]` is true, in
/// order. Positions past the end of `keep` are dropped.
#[verifier::opaque]
pub open spec fn masked<T>(s: Seq<T>, keep: Seq<bool>) -> Seq<T>
    decreases s.len(),
{
    if s.len() == 0 {
        Seq::<T>::empty()
    } else {
        let rest = masked(s.drop_last(), keep);
        if s.len() - 1 < keep.len() && keep[s.len() - 1] {
            rest.push(s.last())
        } else {
            rest
        }
    }
}

/// Nothing is selected from an empty sequence.
pub proof fn lemma_masked_empty<T>(keep: Seq<bool>)
    ensures
        masked(Seq::<T>::empty(), keep) == Seq::<T>::empty(),
{
    reveal(masked);
}

/// `masked` reads only the first `s.len()` decisions: appending more
/// decisions to the mask changes nothing.
pub proof fn lemma_masked_ignores_later_decisions<T>(s: Seq<T>, keep: Seq<bool>, more: Seq<bool>)
    requires
        s.len() <= keep.len(),
    ensures
        masked(s, keep + more) == masked(s, keep),
    decreases s.len(),
{
    reveal(masked);
    if s.len() > 0 {
        lemma_masked_ignores_later_decisions(s.drop_last(), keep, more);
        assert((keep + more)[s.len() - 1] == keep[s.len() - 1]);
    }
}

/// Selecting from a sequence extended by one element under a mask extended
/// by one decision keeps the earlier selection and appends the new element
/// exactly when the new decision keeps it.
pub proof fn lemma_masked_extend<T>(s: Seq<T>, keep: Seq<bool>, x: T, d: bool)
    requires
        keep.len() == s.len(),
    ensures
        masked(s.push(x), keep.push(d)) == if d {
            masked(s, keep).push(x)
        } else {
            masked(s, keep)
        },
{
    reveal(masked);
    assert(s.push(x).drop_last() =~= s);
    lemma_masked_ignores_later_decisions(s, keep, seq![d]);
    assert(keep + seq![d] =~= keep.push(d));
    assert((keep.push(d))[s.len() as int] == d);
}

/// Extending a de-duplication mask by one decision keeps every earlier
/// comparison record intact and appends the new one.
pub(crate) proof fn lemma_dedup_mask_extend<T, F: Fn(&T, &T) -> bool>(
    f: F,
    orig: Seq<T>,
    keep: Seq<bool>,
    kept: bool,
)
    requires
        1 <= keep.len() < orig.len(),
        masked(orig.take(keep.len() as int), keep).len() > 0,
        forall|q: int|
            #![trigger masked(orig.take(q), keep)]
            1 <= q < keep.len() ==> masked(orig.take(q), keep).len() > 0 && call_ensures(
                f,
                (&orig[q], &masked(orig.take(q), keep).last()),
                !keep[q],
            ),
        call_ensures(
            f,
            (&orig[keep.len() as int], &masked(orig.take(keep.len() as int), keep).last()),
            !kept,
        ),
    ensures
        masked(orig.take(keep.len() as int + 1), keep.push(kept)) == if kept {
            masked(orig.take(keep.len() as int), keep).push(orig[keep.len() as int])
        } else {
            masked(orig.take(keep.len() as int), keep)
        },
        forall|q: int|
            #![trigger masked(orig.take(q), keep.push(kept))]
            1 <= q < keep.len() as int + 1 ==> masked(orig.take(q), keep.push(kept)).len() > 0
                && call_ensures(
                f,
                (&orig[q], &masked(orig.take(q), keep.push(kept)).last()),
                !(keep.push(kept))[q],
            ),
{
    let p = keep.len() as int;
    let next = keep.push(kept);
    assert(orig.take(p + 1) =~= orig.take(p).push(orig[p]));
    lemma_masked_ignores_later_decisions(orig.take(p), keep, seq![kept]);
    assert(keep + seq![kept] =~= next);
    lemma_masked_extend(orig.take(p), keep, orig[p], kept);
    assert forall|q: int|
        #![trigger masked(orig.take(q), keep.push(kept))]
        1 <= q < keep.len() as int + 1 implies masked(orig.take(q), keep.push(kept)).len() > 0
        && call_ensures(
        f,
        (&orig[q], &masked(orig.take(q), keep.push(kept)).last()),
        !(keep.push(kept))[q],
    ) by {
        lemma_masked_ignores_later_decisions(orig.take(q), keep, seq![kept]);
        assert(keep + seq![kept] =~= keep.push(kept));
        assert(masked(orig.take(q), keep.push(kept)) == masked(orig.take(q), keep));
        if q < p {
            assert((keep.push(kept))[q] == keep[q]);
        }
    }
}

/// One operation of the growable-vector interface restricted to its ends:
/// either push a value or pop the last one.
pub enum PushPopOp<T> {
    /// Append the value to the end.
    Push(T),
    /// Remove the last element, if any.
    Pop,
}

/// One step of an unbounded growable vector: push appends, pop drops the
/// last element of a non-empty sequence and does nothing to an empty one.
pub open spec fn unbounded_step<T>(s: Seq<T>, op: PushPopOp<T>) -> Seq<T> {
    match op {
        PushPopOp::Push(v) => s.push(v),
        PushPopOp::Pop => if s.len() == 0 {
            s
        } else {
            s.drop_last()
        },
    }
}

/// An unbounded growable vector subjected to a whole sequence of operations,
/// first to last.
pub open spec fn unbounded_run<T>(s: Seq<T>, ops: Seq<PushPopOp<T>>) -> Seq<T>
    decreases ops.len(),
{
    if ops.len() == 0 {
        s
    } else {
        unbounded_run(unbounded_step(s, ops.first()), ops.drop_first())
    }
}

/// One step of the fixed-capacity container, as the contracts of `push`,
/// `try_push` and `pop` state it: push appends only below capacity and
/// otherwise leaves the contents unchanged; pop behaves as in the unbounded
/// vector.
pub open spec fn container_step<T>(s: Seq<T>, op: PushPopOp<T>, capacity: nat) -> Seq<T> {
    match op {
        PushPopOp::Push(v) => if s.len() < capacity {
            s.push(v)
        } else {
            s
        },
        PushPopOp::Pop => if s.len() == 0 {
            s
        } else {
            s.drop_last()
        },
    }
}

/// The fixed-capacity container subjected to a whole sequence of operations,
/// first to last.
pub open spec fn container_run<T>(s: Seq<T>, ops: Seq<PushPopOp<T>>, capacity: nat) -> Seq<T>
    decreases ops.len(),
{
    if ops.len() == 0 {
        s
    } else {
        container_run(container_step(s, ops.first(), capacity), ops.drop_first(), capacity)
    }
}

/// Whether a sequence of push/pop operations never pushes onto a full
/// container when started from contents `s`.
pub open spec fn within_capacity<T>(s: Seq<T>, ops: Seq<PushPopOp<T>>, capacity: nat) -> bool
    decreases ops.len(),
{
    if ops.len() == 0 {
        true
    } else {
        &&& (ops.first() is Push ==> s.len() < capacity)
        &&& within_capacity(container_step(s, ops.first(), capacity), ops.drop_first(), capacity)
    }
}

/// Law: for every sequence of push/pop operations that never exceeds the
/// capacity, the container's observable contents equal those of an
/// equivalent unbounded vector subjected to the same operations.
pub proof fn lemma_push_pop_matches_unbounded<T>(
    s: Seq<T>,
    ops: Seq<PushPopOp<T>>,
    capacity: nat,
)
    requires
        within_capacity(s, ops, capacity),
    ensures
        container_run(s, ops, capacity) == unbounded_run(s, ops),
    decreases ops.len(),
{
    if ops.len() > 0 {
        assert(container_step(s, ops.first(), capacity) == unbounded_step(s, ops.first()));
        lemma_push_pop_matches_unbounded(
            container_step(s, ops.first(), capacity),
            ops.drop_first(),
            capacity,
        );
    }
}

/// Law: inserting `v` at position `i` puts `v` there, keeps everything
/// before `i` in place, and moves each element previously at `[i, len)` one
/// position toward the end, in the same relative order. `insert` ensures its
/// new contents are exactly `old@.insert(i, v)`.
pub proof fn lemma_insert_shifts<T>(s: Seq<T>, i: int, v: T)
    requires
        0 <= i <= s.len(),
    ensures
        s.insert(i, v).len() == s.len() + 1,
        s.insert(i, v)[i] == v,
        forall|j: int| 0 <= j < i ==> s.insert(i, v)[j] == s[j],
        forall|j: int| i <= j < s.len() ==> s.insert(i, v)[j + 1] == s[j],
{
    s.insert_ensures(i, v);
}

/// Law: removing position `i` yields its prior occupant (stated in
/// `remove`'s ensures), keeps everything before `i` in place, and moves each
/// element previously at `(i, len)` one position toward the start. `remove`
/// ensures its new contents are exactly `old@.remove(i)`.
pub proof fn lemma_remove_shifts<T>(s: Seq<T>, i: int)
    requires
        0 <= i < s.len(),
    ensures
        s.remove(i).len() == s.len() - 1,
        forall|j: int| 0 <= j < i ==> s.remove(i)[j] == s[j],
        forall|j: int| i <= j < s.len() - 1 ==> s.remove(i)[j] == s[j + 1],
{
    s.remove_ensures(i);
}

/// What truncating to length `n` leaves: the whole contents when they are
/// already at most `n` long, their prefix of length `n` otherwise.
pub open spec fn truncated<T>(s: Seq<T>, n: int) -> Seq<T> {
    if n >= s.len() {
        s
    } else {
        s.subrange(0, n)
    }
}

/// Law: truncation is idempotent — truncating to `n` twice leaves the same
/// contents as truncating once; in particular a truncate to `n >= len` is a
/// no-op, which `truncate` also ensures of the whole container.
pub proof fn lemma_truncate_idempotent<T>(s: Seq<T>, n: int)
    requires
        0 <= n,
    ensures
        truncated(truncated(s, n), n) == truncated(s, n),
{
    if n < s.len() {
        assert(truncated(truncated(s, n), n) =~= truncated(s, n));
    }
}

/// Law: a container made from a full buffer (`from_array_len` with the
/// buffer's whole length) has the buffer itself as its live contents, so
/// viewing it as a contiguous slice yields the original element order.
pub proof fn lemma_full_buffer_round_trip<T>(buffer: Seq<T>)
    ensures
        buffer.subrange(0, buffer.len() as int) == buffer,
{
    assert(buffer.subrange(0, buffer.len() as int) =~= buffer);
}

} // verus!
