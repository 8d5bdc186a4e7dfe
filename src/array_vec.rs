use vstd::prelude::*;
use vstd::std_specs::cmp::PartialEqSpec;

use crate::drain::{into_pop_order, pop_order};
use crate::marks::{
    call_key, key_ensures, key_requires, last_kept, lemma_select_last_from, lemma_select_step,
    run_marks, same_key, select,
};

verus! {

/// Relies on `<[A; N]>::map`: slot `i` of the result is what `f` returned for slot `i`
/// of `a`.
#[verifier::external_body]
fn map_array<A, B, F: Fn(A) -> B, const N: usize>(a: [A; N], f: F) -> (r: [B; N])
    requires
        forall|i: int| 0 <= i < N ==> call_requires(f, (#[trigger] a@[i],)),
    ensures
        forall|i: int| 0 <= i < N ==> call_ensures(f, (a@[i],), #[trigger] r@[i]),
{
    a.map(f)
}

/// N slots, none of which holds an element.
fn empty_slots<T, const N: usize>() -> (r: [Option<T>; N])
    ensures
        forall|i: int| 0 <= i < N ==> #[trigger] r@[i] is None,
{
    let units: [(); N] = [(); N];
    map_array(units, |_u: ()| -> (o: Option<T>) ensures o is None { None })
}

/// The element of a slot that holds one.
fn unwrap_slot<T>(o: Option<T>) -> (x: T)
    requires
        o is Some,
    ensures
        o == Some(x),
{
    o.unwrap()
}

/// A vector of at most `N` elements, stored inline without allocation.
#[derive(Clone, Copy, Debug, PartialEq, Eq)]
pub struct ArrayVec<T, const N: usize> {
    pub(crate) data: [Option<T>; N],
    pub(crate) len: usize,
}

impl<T, const N: usize> View for ArrayVec<T, N> {
    type V = Seq<T>;

    /// The live elements, in order.
    closed spec fn view(&self) -> Seq<T> {
        Seq::new(self.len as nat, |i: int| self.data@[i]->0)
    }
}

impl<T, const N: usize> ArrayVec<T, N> {
    /// The live elements fill exactly the first `len` slots.
    pub closed spec fn wf(&self) -> bool {
        &&& self.len <= N
        &&& forall|i: int| 0 <= i < self.len ==> #[trigger] self.data@[i] is Some
        &&& forall|i: int| self.len <= i < N ==> #[trigger] self.data@[i] is None
    }

    /// The view and the well-formedness read as slots.
    pub(crate) proof fn lemma_view_is_slots(&self)
        ensures
            self@ == self.slots(0, self.len as int),
            self.wf() <==> self.len <= N && self.occupied(0, self.len as int) && self.vacant(
                self.len as int,
                N as int,
            ),
    {
        assert(self@ =~= self.slots(0, self.len as int));
    }

    /// The elements in the `count` slots from `from` on.
    pub(crate) open spec fn slots(&self, from: int, count: int) -> Seq<T> {
        Seq::new(count as nat, |i: int| self.data@[from + i]->0)
    }

    /// Every slot in `from..to` holds an element.
    pub(crate) open spec fn occupied(&self, from: int, to: int) -> bool {
        forall|k: int| from <= k < to ==> #[trigger] self.data@[k] is Some
    }

    /// No slot in `from..to` holds an element.
    pub(crate) open spec fn vacant(&self, from: int, to: int) -> bool {
        forall|k: int| from <= k < to ==> #[trigger] self.data@[k] is None
    }

    /// Moves the `tail_len` elements from slot `tail_start` on down so that they follow
    /// the live elements, and counts them in.
    pub(crate) fn close_gap(&mut self, tail_start: usize, tail_len: usize)
        requires
            old(self).len <= tail_start,
            tail_start + tail_len <= N,
            old(self).occupied(0, old(self).len as int),
            old(self).vacant(old(self).len as int, tail_start as int),
            old(self).occupied(tail_start as int, tail_start + tail_len),
            old(self).vacant(tail_start + tail_len, N as int),
        ensures
            final(self).wf(),
            final(self)@ == old(self).slots(0, old(self).len as int) + old(self).slots(
                tail_start as int,
                tail_len as int,
            ),
    {
        let start = self.len;
        if tail_start != start {
            let mut i: usize = 0;
            while i < tail_len
                invariant
                    0 <= i <= tail_len,
                    tail_start + tail_len <= N,
                    start == self.len == old(self).len < tail_start,
                    forall|k: int| 0 <= k < start ==> #[trigger] self.data@[k] == old(self).data@[k],
                    forall|k: int|
                        start <= k < start + i ==> #[trigger] self.data@[k] == old(self).data@[k
                            - start + tail_start],
                    self.vacant(start + i, tail_start + i),
                    forall|k: int|
                        tail_start + i <= k < tail_start + tail_len ==> #[trigger] self.data@[k]
                            == old(self).data@[k],
                    self.vacant(tail_start + tail_len, N as int),
                decreases tail_len - i,
            {
                let moved = self.data[tail_start + i].take();
                self.data[start + i] = moved;
                i = i + 1;
            }
        }
        self.len = start + tail_len;
        assert(self@ =~= old(self).slots(0, start as int) + old(self).slots(
            tail_start as int,
            tail_len as int,
        ));
    }

    /// Constructs an empty vector.
    pub fn new() -> (r: Self)
        ensures
            r.wf(),
            r@ == Seq::<T>::empty(),
    {
        let r = ArrayVec { data: empty_slots(), len: 0 };
        assert(r@ =~= Seq::<T>::empty());
        r
    }

    /// Constructs a full vector that holds the elements of `array`.
    pub fn from_array(array: [T; N]) -> (r: Self)
        ensures
            r.wf(),
            r@ == array@,
    {
        let data = map_array(array, |x: T| -> (o: Option<T>) ensures o == Some(x) { Some(x) });
        let r = ArrayVec { data, len: N };
        assert(r@ =~= array@);
        r
    }

    /// Constructs a vector that holds the first `len` elements of `array`, or all of
    /// them when `len` is not below `N`. The elements past `len` never belong to the
    /// vector: they are dropped here.
    pub fn from_array_and_len(array: [T; N], len: usize) -> (r: Self)
        ensures
            r.wf(),
            r@ == array@.take(if len < N { len as int } else { N as int }),
    {
        let mut r = Self::from_array(array);
        r.truncate(len);
        assert(array@.take(N as int) =~= array@);
        r
    }

    /// Constructs a vector that holds the elements of `array`, which must not be longer
    /// than the capacity.
    pub fn from_partial_array<const M: usize>(array: [T; M]) -> (r: Self)
        requires
            M <= N,
        ensures
            r.wf(),
            r@ == array@,
    {
        let mut src = map_array(array, |x: T| -> (o: Option<T>) ensures o == Some(x) { Some(x) });
        let mut data: [Option<T>; N] = empty_slots();
        let mut i: usize = 0;
        while i < M
            invariant
                i <= M <= N,
                forall|k: int| 0 <= k < i ==> #[trigger] data@[k] == Some(array@[k]),
                forall|k: int| i <= k < N ==> #[trigger] data@[k] is None,
                forall|k: int| i <= k < M ==> #[trigger] src@[k] == Some(array@[k]),
            decreases M - i,
        {
            let moved = src[i].take();
            data[i] = moved;
            i = i + 1;
        }
        let r = ArrayVec { data, len: M };
        assert(r@ =~= array@);
        r
    }

    /// Moves the first `M` elements out into an array and moves the others down;
    /// `None` when there are fewer than `M` elements.
    pub fn make_filled_array<const M: usize>(&mut self) -> (r: Option<[T; M]>)
        requires
            old(self).wf(),
        ensures
            final(self).wf(),
            old(self)@.len() < M ==> r is None && final(self)@ == old(self)@,
            old(self)@.len() >= M ==> (r matches Some(a) && a@ == old(self)@.take(M as int)
                && final(self)@ == old(self)@.skip(M as int)),
    {
        let len = self.len;
        if len < M {
            return None;
        }
        let mut out: [Option<T>; M] = empty_slots();
        let mut i: usize = 0;
        while i < M
            invariant
                i <= M <= len == old(self).len <= N,
                self.len == len,
                forall|k: int| 0 <= k < i ==> #[trigger] out@[k] == old(self).data@[k],
                forall|k: int| i <= k < M ==> #[trigger] out@[k] is None,
                self.vacant(0, i as int),
                forall|k: int| i <= k < N ==> #[trigger] self.data@[k] == old(self).data@[k],
            decreases M - i,
        {
            let moved = self.data[i].take();
            out[i] = moved;
            i = i + 1;
        }
        self.len = 0;
        self.close_gap(M, len - M);
        assert(self@ =~= old(self)@.skip(M as int));
        let a = map_array(out, unwrap_slot);
        assert(a@ =~= old(self)@.take(M as int));
        Some(a)
    }

    /// The number of slots, which never changes.
    pub fn capacity(&self) -> (r: usize)
        ensures
            r == N,
    {
        N
    }

    /// The number of live elements.
    pub fn len(&self) -> (r: usize)
        requires
            self.wf(),
        ensures
            r == self@.len(),
    {
        self.len
    }

    /// Whether no element is live.
    pub fn is_empty(&self) -> (r: bool)
        requires
            self.wf(),
        ensures
            r == (self@.len() == 0),
    {
        self.len == 0
    }

    /// The number of elements that can still be added.
    pub fn remaining_capacity(&self) -> (r: usize)
        requires
            self.wf(),
        ensures
            r == N - self@.len(),
    {
        N - self.len
    }

    /// Appends `element`, or hands it back when every slot is taken.
    pub fn try_push(&mut self, element: T) -> (r: Result<(), T>)
        requires
            old(self).wf(),
        ensures
            final(self).wf(),
            old(self)@.len() == N ==> r == Err::<(), T>(element) && final(self)@ == old(self)@,
            old(self)@.len() < N ==> r is Ok && final(self)@ == old(self)@.push(element),
    {
        if self.len == N {
            Err(element)
        } else {
            self.data[self.len] = Some(element);
            self.len = self.len + 1;
            assert(self@ =~= old(self)@.push(element));
            Ok(())
        }
    }

    /// Appends `element` to a vector that is not full.
    pub fn push(&mut self, element: T)
        requires
            old(self).wf(),
            old(self)@.len() < N,
        ensures
            final(self).wf(),
            final(self)@ == old(self)@.push(element),
    {
        let r = self.try_push(element);
        match r {
            Ok(()) => {},
            Err(_) => {},
        }
    }

    /// Removes the last element and returns it, or `None` when the vector is empty.
    pub fn pop(&mut self) -> (r: Option<T>)
        requires
            old(self).wf(),
        ensures
            final(self).wf(),
            old(self)@.len() == 0 ==> r is None && final(self)@ == old(self)@,
            old(self)@.len() > 0 ==> r == Some(old(self)@.last()) && final(self)@
                == old(self)@.drop_last(),
    {
        if self.len == 0 {
            None
        } else {
            self.len = self.len - 1;
            let x = self.data[self.len].take();
            assert(self@ =~= old(self)@.drop_last());
            x
        }
    }

    /// Inserts `element` at `idx`, moving the elements from `idx` on one slot up.
    /// Hands `element` back when `idx` is past the end or every slot is taken.
    pub fn insert(&mut self, idx: usize, element: T) -> (r: Result<(), T>)
        requires
            old(self).wf(),
        ensures
            final(self).wf(),
            idx > old(self)@.len() || old(self)@.len() == N ==> r == Err::<(), T>(element)
                && final(self)@ == old(self)@,
            idx <= old(self)@.len() && old(self)@.len() < N ==> r is Ok && final(self)@
                == old(self)@.insert(idx as int, element),
    {
        if idx > self.len || self.len == N {
            return Err(element);
        }
        let mut j: usize = self.len;
        while j > idx
            invariant
                idx <= j <= old(self).len < N,
                self.len == old(self).len,
                self.data@[j as int] is None,
                forall|k: int| 0 <= k < j ==> #[trigger] self.data@[k] == old(self).data@[k],
                forall|k: int| j < k <= old(self).len ==> #[trigger] self.data@[k] == old(self).data@[k - 1],
                forall|k: int| old(self).len < k < N ==> #[trigger] self.data@[k] is None,
            decreases j,
        {
            let moved = self.data[j - 1].take();
            self.data[j] = moved;
            j = j - 1;
        }
        self.data[idx] = Some(element);
        self.len = self.len + 1;
        assert(self@ =~= old(self)@.insert(idx as int, element));
        Ok(())
    }

    /// Removes the element at `idx` and returns it, moving the later elements one slot
    /// down; `None` when `idx` is past the last element.
    pub fn remove(&mut self, idx: usize) -> (r: Option<T>)
        requires
            old(self).wf(),
        ensures
            final(self).wf(),
            idx >= old(self)@.len() ==> r is None && final(self)@ == old(self)@,
            idx < old(self)@.len() ==> r == Some(old(self)@[idx as int]) && final(self)@
                == old(self)@.remove(idx as int),
    {
        if idx >= self.len {
            return None;
        }
        let result = self.data[idx].take();
        let mut j: usize = idx;
        while j + 1 < self.len
            invariant
                idx <= j < old(self).len <= N,
                self.len == old(self).len,
                self.data@[j as int] is None,
                forall|k: int| 0 <= k < idx ==> #[trigger] self.data@[k] == old(self).data@[k],
                forall|k: int| idx <= k < j ==> #[trigger] self.data@[k] == old(self).data@[k + 1],
                forall|k: int| j < k < N ==> #[trigger] self.data@[k] == old(self).data@[k],
            decreases self.len - j,
        {
            let moved = self.data[j + 1].take();
            self.data[j] = moved;
            j = j + 1;
        }
        self.len = self.len - 1;
        assert(self@ =~= old(self)@.remove(idx as int));
        result
    }

    /// Removes the element at `idx` and returns it, putting the last element in its
    /// place; `None` when `idx` is past the last element.
    pub fn swap_remove(&mut self, idx: usize) -> (r: Option<T>)
        requires
            old(self).wf(),
        ensures
            final(self).wf(),
            idx >= old(self)@.len() ==> r is None && final(self)@ == old(self)@,
            idx < old(self)@.len() ==> r == Some(old(self)@[idx as int]) && final(self)@
                == old(self)@.update(idx as int, old(self)@.last()).drop_last(),
    {
        if idx >= self.len {
            return None;
        }
        self.len = self.len - 1;
        let last = self.data[self.len].take();
        if idx == self.len {
            assert(self@ =~= old(self)@.update(idx as int, old(self)@.last()).drop_last());
            last
        } else {
            let v = self.data[idx].take();
            self.data[idx] = last;
            assert(self@ =~= old(self)@.update(idx as int, old(self)@.last()).drop_last());
            v
        }
    }

    /// Keeps the first `new_len` elements and drops the rest; does nothing when
    /// `new_len` is not below the length.
    pub fn truncate(&mut self, new_len: usize)
        requires
            old(self).wf(),
        ensures
            final(self).wf(),
            new_len >= old(self)@.len() ==> final(self)@ == old(self)@,
            new_len < old(self)@.len() ==> final(self)@ == old(self)@.take(new_len as int),
    {
        if new_len >= self.len {
            return;
        }
        let old_len = self.len;
        self.len = new_len;
        let mut i: usize = new_len;
        while i < old_len
            invariant
                new_len <= i <= old_len <= N,
                self.len == new_len,
                forall|k: int| 0 <= k < new_len ==> #[trigger] self.data@[k] == old(self).data@[k],
                forall|k: int| new_len <= k < i ==> #[trigger] self.data@[k] is None,
                forall|k: int| i <= k < N ==> #[trigger] self.data@[k] == old(self).data@[k],
            decreases old_len - i,
        {
            self.data[i] = None;
            i = i + 1;
        }
        assert(self@ =~= old(self)@.take(new_len as int));
    }

    /// Drops every element.
    pub fn clear(&mut self)
        requires
            old(self).wf(),
        ensures
            final(self).wf(),
            final(self)@ == Seq::<T>::empty(),
    {
        self.truncate(0);
        assert(self@ =~= Seq::<T>::empty());
    }

    /// Moves the elements from `at` on into a new vector of the same capacity and
    /// returns it; `None` when `at` is past the end.
    pub fn split_off(&mut self, at: usize) -> (r: Option<Self>)
        requires
            old(self).wf(),
        ensures
            final(self).wf(),
            at > old(self)@.len() ==> r is None && final(self)@ == old(self)@,
            at <= old(self)@.len() ==> (r matches Some(other) && other.wf() && other@
                == old(self)@.skip(at as int) && final(self)@ == old(self)@.take(at as int)),
    {
        let len = self.len;
        if at > len {
            return None;
        }
        let mut other: Self = ArrayVec { data: empty_slots(), len: 0 };
        self.len = at;
        let mut i: usize = at;
        while i < len
            invariant
                at <= i <= len <= N,
                self.len == at,
                other.len == 0,
                forall|k: int| 0 <= k < at ==> #[trigger] self.data@[k] == old(self).data@[k],
                forall|k: int| at <= k < i ==> #[trigger] self.data@[k] is None,
                forall|k: int| i <= k < N ==> #[trigger] self.data@[k] == old(self).data@[k],
                forall|k: int| 0 <= k < i - at ==> #[trigger] other.data@[k] == old(self).data@[k + at],
                forall|k: int| i - at <= k < N ==> #[trigger] other.data@[k] is None,
            decreases len - i,
        {
            let moved = self.data[i].take();
            other.data[i - at] = moved;
            i = i + 1;
        }
        other.len = len - at;
        assert(other@ =~= old(self)@.skip(at as int));
        assert(self@ =~= old(self)@.take(at as int));
        Some(other)
    }

    /// Appends copies of as many elements of `other` as there are free slots. When
    /// `other` does not fit, the vector ends full and the part of `other` that was
    /// not copied comes back as the error.
    pub fn extend_from_copyable_slice<'a>(&mut self, other: &'a [T]) -> (r: Result<(), &'a [T]>)
        where
            T: Copy,
        requires
            old(self).wf(),
        ensures
            final(self).wf(),
            other@.len() <= N - old(self)@.len() ==> r is Ok && final(self)@ == old(self)@
                + other@,
            other@.len() > N - old(self)@.len() ==> (r matches Err(rest) && rest@
                == other@.skip(N - old(self)@.len()) && final(self)@ == old(self)@ + other@.take(
                N - old(self)@.len(),
            )),
    {
        let remaining = N - self.len;
        let count: usize = if other.len() > remaining {
            remaining
        } else {
            other.len()
        };
        let start = self.len;
        let mut i: usize = 0;
        while i < count
            invariant
                count <= remaining == N - start,
                count <= other@.len(),
                start == old(self).len,
                self.len == start + i,
                i <= count,
                old(self).wf(),
                forall|k: int| 0 <= k < start ==> #[trigger] self.data@[k] == old(self).data@[k],
                forall|k: int| start <= k < start + i ==> #[trigger] self.data@[k] == Some(other@[k - start]),
                forall|k: int| start + i <= k < N ==> #[trigger] self.data@[k] is None,
            decreases count - i,
        {
            let x: T = other[i];
            self.data[self.len] = Some(x);
            self.len = self.len + 1;
            i = i + 1;
        }
        assert(self@ =~= old(self)@ + other@.take(count as int));
        if other.len() > remaining {
            Err(vstd::slice::slice_subrange(other, remaining, other.len()))
        } else {
            assert(other@.take(count as int) =~= other@);
            Ok(())
        }
    }

    /// Appends clones of as many elements of `other` as there are free slots. When
    /// `other` does not fit, the vector ends full and the part of `other` that was
    /// not cloned comes back as the error.
    pub fn extend_from_cloneable_slice<'a>(&mut self, other: &'a [T]) -> (r: Result<(), &'a [T]>)
        where
            T: Clone,
        requires
            old(self).wf(),
        ensures
            final(self).wf(),
            ({
                let count = if other@.len() <= N - old(self)@.len() {
                    other@.len() as int
                } else {
                    N - old(self)@.len()
                };
                &&& final(self)@.len() == old(self)@.len() + count
                &&& final(self)@.take(old(self)@.len() as int) == old(self)@
                &&& forall|k: int|
                    0 <= k < count ==> cloned(
                        other@[k],
                        #[trigger] final(self)@[old(self)@.len() + k],
                    )
            }),
            other@.len() <= N - old(self)@.len() ==> r is Ok,
            other@.len() > N - old(self)@.len() ==> (r matches Err(rest) && rest@
                == other@.skip(N - old(self)@.len())),
    {
        let remaining = N - self.len;
        let count: usize = if other.len() > remaining {
            remaining
        } else {
            other.len()
        };
        let start = self.len;
        let mut i: usize = 0;
        while i < count
            invariant
                count <= remaining == N - start,
                count <= other@.len(),
                start == old(self).len,
                self.len == start + i,
                i <= count,
                old(self).wf(),
                forall|k: int| 0 <= k < start ==> #[trigger] self.data@[k] == old(self).data@[k],
                forall|k: int|
                    start <= k < start + i ==> (#[trigger] self.data@[k] matches Some(y) && cloned(
                        other@[k - start],
                        y,
                    )),
                forall|k: int| start + i <= k < N ==> #[trigger] self.data@[k] is None,
            decreases count - i,
        {
            let x: T = other[i].clone();
            self.data[self.len] = Some(x);
            self.len = self.len + 1;
            i = i + 1;
        }
        assert(self@.take(start as int) =~= old(self)@);
        if other.len() > remaining {
            Err(vstd::slice::slice_subrange(other, remaining, other.len()))
        } else {
            Ok(())
        }
    }

    /// The element at `idx`, or `None` when `idx` is past the last element.
    pub fn get(&self, idx: usize) -> (r: Option<&T>)
        requires
            self.wf(),
        ensures
            idx < self@.len() ==> r == Some(&self@[idx as int]),
            idx >= self@.len() ==> r is None,
    {
        if idx < self.len {
            self.data[idx].as_ref()
        } else {
            None
        }
    }

    /// The live slots, each of which holds its element.
    pub fn as_slice(&self) -> (r: &[Option<T>])
        requires
            self.wf(),
        ensures
            r@ == self@.map_values(|x: T| Some(x)),
    {
        let r = vstd::slice::slice_subrange(self.data.as_slice(), 0, self.len);
        assert(r@ =~= self@.map_values(|x: T| Some(x)));
        r
    }


    /// Keeps the elements for which `f` returns `true`, in order, and drops the others.
    pub fn retain<F: Fn(&T) -> bool>(&mut self, f: F)
        requires
            old(self).wf(),
            forall|i: int| 0 <= i < old(self)@.len() ==> call_requires(f, (&old(self)@[i],)),
        ensures
            final(self).wf(),
            exists|marks: Seq<bool>|
                {
                    &&& marks.len() == old(self)@.len()
                    &&& forall|i: int|
                        0 <= i < old(self)@.len() ==> call_ensures(
                            f,
                            (&old(self)@[i],),
                            #[trigger] marks[i],
                        )
                    &&& final(self)@ == select(old(self)@, marks)
                },
    {
        let len = self.len;
        let mut w: usize = 0;
        let mut i: usize = 0;
        let ghost mut marks: Seq<bool> = Seq::empty();
        while i < len
            invariant
                w <= i <= len == old(self).len <= N,
                self.len == len,
                old(self).wf(),
                forall|j: int| 0 <= j < len ==> call_requires(f, (&old(self)@[j],)),
                marks.len() == i,
                forall|j: int| 0 <= j < i ==> call_ensures(f, (&old(self)@[j],), #[trigger] marks[j]),
                select(old(self)@.take(i as int), marks).len() == w,
                forall|k: int|
                    0 <= k < w ==> #[trigger] self.data@[k] == Some(
                        select(old(self)@.take(i as int), marks)[k],
                    ),
                self.vacant(w as int, i as int),
                forall|k: int| i <= k < N ==> #[trigger] self.data@[k] == old(self).data@[k],
            decreases len - i,
        {
            let ghost sel = select(old(self)@.take(i as int), marks);
            assert(self.data@[i as int] == Some(old(self)@[i as int]));
            let keep = match &self.data[i] {
                Some(x) => f(x),
                None => true,
            };
            proof {
                lemma_select_step(old(self)@, marks, i as int, keep);
                marks = marks.push(keep);
            }
            if keep {
                if w != i {
                    let moved = self.data[i].take();
                    self.data[w] = moved;
                }
                w = w + 1;
            } else {
                self.data[i] = None;
            }
            i = i + 1;
        }
        self.len = w;
        assert(old(self)@.take(len as int) =~= old(self)@);
        assert(self@ =~= select(old(self)@, marks));
        assert(marks.len() == old(self)@.len() && (forall|i: int|
            0 <= i < old(self)@.len() ==> call_ensures(f, (&old(self)@[i],), #[trigger] marks[i]))
            && self@ == select(old(self)@, marks));
    }

    /// Collapses each run of consecutive elements that `same_bucket` puts together to
    /// its first element, in order. `same_bucket` is asked about an element and the last
    /// element kept before it.
    #[verifier::rlimit(40)]
    pub fn dedup_by<F: Fn(&T, &T) -> bool>(&mut self, same_bucket: F)
        requires
            old(self).wf(),
            forall|i: int, j: int|
                0 <= j < i < old(self)@.len() ==> call_requires(
                    same_bucket,
                    (&old(self)@[i], &old(self)@[j]),
                ),
        ensures
            final(self).wf(),
            exists|marks: Seq<bool>|
                {
                    &&& run_marks(old(self)@, marks)
                    &&& forall|i: int|
                        0 < i < old(self)@.len() ==> call_ensures(
                            same_bucket,
                            (&old(self)@[i], &last_kept(old(self)@, marks, i)),
                            !#[trigger] marks[i],
                        )
                    &&& final(self)@ == select(old(self)@, marks)
                },
    {
        let len = self.len;
        if len == 0 {
            proof {
                let marks = Seq::<bool>::empty();
                assert(self@ =~= select(old(self)@, marks));
                assert(run_marks(old(self)@, marks));
            }
            return;
        }
        let mut w: usize = 1;
        let mut i: usize = 1;
        let ghost mut marks: Seq<bool> = seq![true];
        proof {
            assert(old(self)@.take(1).drop_last() =~= Seq::<T>::empty());
            assert(marks.drop_last() =~= Seq::<bool>::empty());
            assert(select(Seq::<T>::empty(), Seq::<bool>::empty()) == Seq::<T>::empty());
            assert(select(old(self)@.take(1), marks) =~= seq![old(self)@[0]]);
        }
        while i < len
            invariant
                1 <= w <= i <= len == old(self).len <= N,
                self.len == len,
                old(self).wf(),
                forall|a: int, b: int|
                    0 <= b < a < len ==> call_requires(same_bucket, (&old(self)@[a], &old(self)@[b])),
                marks.len() == i,
                marks[0],
                forall|j: int|
                    0 < j < i ==> call_ensures(
                        same_bucket,
                        (&old(self)@[j], &last_kept(old(self)@, marks, j)),
                        !#[trigger] marks[j],
                    ),
                select(old(self)@.take(i as int), marks).len() == w,
                forall|k: int|
                    0 <= k < w ==> #[trigger] self.data@[k] == Some(
                        select(old(self)@.take(i as int), marks)[k],
                    ),
                self.vacant(w as int, i as int),
                forall|k: int| i <= k < N ==> #[trigger] self.data@[k] == old(self).data@[k],
            decreases len - i,
        {
            let ghost sel = select(old(self)@.take(i as int), marks);
            assert(self.data@[i as int] == Some(old(self)@[i as int]));
            proof {
                lemma_select_last_from(old(self)@.take(i as int), marks);
                let jw = choose|j: int|
                    0 <= j < i && sel.last() == #[trigger] old(self)@.take(i as int)[j];
                assert(old(self)@.take(i as int)[jw] == old(self)@[jw]);
                assert(self.data@[w - 1] == Some(sel.last()));
                assert(call_requires(same_bucket, (&old(self)@[i as int], &old(self)@[jw])));
            }
            let same = match (&self.data[i], &self.data[w - 1]) {
                (Some(cur), Some(prev)) => same_bucket(cur, prev),
                _ => false,
            };
            proof {
                lemma_select_step(old(self)@, marks, i as int, !same);
                assert(old(self)@.take(i as int) =~= old(self)@.take(i + 1).take(i as int));
                let new_marks = marks.push(!same);
                assert(new_marks.take(i as int) =~= marks);
                assert forall|j: int| 0 < j < i implies call_ensures(
                    same_bucket,
                    (&old(self)@[j], &last_kept(old(self)@, new_marks, j)),
                    !#[trigger] new_marks[j],
                ) by {
                    assert(new_marks.take(j) =~= marks.take(j));
                    assert(new_marks[j] == marks[j]);
                }
                assert(last_kept(old(self)@, new_marks, i as int) == sel.last());
                marks = new_marks;
            }
            if !same {
                if w != i {
                    let moved = self.data[i].take();
                    self.data[w] = moved;
                }
                w = w + 1;
            } else {
                self.data[i] = None;
            }
            i = i + 1;
        }
        self.len = w;
        assert(old(self)@.take(len as int) =~= old(self)@);
        assert(self@ =~= select(old(self)@, marks));
        assert(run_marks(old(self)@, marks));
    }

    /// Collapses each run of consecutive equal elements to its first element.
    pub fn dedup(&mut self)
        where
            T: PartialEq,
        requires
            old(self).wf(),
        ensures
            final(self).wf(),
            exists|marks: Seq<bool>|
                {
                    &&& run_marks(old(self)@, marks)
                    &&& forall|i: int|
                        0 < i < old(self)@.len() ==> T::obeys_eq_spec() ==> (!#[trigger] marks[i]
                            == old(self)@[i].eq_spec(&last_kept(old(self)@, marks, i)))
                    &&& final(self)@ == select(old(self)@, marks)
                },
    {
        let same = |a: &T, b: &T| -> (r: bool)
            ensures
                T::obeys_eq_spec() ==> r == a.eq_spec(b),
            { a == b };
        self.dedup_by(same);
        proof {
            let marks = choose|marks: Seq<bool>|
                {
                    &&& run_marks(old(self)@, marks)
                    &&& forall|i: int|
                        0 < i < old(self)@.len() ==> call_ensures(
                            same,
                            (&old(self)@[i], &last_kept(old(self)@, marks, i)),
                            !#[trigger] marks[i],
                        )
                    &&& self@ == select(old(self)@, marks)
                };
            assert(forall|i: int|
                0 < i < old(self)@.len() ==> T::obeys_eq_spec() ==> (!#[trigger] marks[i]
                    == old(self)@[i].eq_spec(&last_kept(old(self)@, marks, i))));
        }
    }

    /// Collapses each run of consecutive elements with equal keys to its first element.
    pub fn dedup_by_key<F: Fn(&T) -> K, K: PartialEq>(&mut self, key: F)
        requires
            old(self).wf(),
            forall|i: int| 0 <= i < old(self)@.len() ==> call_requires(key, (&old(self)@[i],)),
        ensures
            final(self).wf(),
            exists|marks: Seq<bool>|
                {
                    &&& run_marks(old(self)@, marks)
                    &&& forall|i: int|
                        0 < i < old(self)@.len() ==> same_key(
                            key,
                            old(self)@[i],
                            last_kept(old(self)@, marks, i),
                            !#[trigger] marks[i],
                        )
                    &&& final(self)@ == select(old(self)@, marks)
                },
    {
        let k = &key;
        let same = |a: &T, b: &T| -> (r: bool)
            requires
                key_requires(k, a),
                key_requires(k, b),
            ensures
                exists|ka: K, kb: K|
                    #![trigger key_ensures(k, a, ka), key_ensures(k, b, kb)]
                    {
                        &&& key_ensures(k, a, ka)
                        &&& key_ensures(k, b, kb)
                        &&& K::obeys_eq_spec() ==> (r == ka.eq_spec(&kb))
                    },
            {
                let ka = call_key(k, a);
                let kb = call_key(k, b);
                let r = ka == kb;
                assert(key_ensures(k, a, ka) && key_ensures(k, b, kb));
                r
            };
        self.dedup_by(same);
        proof {
            let marks = choose|marks: Seq<bool>|
                {
                    &&& run_marks(old(self)@, marks)
                    &&& forall|i: int|
                        0 < i < old(self)@.len() ==> call_ensures(
                            same,
                            (&old(self)@[i], &last_kept(old(self)@, marks, i)),
                            !#[trigger] marks[i],
                        )
                    &&& self@ == select(old(self)@, marks)
                };
            assert forall|i: int| 0 < i < old(self)@.len() implies same_key(
                key,
                old(self)@[i],
                last_kept(old(self)@, marks, i),
                !#[trigger] marks[i],
            ) by {
                let x = old(self)@[i];
                let y = last_kept(old(self)@, marks, i);
                assert(call_ensures(same, (&x, &y), !marks[i]));
                assert(exists|ka: K, kb: K|
                    #![trigger key_ensures(k, &x, ka), key_ensures(k, &y, kb)]
                    {
                        &&& key_ensures(k, &x, ka)
                        &&& key_ensures(k, &y, kb)
                        &&& K::obeys_eq_spec() ==> (!marks[i] == ka.eq_spec(&kb))
                    });
                let (ka, kb) = choose|ka: K, kb: K|
                    #![trigger key_ensures(k, &x, ka), key_ensures(k, &y, kb)]
                    {
                        &&& key_ensures(k, &x, ka)
                        &&& key_ensures(k, &y, kb)
                        &&& K::obeys_eq_spec() ==> (!marks[i] == ka.eq_spec(&kb))
                    };
                assert(call_ensures(key, (&x,), ka));
                assert(call_ensures(key, (&y,), kb));
                assert(K::obeys_eq_spec() ==> (!marks[i] == ka.eq_spec(&kb)));
            }
            assert(run_marks(old(self)@, marks) && self@ == select(old(self)@, marks));
        }
    }

    /// Appends the elements of `items` in order while slots are free, and drops the
    /// ones that do not fit.
    pub fn extend(&mut self, items: Vec<T>)
        requires
            old(self).wf(),
        ensures
            final(self).wf(),
            final(self)@ == old(self)@ + items@.take(
                if items@.len() < N - old(self)@.len() {
                    items@.len() as int
                } else {
                    N - old(self)@.len()
                },
            ),
    {
        let mut stack = into_pop_order(items);
        let count: usize = if stack.len() < N - self.len {
            stack.len()
        } else {
            N - self.len
        };
        let mut i: usize = 0;
        while i < count
            invariant
                old(self).wf(),
                self.wf(),
                i <= count <= items@.len(),
                count <= N - old(self)@.len(),
                self@ == old(self)@ + items@.take(i as int),
                pop_order(stack@) == items@.skip(i as int),
            decreases count - i,
        {
            let ghost sb = stack@;
            assert(pop_order(sb).len() == sb.len());
            let x = stack.pop().unwrap();
            assert(pop_order(sb)[0] == x);
            assert(x == items@[i as int]);
            self.push(x);
            assert(items@.take(i + 1) =~= items@.take(i as int).push(x));
            assert(self@ =~= old(self)@ + items@.take(i + 1));
            assert(pop_order(stack@) =~= pop_order(sb).skip(1));
            assert(pop_order(sb).skip(1) =~= items@.skip(i + 1));
            i = i + 1;
        }
    }
}

impl<T, const N: usize> Default for ArrayVec<T, N> {
    fn default() -> (r: Self)
        ensures
            r.wf(),
            r@ == Seq::<T>::empty(),
    {
        Self::new()
    }
}

} // verus!
