use vstd::prelude::*;

use crate::array_vec::ArrayVec;

verus! {

/// The order in which `pop` hands out the elements of `s`: last first.
pub open spec fn pop_order<T>(s: Seq<T>) -> Seq<T> {
    Seq::new(s.len(), |i: int| s[s.len() - 1 - i])
}

/// The elements of `items` in a vector that `pop` hands them out of in their order.
pub(crate) fn into_pop_order<T>(items: Vec<T>) -> (r: Vec<T>)
    ensures
        pop_order(r@) == items@,
{
    let mut rest = items;
    let mut stack: Vec<T> = Vec::new();
    while rest.len() > 0
        invariant
            rest@.len() <= items@.len(),
            rest@ == items@.take(rest@.len() as int),
            pop_order(stack@) == items@.skip(rest@.len() as int),
        decreases rest@.len(),
    {
        let ghost before = stack@;
        let ghost m = rest@.len();
        let ghost rb = rest@;
        match rest.pop() {
            Some(x) => {
                assert(rb[m - 1] == items@[m - 1]);
                stack.push(x);
                assert(pop_order(stack@) =~= seq![x] + pop_order(before));
                assert(pop_order(stack@) =~= items@.skip(m - 1));
                assert(rest@ =~= items@.take(rest@.len() as int));
            },
            None => {},
        }
    }
    assert(pop_order(stack@) =~= items@);
    stack
}

/// A guard that removes a range of elements from an `ArrayVec` and hands them out.
///
/// While the guard lives, the vector's length is cut back to the start of the range, so
/// the vector shows only the elements before it. Slots between that length and `front`
/// were handed out already; `front..back` holds what is left to hand out; slots from
/// `back` up to `tail_start` were handed out from the back; the `tail_len` elements from
/// `tail_start` on are the ones after the range. `release` closes the gap; a guard that is
/// dropped without it leaves the vector with only the elements before the range.
pub struct Drain<'a, T, const N: usize> {
    pub(crate) vec: &'a mut ArrayVec<T, N>,
    pub(crate) front: usize,
    pub(crate) back: usize,
    pub(crate) tail_start: usize,
    pub(crate) tail_len: usize,
}

impl<'a, T, const N: usize> Drain<'a, T, N> {
    /// The layout of slots that the type's comment describes.
    pub closed spec fn wf(&self) -> bool {
        let v = *self.vec;
        &&& v.len <= self.front <= self.back <= self.tail_start
        &&& self.tail_start + self.tail_len <= N
        &&& v.occupied(0, v.len as int)
        &&& v.vacant(v.len as int, self.front as int)
        &&& v.occupied(self.front as int, self.back as int)
        &&& v.vacant(self.back as int, self.tail_start as int)
        &&& v.occupied(self.tail_start as int, self.tail_start + self.tail_len)
        &&& v.vacant(self.tail_start + self.tail_len, N as int)
    }

    /// The elements before the removed range, which the vector still shows.
    pub closed spec fn kept(&self) -> Seq<T> {
        self.vec.slots(0, self.vec.len as int)
    }

    /// The elements of the range that have not been handed out yet.
    pub closed spec fn remaining(&self) -> Seq<T> {
        self.vec.slots(self.front as int, self.back - self.front)
    }

    /// The elements after the removed range.
    pub closed spec fn tail(&self) -> Seq<T> {
        self.vec.slots(self.tail_start as int, self.tail_len as int)
    }

    /// The vector this guard works on.
    pub closed spec fn parent(&self) -> &'a mut ArrayVec<T, N> {
        self.vec
    }

    /// Hands out the first element that is left of the range.
    pub fn next(&mut self) -> (r: Option<T>)
        requires
            old(self).wf(),
        ensures
            final(self).wf(),
            final(self).kept() == old(self).kept(),
            final(self).tail() == old(self).tail(),
            *final(final(self).parent()) == *final(old(self).parent()),
            old(self).remaining().len() == 0 ==> r is None
                && final(self).remaining() == old(self).remaining(),
            old(self).remaining().len() > 0 ==> r == Some(old(self).remaining()[0])
                && final(self).remaining() == old(self).remaining().drop_first(),
    {
        if self.front == self.back {
            return None;
        }
        let x = self.vec.data[self.front].take();
        self.front = self.front + 1;
        assert(self.remaining() =~= old(self).remaining().drop_first());
        assert(self.tail() =~= old(self).tail());
        assert(self.kept() =~= old(self).kept());
        x
    }

    /// Hands out the last element that is left of the range.
    pub fn next_back(&mut self) -> (r: Option<T>)
        requires
            old(self).wf(),
        ensures
            final(self).wf(),
            final(self).kept() == old(self).kept(),
            final(self).tail() == old(self).tail(),
            *final(final(self).parent()) == *final(old(self).parent()),
            old(self).remaining().len() == 0 ==> r is None
                && final(self).remaining() == old(self).remaining(),
            old(self).remaining().len() > 0 ==> r == Some(old(self).remaining().last())
                && final(self).remaining() == old(self).remaining().drop_last(),
    {
        if self.front == self.back {
            return None;
        }
        self.back = self.back - 1;
        let x = self.vec.data[self.back].take();
        assert(self.remaining() =~= old(self).remaining().drop_last());
        assert(self.tail() =~= old(self).tail());
        assert(self.kept() =~= old(self).kept());
        x
    }

    /// The number of elements left to hand out.
    pub fn len(&self) -> (r: usize)
        requires
            self.wf(),
        ensures
            r == self.remaining().len(),
    {
        self.back - self.front
    }

    /// Whether every element of the range has been handed out.
    pub fn is_empty(&self) -> (r: bool)
        requires
            self.wf(),
        ensures
            r == (self.remaining().len() == 0),
    {
        self.front == self.back
    }

    /// The slots of the elements left to hand out, each of which holds its element.
    pub fn as_slice(&self) -> (r: &[Option<T>])
        requires
            self.wf(),
        ensures
            r@ == self.remaining().map_values(|x: T| Some(x)),
    {
        let r = vstd::slice::slice_subrange(self.vec.data.as_slice(), self.front, self.back);
        assert(r@ =~= self.remaining().map_values(|x: T| Some(x)));
        r
    }

    /// Drops the elements left to hand out, one at a time.
    pub(crate) fn drop_remaining(&mut self)
        requires
            old(self).wf(),
        ensures
            final(self).wf(),
            final(self).kept() == old(self).kept(),
            final(self).tail() == old(self).tail(),
            final(self).remaining().len() == 0,
            final(self).tail_start == old(self).tail_start,
            final(self).tail_len == old(self).tail_len,
            final(self).front == final(self).back == final(self).tail_start,
            final(self).kept().len() <= final(self).tail_start,
            final(self).tail_start + final(self).tail_len <= N,
            final(self).tail().len() == final(self).tail_len,
            *final(final(self).parent()) == *final(old(self).parent()),
    {
        while self.front < self.back
            invariant
                self.wf(),
                self.kept() == old(self).kept(),
                self.tail() == old(self).tail(),
                self.tail_start == old(self).tail_start,
                self.tail_len == old(self).tail_len,
                *final(self.parent()) == *final(old(self).parent()),
            decreases self.back - self.front,
        {
            self.vec.data[self.front] = None;
            self.front = self.front + 1;
            assert(self.tail() =~= old(self).tail());
            assert(self.kept() =~= old(self).kept());
        }
        self.front = self.tail_start;
        self.back = self.tail_start;
    }

    /// Ends the removal: drops the elements left to hand out, moves the tail down to
    /// follow the kept elements, and gives the vector its length back.
    pub fn release(self)
        requires
            self.wf(),
        ensures
            final(self.parent()).wf(),
            final(self.parent())@ == self.kept() + self.tail(),
    {
        let mut d = self;
        d.drop_remaining();
        let vec = d.vec;
        vec.close_gap(d.tail_start, d.tail_len);
    }
}

impl<T, const N: usize> ArrayVec<T, N> {
    /// Starts removing the elements in `range`; `None` when the range is reversed or
    /// reaches past the end. The vector shows only the elements before the range until
    /// the guard is released.
    pub fn drain(&mut self, range: core::ops::Range<usize>) -> (r: Option<Drain<'_, T, N>>)
        requires
            old(self).wf(),
        ensures
            !(range.start <= range.end <= old(self)@.len()) ==> r is None && *final(self) == *old(
                self),
            range.start <= range.end <= old(self)@.len() ==> (r matches Some(d) && d.wf()
                && d.kept() == old(self)@.take(range.start as int)
                && d.remaining() == old(self)@.subrange(range.start as int, range.end as int)
                && d.tail() == old(self)@.skip(range.end as int)
                && *final(self) == *final(d.parent())),
    {
        proof {
            self.lemma_view_is_slots();
        }
        let len = self.len;
        let start = range.start;
        let end = range.end;
        if start > end || end > len {
            return None;
        }
        self.len = start;
        let d = Drain { vec: self, front: start, back: end, tail_start: end, tail_len: len - end };
        assert(d.kept() =~= old(self)@.take(start as int));
        assert(d.remaining() =~= old(self)@.subrange(start as int, end as int));
        assert(d.tail() =~= old(self)@.skip(end as int));
        Some(d)
    }
}

impl<'a, T, const N: usize> Drain<'a, T, N> {
    /// Fills the vacant slots between the vector's length and the tail with elements
    /// popped from `items`, until either runs out. Returns whether every slot was filled.
    pub(crate) fn fill(&mut self, items: &mut Vec<T>) -> (full: bool)
        requires
            old(self).wf(),
            old(self).front == old(self).back == old(self).tail_start,
        ensures
            final(self).wf(),
            final(self).front == final(self).back == final(self).tail_start == old(self).tail_start,
            final(self).tail_len == old(self).tail_len,
            final(self).tail() == old(self).tail(),
            *final(final(self).parent()) == *final(old(self).parent()),
            ({
                let gap = old(self).tail_start - old(self).kept().len();
                let k = if pop_order(old(items)@).len() < gap {
                    pop_order(old(items)@).len() as int
                } else {
                    gap
                };
                &&& full == (pop_order(old(items)@).len() >= gap)
                &&& final(self).kept() == old(self).kept() + pop_order(old(items)@).take(k)
                &&& pop_order(final(items)@) == pop_order(old(items)@).skip(k)
            }),
    {
        while self.vec.len < self.tail_start
            invariant
                self.wf(),
                self.front == self.back == self.tail_start == old(self).tail_start,
                self.tail_len == old(self).tail_len,
                self.tail() == old(self).tail(),
                *final(self.parent()) == *final(old(self).parent()),
                old(self).kept().len() <= self.kept().len() <= self.tail_start,
                ({
                    let k = self.kept().len() - old(self).kept().len();
                    &&& k <= pop_order(old(items)@).len()
                    &&& self.kept() == old(self).kept() + pop_order(old(items)@).take(k)
                    &&& pop_order(items@) == pop_order(old(items)@).skip(k)
                }),
            decreases self.tail_start - self.vec.len,
        {
            let ghost ib = items@;
            let ghost k0 = self.kept().len() - old(self).kept().len();
            let ghost po = pop_order(old(items)@);
            match items.pop() {
                Some(x) => {
                    let ghost before = self.kept();
                    assert(pop_order(ib)[0] == x);
                    assert(po.skip(k0)[0] == x);
                    assert(ib.len() > 0);
                    assert(pop_order(ib).len() == ib.len());
                    assert(po.skip(k0).len() == po.len() - k0);
                    assert(k0 < po.len());
                    assert(po[k0] == x);
                    self.vec.data[self.vec.len] = Some(x);
                    self.vec.len = self.vec.len + 1;
                    assert(self.kept() =~= before.push(x));
                    assert(self.tail() =~= old(self).tail());
                    assert(po.take(k0 + 1) =~= po.take(k0).push(x));
                    assert(pop_order(items@) =~= pop_order(ib).skip(1));
                    assert(pop_order(ib).skip(1) =~= po.skip(k0 + 1));
                },
                None => {
                    assert(po.take(k0) =~= po);
                    return false;
                },
            }
        }
        true
    }

    /// Moves the tail `additional` slots up, to make room for more elements before it.
    pub(crate) fn move_tail(&mut self, additional: usize)
        requires
            old(self).wf(),
            old(self).front == old(self).back == old(self).tail_start,
            old(self).tail_start + additional + old(self).tail_len <= N,
        ensures
            final(self).wf(),
            final(self).tail_start == old(self).tail_start + additional,
            final(self).front == final(self).back == final(self).tail_start,
            final(self).tail_len == old(self).tail_len,
            final(self).tail() == old(self).tail(),
            final(self).kept() == old(self).kept(),
            *final(final(self).parent()) == *final(old(self).parent()),
    {
        let ts = self.tail_start;
        let tl = self.tail_len;
        let mut i: usize = tl;
        while i > 0
            invariant
                0 <= i <= tl,
                ts == self.tail_start == old(self).tail_start,
                tl == self.tail_len == old(self).tail_len,
                ts + additional + tl <= N,
                self.front == self.back == ts,
                self.vec.len == old(self).vec.len,
                *final(self.parent()) == *final(old(self).parent()),
                forall|k: int| 0 <= k < ts ==> #[trigger] self.vec.data@[k] == old(self).vec.data@[k],
                forall|k: int| ts <= k < ts + i ==> #[trigger] self.vec.data@[k] == old(self).vec.data@[k],
                self.vec.vacant(ts + i, ts + additional + i),
                forall|k: int|
                    ts + additional + i <= k < ts + additional + tl ==> #[trigger] self.vec.data@[k]
                        == old(self).vec.data@[k - additional],
                self.vec.vacant(ts + additional + tl, N as int),
            decreases i,
        {
            let moved = self.vec.data[ts + i - 1].take();
            self.vec.data[ts + additional + i - 1] = moved;
            i = i - 1;
        }
        self.tail_start = ts + additional;
        self.front = self.tail_start;
        self.back = self.tail_start;
        assert(self.tail() =~= old(self).tail());
        assert(self.kept() =~= old(self).kept());
    }
}

} // verus!
