use vstd::prelude::*;

use crate::array_vec::ArrayVec;
use crate::drain::{into_pop_order, pop_order, Drain};

verus! {

/// A guard that removes a range of elements from an `ArrayVec`, hands them out, and on
/// release puts replacement elements in their place.
pub struct Splice<'a, T, const N: usize> {
    pub(crate) drain: Drain<'a, T, N>,
    /// The replacement elements still to be placed, the next one last.
    pub(crate) replace_with: Vec<T>,
}

impl<'a, T, const N: usize> Splice<'a, T, N> {
    /// The layout of slots of the inner removal guard.
    pub closed spec fn wf(&self) -> bool {
        self.drain.wf()
    }

    /// The elements before the replaced range, which the vector still shows.
    pub closed spec fn kept(&self) -> Seq<T> {
        self.drain.kept()
    }

    /// The elements of the range that have not been handed out yet.
    pub closed spec fn remaining(&self) -> Seq<T> {
        self.drain.remaining()
    }

    /// The elements after the replaced range.
    pub closed spec fn tail(&self) -> Seq<T> {
        self.drain.tail()
    }

    /// The elements that release puts in place of the range, in order.
    pub closed spec fn replacement(&self) -> Seq<T> {
        pop_order(self.replace_with@)
    }

    /// The vector this guard works on.
    pub closed spec fn parent(&self) -> &'a mut ArrayVec<T, N> {
        self.drain.parent()
    }

    /// Hands out the first removed element that is left.
    pub fn next(&mut self) -> (r: Option<T>)
        requires
            old(self).wf(),
        ensures
            final(self).wf(),
            final(self).kept() == old(self).kept(),
            final(self).tail() == old(self).tail(),
            final(self).replacement() == old(self).replacement(),
            *final(final(self).parent()) == *final(old(self).parent()),
            old(self).remaining().len() == 0 ==> r is None
                && final(self).remaining() == old(self).remaining(),
            old(self).remaining().len() > 0 ==> r == Some(old(self).remaining()[0])
                && final(self).remaining() == old(self).remaining().drop_first(),
    {
        self.drain.next()
    }

    /// Hands out the last removed element that is left.
    pub fn next_back(&mut self) -> (r: Option<T>)
        requires
            old(self).wf(),
        ensures
            final(self).wf(),
            final(self).kept() == old(self).kept(),
            final(self).tail() == old(self).tail(),
            final(self).replacement() == old(self).replacement(),
            *final(final(self).parent()) == *final(old(self).parent()),
            old(self).remaining().len() == 0 ==> r is None
                && final(self).remaining() == old(self).remaining(),
            old(self).remaining().len() > 0 ==> r == Some(old(self).remaining().last())
                && final(self).remaining() == old(self).remaining().drop_last(),
    {
        self.drain.next_back()
    }

    /// The number of removed elements left to hand out.
    pub fn len(&self) -> (r: usize)
        requires
            self.wf(),
        ensures
            r == self.remaining().len(),
    {
        self.drain.len()
    }

    /// Whether every removed element has been handed out.
    pub fn is_empty(&self) -> (r: bool)
        requires
            self.wf(),
        ensures
            r == (self.remaining().len() == 0),
    {
        self.drain.is_empty()
    }

    /// Ends the replacement: drops the removed elements left to hand out, puts as many
    /// replacement elements in their place as the capacity allows, drops the others,
    /// and gives the vector back its tail and its length.
    pub fn release(self)
        requires
            self.wf(),
        ensures
            final(self.parent()).wf(),
            ({
                let room = N - self.kept().len() - self.tail().len();
                let count = if self.replacement().len() < room {
                    self.replacement().len() as int
                } else {
                    room
                };
                final(self.parent())@ == self.kept() + self.replacement().take(count) + self.tail()
            }),
    {
        let Splice { drain, replace_with } = self;
        let mut d = drain;
        let mut items = replace_with;
        d.drop_remaining();
        let ghost k0 = d.kept();
        let ghost p = pop_order(items@);
        let ghost gap = d.tail_start - k0.len();
        let ghost room = N - k0.len() - d.tail().len();
        let ghost count = if p.len() < room {
            p.len() as int
        } else {
            room
        };
        let full = d.fill(&mut items);
        if full && items.len() > 0 {
            let spare = N - (d.tail_start + d.tail_len);
            let additional = if items.len() < spare {
                items.len()
            } else {
                spare
            };
            d.move_tail(additional);
            assert(d.kept() == k0 + p.take(gap));
            let _ = d.fill(&mut items);
            assert(p.take(gap) + p.skip(gap).take(additional as int) =~= p.take(gap + additional));
            assert(gap + additional == count);
            assert(d.kept() == k0 + p.take(count));
        } else {
            assert(room >= gap);
            assert(p.len() <= gap) by {
                if full {
                    assert(pop_order(items@).len() == items@.len());
                }
            }
            assert(count == p.len());
            assert(p.take(p.len() as int) =~= p);
            assert(d.kept() == k0 + p.take(count));
        }
        assert(d.tail() == self.tail());
        d.release();
    }
}

impl<T, const N: usize> ArrayVec<T, N> {
    /// Starts replacing the elements in `range` by `replace_with`; `None` when the range
    /// is reversed or reaches past the end. The removed elements can be taken from the
    /// guard; the replacement goes in when it is released.
    pub fn splice(&mut self, range: core::ops::Range<usize>, replace_with: Vec<T>) -> (r: Option<
        Splice<'_, T, N>,
    >)
        requires
            old(self).wf(),
        ensures
            !(range.start <= range.end <= old(self)@.len()) ==> r is None && *final(self) == *old(
                self),
            range.start <= range.end <= old(self)@.len() ==> (r matches Some(s) && s.wf()
                && s.kept() == old(self)@.take(range.start as int)
                && s.remaining() == old(self)@.subrange(range.start as int, range.end as int)
                && s.tail() == old(self)@.skip(range.end as int)
                && s.replacement() == replace_with@
                && *final(self) == *final(s.parent())),
    {
        match self.drain(range) {
            None => None,
            Some(drain) => {
                let stack = into_pop_order(replace_with);
                Some(Splice { drain, replace_with: stack })
            },
        }
    }
}

} // verus!
