//! Marks that say which elements of a sequence a filtering pass keeps.

use vstd::prelude::*;
use vstd::std_specs::cmp::PartialEqSpec;

verus! {

/// The elements of `s` whose mark is `true`, in order.
pub open spec fn select<T>(s: Seq<T>, marks: Seq<bool>) -> Seq<T>
    decreases s.len(),
{
    if s.len() == 0 {
        Seq::empty()
    } else {
        let rest = select(s.drop_last(), marks.drop_last());
        if marks.last() {
            rest.push(s.last())
        } else {
            rest
        }
    }
}

/// The last element that `marks` keeps among the first `i` elements of `s`.
pub open spec fn last_kept<T>(s: Seq<T>, marks: Seq<bool>, i: int) -> T {
    select(s.take(i), marks.take(i)).last()
}

/// Marks of a run-collapsing pass over `s`: one per element, and the first is kept.
pub open spec fn run_marks<T>(s: Seq<T>, marks: Seq<bool>) -> bool {
    &&& marks.len() == s.len()
    &&& s.len() > 0 ==> marks[0]
}

/// Marking one more element extends the selection by it exactly when it is marked.
pub(crate) proof fn lemma_select_step<T>(s: Seq<T>, marks: Seq<bool>, i: int, keep: bool)
    requires
        0 <= i < s.len(),
        marks.len() == i,
    ensures
        select(s.take(i + 1), marks.push(keep)) == if keep {
            select(s.take(i), marks).push(s[i])
        } else {
            select(s.take(i), marks)
        },
{
    assert(s.take(i + 1).drop_last() =~= s.take(i));
    assert(marks.push(keep).drop_last() =~= marks);
}

/// The last element that `marks` keeps is an element of `s`.
pub(crate) proof fn lemma_select_last_from<T>(s: Seq<T>, marks: Seq<bool>)
    requires
        marks.len() == s.len(),
        select(s, marks).len() > 0,
    ensures
        exists|j: int| 0 <= j < s.len() && select(s, marks).last() == #[trigger] s[j],
    decreases s.len(),
{
    if marks.last() {
        assert(select(s, marks).last() == s[s.len() - 1]);
    } else {
        lemma_select_last_from(s.drop_last(), marks.drop_last());
        let j = choose|j: int|
            0 <= j < s.drop_last().len() && select(s.drop_last(), marks.drop_last()).last()
                == #[trigger] s.drop_last()[j];
        assert(s.drop_last()[j] == s[j]);
    }
}

/// `same` is what comparing the keys that `key` gives for `x` and for `y` may return.
pub open spec fn same_key<T, K: PartialEq, F: Fn(&T) -> K>(key: F, x: T, y: T, same: bool) -> bool {
    exists|kx: K, ky: K|
        #![trigger call_ensures(key, (&x,), kx), call_ensures(key, (&y,), ky)]
        {
            &&& call_ensures(key, (&x,), kx)
            &&& call_ensures(key, (&y,), ky)
            &&& K::obeys_eq_spec() ==> (same == kx.eq_spec(&ky))
        }
}

/// `f` may be called on `x`.
pub(crate) open spec fn key_requires<T, K, F: Fn(&T) -> K>(f: &F, x: &T) -> bool {
    call_requires(*f, (x,))
}

/// `r` may be what `f` returns for `x`.
pub(crate) open spec fn key_ensures<T, K, F: Fn(&T) -> K>(f: &F, x: &T, r: K) -> bool {
    call_ensures(*f, (x,), r)
}

/// Calls the key function behind a shared reference.
pub(crate) fn call_key<T, K, F: Fn(&T) -> K>(f: &F, x: &T) -> (r: K)
    requires
        key_requires(f, x),
    ensures
        key_ensures(f, x, r),
{
    f(x)
}

} // verus!
