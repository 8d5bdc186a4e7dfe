use vstd::prelude::*;

verus! {

/// Popping the last element and pushing it back gives the sequence one started with.
pub proof fn lemma_pop_push_round_trip<T>(s: Seq<T>)
    requires
        s.len() > 0,
    ensures
        s.drop_last().push(s.last()) == s,
{
    assert(s.drop_last().push(s.last()) =~= s);
}

/// Draining `a..b` hands out exactly the elements of that range, and what the vector
/// holds after the release, the elements before `a` followed by those after `b`, is the
/// original with the range cut out: the elements before `a` stay where they were and
/// every later one moves down by the length of the range, in its order.
pub proof fn lemma_drain_law<T>(s: Seq<T>, a: int, b: int)
    requires
        0 <= a <= b <= s.len(),
    ensures
        s.take(a) + s.subrange(a, b) + s.skip(b) == s,
        (s.take(a) + s.skip(b)).len() == s.len() - (b - a),
        forall|i: int| 0 <= i < a ==> #[trigger] (s.take(a) + s.skip(b))[i] == s[i],
        forall|i: int|
            a <= i < s.len() - (b - a) ==> #[trigger] (s.take(a) + s.skip(b))[i] == s[i + (b
                - a)],
{
    assert(s.take(a) + s.subrange(a, b) + s.skip(b) =~= s);
}

} // verus!
