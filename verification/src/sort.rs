//! Chronological, stable ordering of the event stream.

use vstd::prelude::*;
use vstd::multiset::Multiset;
use crate::event::Event;
use crate::event::event_time;

verus! {

/// `e` placed into `s` after every element whose key is less than or equal
/// to `e`'s: the insertion step of a stable insertion sort.
pub open spec fn insert_stable(s: Seq<Event>, e: Event) -> Seq<Event>
    decreases s.len(),
{
    if s.len() == 0 {
        seq![e]
    } else if event_time(s.last()) <= event_time(e) {
        s.push(e)
    } else {
        insert_stable(s.drop_last(), e).push(s.last())
    }
}

/// The stable sort of `s` by event time: elements in key order, ties kept
/// in their original relative order.  Defined as the left-to-right fold of
/// `insert_stable`, which pins the result down completely.
pub open spec fn stable_sort(s: Seq<Event>) -> Seq<Event>
    decreases s.len(),
{
    if s.len() == 0 {
        Seq::empty()
    } else {
        insert_stable(stable_sort(s.drop_last()), s.last())
    }
}

/// `s` is ordered by event time, ascending.
pub open spec fn sorted_by_time(s: Seq<Event>) -> bool {
    forall|i: int, j: int|
        0 <= i < j < s.len() ==> event_time(#[trigger] s[i]) <= event_time(#[trigger] s[j])
}

/// Inserting keeps the multiset of elements, merely adding `e`.
proof fn lemma_insert_stable_multiset(s: Seq<Event>, e: Event)
    ensures
        insert_stable(s, e).to_multiset() == s.to_multiset().insert(e),
    decreases s.len(),
{
    broadcast use vstd::seq_lib::group_to_multiset_ensures;

    if s.len() == 0 {
        assert(seq![e] == Seq::<Event>::empty().push(e));
        assert(Seq::<Event>::empty().push(e).to_multiset() == Seq::<Event>::empty()
            .to_multiset()
            .insert(e));
        assert(Seq::<Event>::empty().to_multiset() == Multiset::<Event>::empty());
    } else if event_time(s.last()) <= event_time(e) {
    } else {
        lemma_insert_stable_multiset(s.drop_last(), e);
        assert(s.drop_last().push(s.last()) == s);
        broadcast use vstd::multiset::group_multiset_axioms;

        assert(s.drop_last().to_multiset().insert(e).insert(s.last())
            =~= s.drop_last().to_multiset().insert(s.last()).insert(e));
    }
}

/// The stable sort is a permutation: it keeps the multiset of events.
pub proof fn lemma_stable_sort_multiset(s: Seq<Event>)
    ensures
        stable_sort(s).to_multiset() == s.to_multiset(),
    decreases s.len(),
{
    broadcast use vstd::seq_lib::group_to_multiset_ensures;

    if s.len() == 0 {
    } else {
        lemma_stable_sort_multiset(s.drop_last());
        lemma_insert_stable_multiset(stable_sort(s.drop_last()), s.last());
        assert(s.drop_last().push(s.last()) == s);
    }
}

/// Inserting into an ordered sequence leaves it ordered.
proof fn lemma_insert_stable_sorted(s: Seq<Event>, e: Event)
    requires
        sorted_by_time(s),
    ensures
        sorted_by_time(insert_stable(s, e)),
        insert_stable(s, e).len() == s.len() + 1,
        forall|i: int|
            0 <= i < insert_stable(s, e).len() ==> event_time(#[trigger] insert_stable(s, e)[i])
                <= event_time(e) || event_time(insert_stable(s, e)[i]) <= event_time(s.last()),
    decreases s.len(),
{
    if s.len() == 0 {
    } else if event_time(s.last()) <= event_time(e) {
    } else {
        assert(sorted_by_time(s.drop_last())) by {
            assert(forall|i: int, j: int|
                0 <= i < j < s.drop_last().len() ==> event_time(#[trigger] s.drop_last()[i])
                    <= event_time(#[trigger] s.drop_last()[j])) by {
                assert(forall|i: int| 0 <= i < s.drop_last().len() ==> s.drop_last()[i] == s[i]);
            }
        }
        lemma_insert_stable_sorted(s.drop_last(), e);
    }
}

/// The stable sort is ordered by event time.
pub proof fn lemma_stable_sort_sorted(s: Seq<Event>)
    ensures
        sorted_by_time(stable_sort(s)),
        stable_sort(s).len() == s.len(),
    decreases s.len(),
{
    if s.len() == 0 {
    } else {
        lemma_stable_sort_sorted(s.drop_last());
        lemma_insert_stable_sorted(stable_sort(s.drop_last()), s.last());
    }
}

/// No two events of `s` share a sort time.
pub open spec fn distinct_times(s: Seq<Event>) -> bool {
    forall|i: int, j: int|
        0 <= i < j < s.len() ==> event_time(#[trigger] s[i]) != event_time(#[trigger] s[j])
}

/// Pairwise distinct times carry over to any sequence holding the same
/// events.
proof fn lemma_distinct_times_multiset(s1: Seq<Event>, s2: Seq<Event>)
    requires
        s1.to_multiset() == s2.to_multiset(),
        distinct_times(s1),
    ensures
        distinct_times(s2),
{
    broadcast use vstd::seq_lib::group_to_multiset_ensures;
    broadcast use vstd::multiset::group_multiset_axioms;

    assert forall|i: int, j: int| 0 <= i < j < s2.len() implies event_time(#[trigger] s2[i])
        != event_time(#[trigger] s2[j]) by {
        let a = s2[i];
        let b = s2[j];
        if a == b {
            assert(s2.remove(j).to_multiset() =~= s2.to_multiset().remove(a));
            assert(s2.remove(j)[i] == a);
            assert(s2.remove(j).contains(a));
            assert(s2.remove(j).to_multiset().count(a) > 0);
            assert(s2.to_multiset().remove(a).count(a) == s2.to_multiset().count(a)
                - Multiset::singleton(a).count(a));
            assert(Multiset::singleton(a).count(a) == 1);
            assert(s1.to_multiset().count(a) >= 2);
            assert(s1.contains(a));
            let k = choose|k: int| 0 <= k < s1.len() && s1[k] == a;
            assert(s1.remove(k).to_multiset() =~= s1.to_multiset().remove(a));
            assert(s1.remove(k).to_multiset().count(a) > 0);
            assert(s1.remove(k).contains(a));
            let l0 = choose|l: int| 0 <= l < s1.remove(k).len() && s1.remove(k)[l] == a;
            let l: int = if l0 < k {
                l0
            } else {
                l0 + 1
            };
            assert(s1[l] == a && l != k);
            assert(false);
        } else {
            if event_time(a) == event_time(b) {
                assert(s2.contains(a));
                assert(s2.to_multiset().count(a) > 0);
                assert(s1.to_multiset().count(a) > 0);
                assert(s1.contains(a));
                assert(s2.contains(b));
                assert(s2.to_multiset().count(b) > 0);
                assert(s1.to_multiset().count(b) > 0);
                assert(s1.contains(b));
                let k = choose|k: int| 0 <= k < s1.len() && s1[k] == a;
                let l = choose|l: int| 0 <= l < s1.len() && s1[l] == b;
                assert(k != l);
                assert(false);
            }
        }
    }
}

/// Two time-ordered sequences holding the same events, with all times
/// pairwise distinct, are the same sequence.
pub proof fn lemma_sorted_distinct_permutations_equal(s1: Seq<Event>, s2: Seq<Event>)
    requires
        sorted_by_time(s1),
        sorted_by_time(s2),
        distinct_times(s1),
        s1.to_multiset() == s2.to_multiset(),
    ensures
        s1 == s2,
    decreases s1.len(),
{
    broadcast use vstd::seq_lib::group_to_multiset_ensures;
    broadcast use vstd::multiset::group_multiset_axioms;

    assert(s1.len() == s1.to_multiset().len());
    assert(s2.len() == s2.to_multiset().len());
    if s1.len() == 0 {
        assert(s1 =~= s2);
    } else {
        let a = s1.last();
        let b = s2.last();
        assert(s1.contains(a));
        assert(s1.to_multiset().count(a) > 0);
        assert(s2.to_multiset().count(a) > 0);
        assert(s2.contains(a));
        assert(s2.contains(b));
        assert(s2.to_multiset().count(b) > 0);
        assert(s1.to_multiset().count(b) > 0);
        assert(s1.contains(b));
        let ia = choose|i: int| 0 <= i < s2.len() && s2[i] == a;
        let ib = choose|i: int| 0 <= i < s1.len() && s1[i] == b;
        assert(event_time(b) >= event_time(a)) by {
            assert(event_time(s2[ia]) <= event_time(s2[s2.len() - 1]));
        }
        assert(event_time(a) >= event_time(b)) by {
            assert(event_time(s1[ib]) <= event_time(s1[s1.len() - 1]));
        }
        assert(a == b) by {
            if ib < s1.len() - 1 {
                assert(event_time(s1[ib]) != event_time(s1[s1.len() - 1]));
                assert(false);
            }
        }
        assert(s1.drop_last().to_multiset() =~= s2.drop_last().to_multiset()) by {
            assert(s1.remove(s1.len() - 1) =~= s1.drop_last());
            assert(s2.remove(s2.len() - 1) =~= s2.drop_last());
            assert(s1.remove(s1.len() - 1).to_multiset() =~= s1.to_multiset().remove(a));
            assert(s2.remove(s2.len() - 1).to_multiset() =~= s2.to_multiset().remove(a));
        }
        assert(sorted_by_time(s1.drop_last()) && distinct_times(s1.drop_last())) by {
            assert(forall|i: int| 0 <= i < s1.len() - 1 ==> s1.drop_last()[i] == s1[i]);
        }
        assert(sorted_by_time(s2.drop_last())) by {
            assert(forall|i: int| 0 <= i < s2.len() - 1 ==> s2.drop_last()[i] == s2[i]);
        }
        lemma_sorted_distinct_permutations_equal(s1.drop_last(), s2.drop_last());
        assert(s1 =~= s2) by {
            assert(forall|i: int| 0 <= i < s1.len() - 1 ==> s1[i] == s1.drop_last()[i]);
            assert(forall|i: int| 0 <= i < s2.len() - 1 ==> s2[i] == s2.drop_last()[i]);
        }
    }
}

/// With pairwise distinct event times, every ordering of one collection of
/// events sorts to the same sequence — so the whole pipeline, whose output
/// is a function of the sorted stream, gives identical results on any
/// permutation of its input.
pub proof fn lemma_sort_of_permutation_equal(e1: Seq<Event>, e2: Seq<Event>)
    requires
        e1.to_multiset() == e2.to_multiset(),
        distinct_times(e1),
    ensures
        stable_sort(e1) == stable_sort(e2),
{
    lemma_stable_sort_sorted(e1);
    lemma_stable_sort_sorted(e2);
    lemma_stable_sort_multiset(e1);
    lemma_stable_sort_multiset(e2);
    lemma_distinct_times_multiset(e1, stable_sort(e1));
    lemma_sorted_distinct_permutations_equal(stable_sort(e1), stable_sort(e2));
}

/// Where every element from `pos` on has a key strictly above `e`'s and the
/// element before `pos` (if any) has a key at most `e`'s, the stable insert
/// is exactly the positional insert at `pos`.
proof fn lemma_insert_stable_at(s: Seq<Event>, e: Event, pos: int)
    requires
        0 <= pos <= s.len(),
        forall|i: int| pos <= i < s.len() ==> event_time(#[trigger] s[i]) > event_time(e),
        pos > 0 ==> event_time(s[pos - 1]) <= event_time(e),
    ensures
        insert_stable(s, e) == s.insert(pos, e),
    decreases s.len(),
{
    if s.len() == 0 {
        assert(insert_stable(s, e) =~= s.insert(0, e));
    } else if pos == s.len() {
        assert(insert_stable(s, e) == s.push(e));
        assert(s.push(e) =~= s.insert(pos, e));
    } else {
        assert(event_time(s.last()) > event_time(e));
        lemma_insert_stable_at(s.drop_last(), e, pos);
        assert(insert_stable(s, e) == insert_stable(s.drop_last(), e).push(s.last()));
        assert(s.drop_last().insert(pos, e).push(s.last()) =~= s.insert(pos, e));
    }
}

/// Sorts the events chronologically; ties keep their original relative
/// order.  The result is exactly the stable sort of the input: a
/// permutation of the input, ordered by event time.
pub fn sort_events(events: &Vec<Event>) -> (out: Vec<Event>)
    ensures
        out@ == stable_sort(events@),
        sorted_by_time(out@),
        out@.to_multiset() == events@.to_multiset(),
{
    proof {
        lemma_stable_sort_sorted(events@);
        lemma_stable_sort_multiset(events@);
    }
    let n = events.len();
    let mut out: Vec<Event> = Vec::new();
    let mut i: usize = 0;
    while i < n
        invariant
            0 <= i <= n,
            n == events@.len(),
            out@ == stable_sort(events@.take(i as int)),
            out@.len() == i,
        decreases n - i,
    {
        let e = events[i];
        let key = crate::event::exec_event_time(&e);
        let mut j: usize = out.len();
        while j > 0 && crate::event::exec_event_time(&out[j - 1]) > key
            invariant
                0 <= j <= out@.len(),
                forall|k: int| j <= k < out@.len() ==> event_time(#[trigger] out@[k]) > key as i64,
            decreases j,
        {
            j -= 1;
        }
        proof {
            lemma_insert_stable_at(out@, e, j as int);
            assert(events@.take(i as int + 1).drop_last() =~= events@.take(i as int));
            assert(events@.take(i as int + 1).last() == events@[i as int]);
        }
        out.insert(j, e);
        i += 1;
    }
    proof {
        assert(events@.take(n as int) =~= events@);
    }
    out
}

} // verus!
