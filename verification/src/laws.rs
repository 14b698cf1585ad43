//! Laws of the aggregation: order-invariance of the independent fields,
//! the bottle-session rule, the date-boundary reset, and the dropping of
//! unfinished sleep sessions.

use vstd::prelude::*;
use crate::event::Event;
use crate::event::day_of;
use crate::aggregate::AggModel;
use crate::aggregate::agg_after;
use crate::aggregate::bucket_of;
use crate::aggregate::day_sum;
use crate::aggregate::merged_with_prev;
use crate::aggregate::step_agg;
use crate::sum::SumModel;

verus! {

/// `a` and `b` agree on every field except the session count.
pub open spec fn same_but_sessions(a: SumModel, b: SumModel) -> bool {
    &&& a.total_diapers == b.total_diapers
    &&& a.poo_diapers == b.poo_diapers
    &&& a.bottle_oz == b.bottle_oz
    &&& a.breast_duration == b.breast_duration
    &&& a.pumping_oz == b.pumping_oz
    &&& a.tummy_time_duration == b.tummy_time_duration
    &&& a.max_sleep_duration == b.max_sleep_duration
    &&& a.total_sleep_duration == b.total_sleep_duration
}

/// The two daily maps cover the same days and agree everywhere on every
/// field except the session count.
pub open spec fn days_same_but_sessions(m1: Map<int, SumModel>, m2: Map<int, SumModel>) -> bool {
    &&& m1.dom() == m2.dom()
    &&& forall|d: int| #[trigger] m1.dom().contains(d) ==> same_but_sessions(m1[d], m2[d])
}

/// A sleep session with no recorded end leaves the aggregation state
/// entirely untouched: it is never bucketed and never counted, so neither
/// `total_sleep_duration` nor `max_sleep_duration` (nor anything else) can
/// see it.
pub proof fn lemma_sleep_without_end_ignored(st: AggModel, start: i64, duration: u64)
    ensures
        step_agg(st, Event::Sleep { start, end: None, duration }) == st,
{
}

/// The bottle-session rule, exactly: a bottle feeding adds its ounces to
/// the day unconditionally, and raises the day's session count by one
/// unless a previous bottle exists, fell on the same calendar day, and
/// lies strictly within `MERGE_GAP_SECS` seconds back — in which case it
/// merges into the running session and the increment is undone.  The
/// previous-bottle state always becomes this bottle's time.
pub proof fn lemma_bottle_session_rule(st: AggModel, time: i64, ounces: u64)
    ensures
        ({
            let d = day_of(time);
            let before = day_sum(st.days, d);
            let after = step_agg(st, Event::Bottle { time, ounces }).days[d];
            &&& after.bottle_sessions == before.bottle_sessions + (if merged_with_prev(
                st.prev_bottle,
                time,
            ) {
                0int
            } else {
                1int
            })
            &&& after.bottle_oz == before.bottle_oz + ounces
            &&& same_but_sessions(
                after,
                SumModel { bottle_oz: before.bottle_oz + ounces, ..before },
            )
        }),
        step_agg(st, Event::Bottle { time, ounces }).prev_bottle == Some(time),
{
}

/// Bottle-session counting resets across a date boundary: when the
/// previous bottle fell on a different calendar day, the current bottle
/// always counts a new session, regardless of the elapsed time.
pub proof fn lemma_bottle_new_day_counts(st: AggModel, time: i64, ounces: u64)
    requires
        st.prev_bottle matches Some(p) ==> day_of(p) != day_of(time),
    ensures
        step_agg(st, Event::Bottle { time, ounces }).days[day_of(time)].bottle_sessions == day_sum(
            st.days,
            day_of(time),
        ).bottle_sessions + 1,
        step_agg(st, Event::Bottle { time, ounces }).prev_bottle == Some(time),
{
}

/// An event without a bucket (a sleep session with no recorded end, or an
/// ignored kind) can be removed from anywhere in the stream without
/// changing the aggregation state at all.
proof fn lemma_unbucketed_event_removable(s: Seq<Event>, i: int)
    requires
        0 <= i < s.len(),
        bucket_of(s[i]) is None,
    ensures
        agg_after(s.remove(i)) == agg_after(s),
    decreases s.len(),
{
    if i == s.len() - 1 {
        assert(s.remove(i) =~= s.drop_last());
    } else {
        assert(s.remove(i).drop_last() =~= s.drop_last().remove(i));
        assert(s.remove(i).last() == s.last());
        lemma_unbucketed_event_removable(s.drop_last(), i);
    }
}

/// Sleep sessions lacking an end time never appear in any aggregate:
/// removing one from anywhere in the stream leaves the aggregation state —
/// every daily total, `total_sleep_duration` and `max_sleep_duration`
/// included, and the previous-bottle state — exactly unchanged.
pub proof fn lemma_endless_sleep_removable(s: Seq<Event>, i: int)
    requires
        0 <= i < s.len(),
        s[i] matches Event::Sleep { end: None, .. },
    ensures
        agg_after(s.remove(i)) == agg_after(s),
{
    lemma_unbucketed_event_removable(s, i);
}

/// Stably inserting an event without a bucket into a stream leaves the
/// aggregation state unchanged, wherever its time places it.
proof fn lemma_insert_stable_unbucketed(s: Seq<Event>, e: Event)
    requires
        bucket_of(e) is None,
    ensures
        agg_after(crate::sort::insert_stable(s, e)) == agg_after(s),
    decreases s.len(),
{
    if s.len() == 0 {
        assert(seq![e].drop_last() =~= Seq::<Event>::empty());
        assert(seq![e].last() == e);
        assert(agg_after(seq![e]) == step_agg(agg_after(Seq::<Event>::empty()), e));
        assert(step_agg(agg_after(Seq::<Event>::empty()), e) == agg_after(
            Seq::<Event>::empty(),
        ));
    } else if crate::event::event_time(s.last()) <= crate::event::event_time(e) {
        assert(s.push(e).drop_last() =~= s);
        assert(s.push(e).last() == e);
        assert(agg_after(s.push(e)) == step_agg(agg_after(s), e));
        assert(step_agg(agg_after(s), e) == agg_after(s));
    } else {
        let x = crate::sort::insert_stable(s.drop_last(), e);
        lemma_insert_stable_unbucketed(s.drop_last(), e);
        assert(crate::sort::insert_stable(s, e) == x.push(s.last()));
        assert(x.push(s.last()).drop_last() =~= x);
        assert(x.push(s.last()).last() == s.last());
        assert(agg_after(x.push(s.last())) == step_agg(agg_after(x), s.last()));
        assert(agg_after(s) == step_agg(agg_after(s.drop_last()), s.last()));
    }
}

/// A sleep session with no recorded end added to the event collection
/// changes nothing in the whole pipeline: after the chronological sort,
/// the aggregation state is the same as without it.
pub proof fn lemma_endless_sleep_in_pipeline(events: Seq<Event>, start: i64, duration: u64)
    ensures
        agg_after(
            crate::sort::stable_sort(
                events.push(Event::Sleep { start, end: None, duration }),
            ),
        ) == agg_after(crate::sort::stable_sort(events)),
{
    let e = Event::Sleep { start, end: None, duration };
    assert(events.push(e).drop_last() =~= events);
    assert(events.push(e).last() == e);
    lemma_insert_stable_unbucketed(crate::sort::stable_sort(events), e);
}

/// The events the aggregation can see at all: those with a bucket.
pub open spec fn keep_bucketed() -> spec_fn(Event) -> bool {
    |ev: Event| bucket_of(ev) is Some
}

/// Every element of the filtered stream stands somewhere in the stream.
proof fn lemma_filter_element_of(s: Seq<Event>, i: int)
    requires
        0 <= i < s.filter(keep_bucketed()).len(),
    ensures
        exists|j: int| 0 <= j < s.len() && s[j] == s.filter(keep_bucketed())[i],
    decreases s.len(),
{
    reveal_with_fuel(Seq::<Event>::filter, 2);
    if s.len() == 0 {
    } else {
        let sub = s.drop_last().filter(keep_bucketed());
        if i < sub.len() {
            lemma_filter_element_of(s.drop_last(), i);
            let j = choose|j: int| 0 <= j < s.drop_last().len() && s.drop_last()[j] == sub[i];
            assert(s[j] == s.filter(keep_bucketed())[i]);
        } else {
            assert(s[s.len() - 1] == s.filter(keep_bucketed())[i]);
        }
    }
}

/// Inserting a bucket-less event stably leaves the filtered stream as it
/// was.
proof fn lemma_filter_insert_stable_unbucketed(s: Seq<Event>, e: Event)
    requires
        bucket_of(e) is None,
    ensures
        crate::sort::insert_stable(s, e).filter(keep_bucketed()) == s.filter(keep_bucketed()),
    decreases s.len(),
{
    reveal_with_fuel(Seq::<Event>::filter, 2);
    assert(!keep_bucketed()(e));
    if s.len() == 0 {
        assert(seq![e].drop_last() =~= Seq::<Event>::empty());
        assert(seq![e].last() == e);
    } else if crate::event::event_time(s.last()) <= crate::event::event_time(e) {
        assert(s.push(e).drop_last() =~= s);
        assert(s.push(e).last() == e);
    } else {
        let x = crate::sort::insert_stable(s.drop_last(), e);
        lemma_filter_insert_stable_unbucketed(s.drop_last(), e);
        assert(x.push(s.last()).drop_last() =~= x);
        assert(x.push(s.last()).last() == s.last());
    }
}

/// Stable insertion of a bucketed event commutes with dropping the
/// bucket-less ones, on a time-ordered stream.
proof fn lemma_filter_insert_stable_commute(s: Seq<Event>, e: Event)
    requires
        crate::sort::sorted_by_time(s),
        bucket_of(e) is Some,
    ensures
        crate::sort::insert_stable(s, e).filter(keep_bucketed()) == crate::sort::insert_stable(
            s.filter(keep_bucketed()),
            e,
        ),
    decreases s.len(),
{
    reveal_with_fuel(Seq::<Event>::filter, 2);
    if s.len() == 0 {
        assert(seq![e].drop_last() =~= Seq::<Event>::empty());
        assert(seq![e].last() == e);
    } else if crate::event::event_time(s.last()) <= crate::event::event_time(e) {
        assert(s.push(e).drop_last() =~= s);
        assert(s.push(e).last() == e);
        let f = s.filter(keep_bucketed());
        assert(s.push(e).filter(keep_bucketed()) == f.push(e));
        if f.len() == 0 {
        } else {
            lemma_filter_element_of(s, f.len() - 1);
            let j = choose|j: int| 0 <= j < s.len() && s[j] == f[f.len() - 1];
            assert(crate::event::event_time(f.last()) <= crate::event::event_time(s.last()));
        }
    } else {
        let x = crate::sort::insert_stable(s.drop_last(), e);
        assert(crate::sort::sorted_by_time(s.drop_last())) by {
            assert(forall|i: int| 0 <= i < s.len() - 1 ==> s.drop_last()[i] == s[i]);
        }
        lemma_filter_insert_stable_commute(s.drop_last(), e);
        assert(x.push(s.last()).drop_last() =~= x);
        assert(x.push(s.last()).last() == s.last());
        let fd = s.drop_last().filter(keep_bucketed());
        if keep_bucketed()(s.last()) {
            assert(s.filter(keep_bucketed()) == fd.push(s.last()));
            assert(fd.push(s.last()).last() == s.last());
            assert(fd.push(s.last()).drop_last() =~= fd);
            assert(crate::sort::insert_stable(fd.push(s.last()), e) == crate::sort::insert_stable(
                fd,
                e,
            ).push(s.last()));
        } else {
            assert(s.filter(keep_bucketed()) == fd);
        }
    }
}

/// The chronological sort commutes with dropping the bucket-less events.
proof fn lemma_stable_sort_filter_commute(s: Seq<Event>)
    ensures
        crate::sort::stable_sort(s).filter(keep_bucketed()) == crate::sort::stable_sort(
            s.filter(keep_bucketed()),
        ),
    decreases s.len(),
{
    reveal_with_fuel(Seq::<Event>::filter, 2);
    if s.len() == 0 {
    } else {
        let x = crate::sort::stable_sort(s.drop_last());
        crate::sort::lemma_stable_sort_sorted(s.drop_last());
        lemma_stable_sort_filter_commute(s.drop_last());
        let fd = s.drop_last().filter(keep_bucketed());
        if keep_bucketed()(s.last()) {
            lemma_filter_insert_stable_commute(x, s.last());
            assert(s.filter(keep_bucketed()) == fd.push(s.last()));
            assert(fd.push(s.last()).drop_last() =~= fd);
            assert(fd.push(s.last()).last() == s.last());
        } else {
            lemma_filter_insert_stable_unbucketed(x, s.last());
            assert(s.filter(keep_bucketed()) == fd);
        }
    }
}

/// Dropping the bucket-less events from a stream leaves the aggregation
/// state unchanged.
proof fn lemma_agg_filter(s: Seq<Event>)
    ensures
        agg_after(s.filter(keep_bucketed())) == agg_after(s),
    decreases s.len(),
{
    reveal_with_fuel(Seq::<Event>::filter, 2);
    if s.len() == 0 {
    } else {
        lemma_agg_filter(s.drop_last());
        let fd = s.drop_last().filter(keep_bucketed());
        if keep_bucketed()(s.last()) {
            assert(s.filter(keep_bucketed()) == fd.push(s.last()));
            assert(fd.push(s.last()).drop_last() =~= fd);
            assert(fd.push(s.last()).last() == s.last());
            assert(agg_after(fd.push(s.last())) == step_agg(agg_after(fd), s.last()));
        } else {
            assert(s.filter(keep_bucketed()) == fd);
        }
    }
}

/// Sleep sessions lacking an end never appear in any aggregate, wherever
/// they stand in the input: two streams that agree once their bucket-less
/// events (end-less sleeps and ignored kinds) are dropped reach the same
/// aggregation state after the chronological sort.
pub proof fn lemma_pipeline_ignores_unbucketed(e1: Seq<Event>, e2: Seq<Event>)
    requires
        e1.filter(keep_bucketed()) == e2.filter(keep_bucketed()),
    ensures
        agg_after(crate::sort::stable_sort(e1)) == agg_after(crate::sort::stable_sort(e2)),
{
    lemma_stable_sort_filter_commute(e1);
    lemma_stable_sort_filter_commute(e2);
    lemma_agg_filter(crate::sort::stable_sort(e1));
    lemma_agg_filter(crate::sort::stable_sort(e2));
}

/// Adding a bucket-less event anywhere in the stream leaves the filtered
/// stream — and so, by `lemma_pipeline_ignores_unbucketed`, the whole
/// pipeline's aggregation state — unchanged.
pub proof fn lemma_filter_insert_unbucketed(s: Seq<Event>, i: int, e: Event)
    requires
        0 <= i <= s.len(),
        bucket_of(e) is None,
    ensures
        s.insert(i, e).filter(keep_bucketed()) == s.filter(keep_bucketed()),
{
    broadcast use vstd::prelude::Seq::filter_distributes_over_add;

    reveal_with_fuel(Seq::<Event>::filter, 2);
    assert(s.insert(i, e) =~= s.take(i) + (seq![e] + s.skip(i)));
    assert(seq![e].filter(keep_bucketed()) =~= Seq::<Event>::empty()) by {
        assert(!keep_bucketed()(e));
        assert(seq![e].drop_last() =~= Seq::<Event>::empty());
        assert(seq![e].last() == e);
    }
    assert(s =~= s.take(i) + s.skip(i));
    assert(s.insert(i, e).filter(keep_bucketed()) == s.take(i).filter(keep_bucketed()) + (seq![
        e,
    ].filter(keep_bucketed()) + s.skip(i).filter(keep_bucketed())));
    assert(s.insert(i, e).filter(keep_bucketed()) =~= (s.take(i) + s.skip(i)).filter(
        keep_bucketed(),
    ));
}

/// One aggregation step keeps every field but the session count in step:
/// states whose daily maps agree outside the session counts still do after
/// the same event, whatever the two previous-bottle states are.
proof fn lemma_step_preserves_same_but_sessions(st1: AggModel, st2: AggModel, e: Event)
    requires
        days_same_but_sessions(st1.days, st2.days),
    ensures
        days_same_but_sessions(step_agg(st1, e).days, step_agg(st2, e).days),
{
    match bucket_of(e) {
        None => {},
        Some(d) => {
            assert(step_agg(st1, e).days.dom() =~= step_agg(st2, e).days.dom());
        },
    }
}

/// Swapping two adjacent events changes nothing outside the session
/// counts: one two-event step pair, taken in either order from one state,
/// yields daily maps that agree on every other field.
proof fn lemma_two_step_swap(st: AggModel, a: Event, b: Event)
    ensures
        days_same_but_sessions(
            step_agg(step_agg(st, a), b).days,
            step_agg(step_agg(st, b), a).days,
        ),
{
    let m_ab = step_agg(step_agg(st, a), b).days;
    let m_ba = step_agg(step_agg(st, b), a).days;
    match bucket_of(a) {
        None => {
            lemma_step_preserves_same_but_sessions(step_agg(st, b), step_agg(st, b), a);
            assert(m_ab.dom() =~= m_ba.dom());
        },
        Some(da) => {
            match bucket_of(b) {
                None => {
                    assert(m_ab.dom() =~= m_ba.dom());
                },
                Some(db) => {
                    assert(m_ab.dom() =~= m_ba.dom());
                    assert forall|d: int| #[trigger] m_ab.dom().contains(d) implies
                        same_but_sessions(m_ab[d], m_ba[d]) by {
                        if da == db {
                            if d == da {
                                assert(same_but_sessions(m_ab[d], m_ba[d]));
                            }
                        } else {
                            if d == da || d == db {
                                assert(same_but_sessions(m_ab[d], m_ba[d]));
                            }
                        }
                    }
                },
            }
        },
    }
}

/// Swapping two adjacent events in the stream leaves every daily total
/// except the bottle-session count unchanged, on every day.
pub proof fn lemma_adjacent_swap_same_but_sessions(events: Seq<Event>, k: int)
    requires
        0 <= k,
        k + 1 < events.len(),
    ensures
        days_same_but_sessions(
            agg_after(events).days,
            agg_after(events.update(k, events[k + 1]).update(k + 1, events[k])).days,
        ),
    decreases events.len(),
{
    let swapped = events.update(k, events[k + 1]).update(k + 1, events[k]);
    if k + 2 == events.len() {
        let pre = events.drop_last().drop_last();
        assert(swapped.drop_last().drop_last() =~= pre);
        assert(events.drop_last() =~= pre.push(events[k]));
        assert(swapped.drop_last() =~= pre.push(events[k + 1]));
        assert(agg_after(pre.push(events[k])) == step_agg(agg_after(pre), events[k])) by {
            assert(pre.push(events[k]).drop_last() =~= pre);
        }
        assert(agg_after(pre.push(events[k + 1])) == step_agg(agg_after(pre), events[k + 1])) by {
            assert(pre.push(events[k + 1]).drop_last() =~= pre);
        }
        lemma_two_step_swap(agg_after(pre), events[k], events[k + 1]);
    } else {
        assert(swapped.drop_last() =~= events.drop_last().update(k, events[k + 1]).update(
            k + 1,
            events[k],
        ));
        assert(swapped.last() == events.last());
        lemma_adjacent_swap_same_but_sessions(events.drop_last(), k);
        lemma_step_preserves_same_but_sessions(
            agg_after(events.drop_last()),
            agg_after(swapped.drop_last()),
            events.last(),
        );
    }
}

/// For inputs with pairwise distinct event times, the pipeline's result is
/// a function of the event collection alone: any two orderings of it sort
/// to the same stream, so they aggregate to the same daily map, and the
/// day-ordered entry list denoting that map — the aggregator's output — is
/// one and the same, windows included.
pub proof fn lemma_pipeline_order_irrelevant(
    e1: Seq<Event>,
    e2: Seq<Event>,
    d1: Seq<crate::aggregate::DayEntry>,
    d2: Seq<crate::aggregate::DayEntry>,
)
    requires
        e1.to_multiset() == e2.to_multiset(),
        crate::sort::distinct_times(e1),
        crate::aggregate::days_sorted(d1),
        crate::aggregate::map_of(d1) == agg_after(crate::sort::stable_sort(e1)).days,
        crate::aggregate::days_sorted(d2),
        crate::aggregate::map_of(d2) == agg_after(crate::sort::stable_sort(e2)).days,
    ensures
        d1 == d2,
{
    crate::sort::lemma_sort_of_permutation_equal(e1, e2);
    crate::aggregate::lemma_sorted_entries_unique(d1, d2);
}

/// Moving one element to the end of the stream leaves every daily total
/// except the bottle-session count unchanged.
proof fn lemma_move_to_end_same_but_sessions(s: Seq<Event>, i: int)
    requires
        0 <= i < s.len(),
    ensures
        days_same_but_sessions(agg_after(s).days, agg_after(s.remove(i).push(s[i])).days),
    decreases s.len() - i,
{
    if i == s.len() - 1 {
        assert(s.remove(i).push(s[i]) =~= s);
    } else {
        let s2 = s.update(i, s[i + 1]).update(i + 1, s[i]);
        lemma_adjacent_swap_same_but_sessions(s, i);
        lemma_move_to_end_same_but_sessions(s2, i + 1);
        assert(s2.remove(i + 1) =~= s.remove(i));
        assert(s2[i + 1] == s[i]);
    }
}

/// Order-invariance of the independent fields: two streams holding the
/// same events, in any orders, produce daily maps that agree on every
/// field except the bottle-session count, on every day.  Together with the
/// chronological sort applied before aggregation, this is why only the
/// session heuristic is sensitive to the order in which same-time events
/// arrive.
pub proof fn lemma_permutation_same_but_sessions(s1: Seq<Event>, s2: Seq<Event>)
    requires
        s1.to_multiset() == s2.to_multiset(),
    ensures
        days_same_but_sessions(agg_after(s1).days, agg_after(s2).days),
    decreases s2.len(),
{
    broadcast use vstd::seq_lib::group_to_multiset_ensures;

    if s2.len() == 0 {
        assert(s1.len() == s1.to_multiset().len());
        assert(s1.len() == 0);
    } else {
        let e = s2.last();
        assert(s2.drop_last().push(e) =~= s2);
        assert(s2.to_multiset().count(e) > 0) by {
            assert(s2.contains(e));
        }
        assert(s1.contains(e));
        let i = choose|i: int| 0 <= i < s1.len() && s1[i] == e;
        lemma_move_to_end_same_but_sessions(s1, i);
        let s1p = s1.remove(i);
        assert(s1p.to_multiset() == s2.drop_last().to_multiset()) by {
            assert(s1p.to_multiset() =~= s1.to_multiset().remove(e));
            assert(s2.drop_last() =~= s2.remove(s2.len() - 1));
            assert(s2.drop_last().to_multiset() =~= s2.to_multiset().remove(e));
        }
        lemma_permutation_same_but_sessions(s1p, s2.drop_last());
        lemma_step_preserves_same_but_sessions(
            agg_after(s1p),
            agg_after(s2.drop_last()),
            e,
        );
        assert(agg_after(s1p.push(e)) == step_agg(agg_after(s1p), e)) by {
            assert(s1p.push(e).drop_last() =~= s1p);
        }
    }
}

} // verus!
