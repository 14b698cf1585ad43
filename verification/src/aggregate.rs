//! The daily aggregator: folds the event stream into one summary per
//! calendar day, with the session-merging heuristic for bottle feedings.

use vstd::prelude::*;
use crate::event::Event;
use crate::event::day_of;
use crate::event::event_valid;
use crate::event::events_valid;
use crate::event::exec_day_of;
use crate::event::MAX_AMOUNT;
use crate::event::MAX_EVENTS;
use crate::event::MAX_TIME;
use crate::sum::Sum;
use crate::sum::SumModel;
use crate::sum::sum_within;
use crate::sum::zero_sum;

verus! {

/// Largest value any summary field can reach in one aggregation run:
/// `MAX_EVENTS * MAX_AMOUNT`.
pub const MAX_TOTAL: u64 = 0x100_0000_0000_0000;

/// A bottle-to-bottle gap, in seconds: a same-day bottle strictly within
/// this gap of the previous one merges into the running session; a gap of
/// the full amount or more starts a new session.
pub const MERGE_GAP_SECS: i64 = 3600;

/// The aggregator's whole state: the daily map plus the one piece of
/// cross-event state, the time of the most recently processed bottle.
pub ghost struct AggModel {
    pub days: Map<int, SumModel>,
    pub prev_bottle: Option<i64>,
}

/// The state before any event: an empty map, no previous bottle.
pub open spec fn init_agg() -> AggModel {
    AggModel { days: Map::empty(), prev_bottle: None }
}

/// The calendar day an event is bucketed under: its own time, the start
/// for pumping and tummy time, the end for sleep.  `None` for a sleep
/// session with no recorded end and for ignored kinds.
pub open spec fn bucket_of(e: Event) -> Option<int> {
    match e {
        Event::Diaper { time, .. } => Some(day_of(time)),
        Event::Bottle { time, .. } => Some(day_of(time)),
        Event::LeftBreast { time, .. } => Some(day_of(time)),
        Event::RightBreast { time, .. } => Some(day_of(time)),
        Event::Pumping { start, .. } => Some(day_of(start)),
        Event::TummyTime { start, .. } => Some(day_of(start)),
        Event::Sleep { end, .. } => match end {
            Some(t) => Some(day_of(t)),
            None => None,
        },
        Event::Other { .. } => None,
    }
}

/// A bottle at `time` merges into the previous bottle's session — its
/// session increment is undone — exactly when a previous bottle exists,
/// fell on the same calendar day, and lies strictly within
/// `MERGE_GAP_SECS` seconds back.  A session cluster thus runs while each
/// next same-day bottle follows within the gap; a wider gap, or a new
/// calendar day, starts a new session.
pub open spec fn merged_with_prev(prev: Option<i64>, time: i64) -> bool {
    match prev {
        None => false,
        Some(p) => day_of(p) == day_of(time) && time - p < MERGE_GAP_SECS,
    }
}

/// The contribution of one event to the summary of its day.  `counted`
/// says whether a bottle event's session increment stands.
pub open spec fn apply_to_sum(s: SumModel, e: Event, counted: bool) -> SumModel {
    match e {
        Event::Diaper { poo, .. } => SumModel {
            total_diapers: s.total_diapers + 1,
            poo_diapers: s.poo_diapers + if poo { 1int } else { 0int },
            ..s
        },
        Event::Bottle { ounces, .. } => SumModel {
            bottle_oz: s.bottle_oz + ounces,
            bottle_sessions: s.bottle_sessions + if counted { 1int } else { 0int },
            ..s
        },
        Event::LeftBreast { duration, .. } => SumModel {
            breast_duration: s.breast_duration + duration,
            ..s
        },
        Event::RightBreast { duration, .. } => SumModel {
            breast_duration: s.breast_duration + duration,
            ..s
        },
        Event::Pumping { ounces, .. } => SumModel { pumping_oz: s.pumping_oz + ounces, ..s },
        Event::TummyTime { duration, .. } => SumModel {
            tummy_time_duration: s.tummy_time_duration + duration,
            ..s
        },
        Event::Sleep { duration, .. } => SumModel {
            max_sleep_duration: if duration > s.max_sleep_duration {
                duration as int
            } else {
                s.max_sleep_duration
            },
            total_sleep_duration: s.total_sleep_duration + duration,
            ..s
        },
        Event::Other { .. } => s,
    }
}

/// The summary stored for day `d`, or the all-zero summary when the day
/// has no entry yet.
pub open spec fn day_sum(m: Map<int, SumModel>, d: int) -> SumModel {
    if m.dom().contains(d) {
        m[d]
    } else {
        zero_sum()
    }
}

/// One step of the fold: bucket the event, apply its contribution to that
/// day's summary, and update the previous-bottle state.
pub open spec fn step_agg(st: AggModel, e: Event) -> AggModel {
    match bucket_of(e) {
        None => st,
        Some(d) => {
            let counted = match e {
                Event::Bottle { time, .. } => !merged_with_prev(st.prev_bottle, time),
                _ => true,
            };
            let prev2 = match e {
                Event::Bottle { time, .. } => Some(time),
                _ => st.prev_bottle,
            };
            AggModel {
                days: st.days.insert(d, apply_to_sum(day_sum(st.days, d), e, counted)),
                prev_bottle: prev2,
            }
        },
    }
}

/// The aggregator's state after folding `events` left to right.
pub open spec fn agg_after(events: Seq<Event>) -> AggModel
    decreases events.len(),
{
    if events.len() == 0 {
        init_agg()
    } else {
        step_agg(agg_after(events.drop_last()), events.last())
    }
}

/// After `events`, every daily summary field lies in
/// `[0, events.len() * MAX_AMOUNT]`, and a recorded previous bottle time
/// is within the accepted time bounds.
pub proof fn lemma_agg_bounded(events: Seq<Event>)
    requires
        events_valid(events),
    ensures
        forall|d: int| #[trigger]
            agg_after(events).days.dom().contains(d) ==> sum_within(
                agg_after(events).days[d],
                events.len() * MAX_AMOUNT as int,
            ),
        agg_after(events).prev_bottle matches Some(p) ==> -MAX_TIME <= p <= MAX_TIME,
    decreases events.len(),
{
    if events.len() == 0 {
    } else {
        let pre = events.drop_last();
        let e = events.last();
        assert(events_valid(pre)) by {
            assert(forall|i: int| 0 <= i < pre.len() ==> pre[i] == events[i]);
        }
        lemma_agg_bounded(pre);
        assert(pre.len() * MAX_AMOUNT as int + MAX_AMOUNT as int == events.len()
            * MAX_AMOUNT as int) by (nonlinear_arith)
            requires
                pre.len() == events.len() - 1,
        ;
        assert(event_valid(e));
    }
}

/// One entry of the daily map: a day and its accumulated summary.
#[derive(Clone, Copy, Debug)]
pub struct DayEntry {
    pub day: i64,
    pub sum: Sum,
}

/// The entries' days are strictly increasing.
pub open spec fn days_sorted(s: Seq<DayEntry>) -> bool {
    forall|i: int, j: int| 0 <= i < j < s.len() ==> (#[trigger] s[i]).day < (#[trigger] s[j]).day
}

/// No two entries share a day.
pub open spec fn days_unique(s: Seq<DayEntry>) -> bool {
    forall|i: int, j: int| 0 <= i < j < s.len() ==> (#[trigger] s[i]).day != (#[trigger] s[j]).day
}

/// The finite map an entry list denotes.
pub open spec fn map_of(s: Seq<DayEntry>) -> Map<int, SumModel>
    decreases s.len(),
{
    if s.len() == 0 {
        Map::empty()
    } else {
        map_of(s.drop_last()).insert(s.last().day as int, s.last().sum@)
    }
}

/// A day is in the denoted map exactly when some entry carries it.
pub proof fn lemma_map_of_dom(s: Seq<DayEntry>, d: int)
    ensures
        map_of(s).dom().contains(d) <==> exists|i: int|
            0 <= i < s.len() && (#[trigger] s[i]).day as int == d,
    decreases s.len(),
{
    if s.len() == 0 {
    } else {
        lemma_map_of_dom(s.drop_last(), d);
        if s.last().day as int == d {
            assert(s[s.len() - 1].day as int == d);
        } else {
            if exists|i: int| 0 <= i < s.len() && (#[trigger] s[i]).day as int == d {
                let i = choose|i: int| 0 <= i < s.len() && (#[trigger] s[i]).day as int == d;
                assert(i < s.len() - 1);
                assert(s.drop_last()[i].day as int == d);
            }
            if exists|i: int| 0 <= i < s.drop_last().len() && (#[trigger] s.drop_last()[i]).day
                as int == d {
                let i = choose|i: int|
                    0 <= i < s.drop_last().len() && (#[trigger] s.drop_last()[i]).day as int == d;
                assert(s[i].day as int == d);
            }
        }
    }
}

/// With unique days, each entry's summary is the denoted map's value at
/// its day.
pub proof fn lemma_map_of_entry(s: Seq<DayEntry>, i: int)
    requires
        days_unique(s),
        0 <= i < s.len(),
    ensures
        map_of(s).dom().contains(s[i].day as int),
        map_of(s)[s[i].day as int] == s[i].sum@,
    decreases s.len(),
{
    if i == s.len() - 1 {
    } else {
        assert(days_unique(s.drop_last())) by {
            assert(forall|a: int| 0 <= a < s.len() - 1 ==> s.drop_last()[a] == s[a]);
        }
        lemma_map_of_entry(s.drop_last(), i);
        assert(s[s.len() - 1].day != s[i].day);
    }
}

/// Dropping the last entry denotes the map without that entry's day.
proof fn lemma_map_of_drop_last(s: Seq<DayEntry>)
    requires
        days_unique(s),
        s.len() > 0,
    ensures
        map_of(s.drop_last()) == map_of(s).remove(s.last().day as int),
{
    lemma_map_of_dom(s.drop_last(), s.last().day as int);
    assert(forall|i: int| 0 <= i < s.len() - 1 ==> s.drop_last()[i] == s[i]);
    assert(!map_of(s.drop_last()).dom().contains(s.last().day as int));
    assert(map_of(s.drop_last()).insert(s.last().day as int, s.last().sum@).remove(
        s.last().day as int,
    ) =~= map_of(s.drop_last()));
}

/// The day-ordered entry list denoting a map is unique: the daily map
/// determines the aggregator's output entry list completely.
pub proof fn lemma_sorted_entries_unique(s1: Seq<DayEntry>, s2: Seq<DayEntry>)
    requires
        days_sorted(s1),
        days_sorted(s2),
        map_of(s1) == map_of(s2),
    ensures
        s1 == s2,
    decreases s1.len(),
{
    assert(days_unique(s1));
    assert(days_unique(s2));
    if s1.len() == 0 {
        if s2.len() > 0 {
            lemma_map_of_entry(s2, 0);
            assert(false);
        }
        assert(s1 =~= s2);
    } else if s2.len() == 0 {
        lemma_map_of_entry(s1, 0);
        assert(false);
    } else {
        let a = s1.last();
        let b = s2.last();
        lemma_map_of_entry(s1, s1.len() - 1);
        lemma_map_of_entry(s2, s2.len() - 1);
        assert(a.day == b.day) by {
            lemma_map_of_dom(s2, a.day as int);
            let i = choose|i: int| 0 <= i < s2.len() && (#[trigger] s2[i]).day as int == a.day as int;
            assert(s2[i].day <= b.day);
            lemma_map_of_dom(s1, b.day as int);
            let j = choose|j: int| 0 <= j < s1.len() && (#[trigger] s1[j]).day as int == b.day as int;
            assert(s1[j].day <= a.day);
        }
        assert(a.sum@ == b.sum@);
        assert(a.sum == b.sum);
        assert(a == b);
        lemma_map_of_drop_last(s1);
        lemma_map_of_drop_last(s2);
        assert(days_sorted(s1.drop_last())) by {
            assert(forall|i: int| 0 <= i < s1.len() - 1 ==> s1.drop_last()[i] == s1[i]);
        }
        assert(days_sorted(s2.drop_last())) by {
            assert(forall|i: int| 0 <= i < s2.len() - 1 ==> s2.drop_last()[i] == s2[i]);
        }
        lemma_sorted_entries_unique(s1.drop_last(), s2.drop_last());
        assert(s1 =~= s2) by {
            assert(forall|i: int| 0 <= i < s1.len() - 1 ==> s1[i] == s1.drop_last()[i]);
            assert(forall|i: int| 0 <= i < s2.len() - 1 ==> s2[i] == s2.drop_last()[i]);
        }
    }
}

/// Replacing the entry of a present day denotes the map with that day
/// re-inserted.
proof fn lemma_map_of_update(s: Seq<DayEntry>, j: int, en: DayEntry)
    requires
        days_unique(s),
        0 <= j < s.len(),
        en.day == s[j].day,
    ensures
        map_of(s.update(j, en)) == map_of(s).insert(en.day as int, en.sum@),
    decreases s.len(),
{
    if j == s.len() - 1 {
        assert(s.update(j, en).drop_last() =~= s.drop_last());
        assert(map_of(s.update(j, en)) == map_of(s.drop_last()).insert(en.day as int, en.sum@));
        assert(map_of(s.drop_last()).insert(s.last().day as int, s.last().sum@).insert(
            en.day as int,
            en.sum@,
        ) =~= map_of(s.drop_last()).insert(en.day as int, en.sum@));
    } else {
        assert(days_unique(s.drop_last())) by {
            assert(forall|a: int| 0 <= a < s.len() - 1 ==> s.drop_last()[a] == s[a]);
        }
        lemma_map_of_update(s.drop_last(), j, en);
        assert(s.update(j, en).drop_last() =~= s.drop_last().update(j, en));
        assert(s.update(j, en).last() == s.last());
        assert(s.last().day != en.day);
        assert(map_of(s.drop_last()).insert(en.day as int, en.sum@).insert(
            s.last().day as int,
            s.last().sum@,
        ) =~= map_of(s.drop_last()).insert(s.last().day as int, s.last().sum@).insert(
            en.day as int,
            en.sum@,
        ));
    }
}

/// Inserting an entry for an absent day denotes the map with that day
/// inserted.
proof fn lemma_map_of_insert(s: Seq<DayEntry>, j: int, en: DayEntry)
    requires
        0 <= j <= s.len(),
        forall|i: int| 0 <= i < s.len() ==> (#[trigger] s[i]).day != en.day,
    ensures
        map_of(s.insert(j, en)) == map_of(s).insert(en.day as int, en.sum@),
    decreases s.len(),
{
    if j == s.len() {
        assert(s.insert(j, en) =~= s.push(en));
        assert(s.push(en).drop_last() =~= s);
    } else {
        lemma_map_of_insert(s.drop_last(), j, en);
        assert(s.insert(j, en).drop_last() =~= s.drop_last().insert(j, en));
        assert(s.insert(j, en).last() == s.last());
        assert(s.last().day != en.day);
        assert(map_of(s.drop_last()).insert(en.day as int, en.sum@).insert(
            s.last().day as int,
            s.last().sum@,
        ) =~= map_of(s.drop_last()).insert(s.last().day as int, s.last().sum@).insert(
            en.day as int,
            en.sum@,
        ));
    }
}

/// The calendar day an event is bucketed under, executable form.
fn exec_bucket(e: &Event) -> (b: Option<i64>)
    requires
        event_valid(*e),
    ensures
        match b {
            Some(d) => bucket_of(*e) == Some(d as int),
            None => bucket_of(*e) is None,
        },
{
    match e {
        Event::Diaper { time, .. } => Some(exec_day_of(*time)),
        Event::Bottle { time, .. } => Some(exec_day_of(*time)),
        Event::LeftBreast { time, .. } => Some(exec_day_of(*time)),
        Event::RightBreast { time, .. } => Some(exec_day_of(*time)),
        Event::Pumping { start, .. } => Some(exec_day_of(*start)),
        Event::TummyTime { start, .. } => Some(exec_day_of(*start)),
        Event::Sleep { end, .. } => match end {
            Some(t) => Some(exec_day_of(*t)),
            None => None,
        },
        Event::Other { .. } => None,
    }
}

/// The contribution of one event to a day's summary, executable form.
fn exec_apply(s: &Sum, e: &Event, counted: bool) -> (out: Sum)
    requires
        event_valid(*e),
        sum_within(s@, MAX_TOTAL as int - MAX_AMOUNT as int),
    ensures
        out@ == apply_to_sum(s@, *e, counted),
        sum_within(out@, MAX_TOTAL as int),
{
    let mut out = *s;
    match e {
        Event::Diaper { poo, .. } => {
            out.total_diapers = out.total_diapers + 1;
            if *poo {
                out.poo_diapers = out.poo_diapers + 1;
            }
        },
        Event::Bottle { ounces, .. } => {
            out.bottle_oz = out.bottle_oz + *ounces;
            if counted {
                out.bottle_sessions = out.bottle_sessions + 1;
            }
        },
        Event::LeftBreast { duration, .. } => {
            out.breast_duration = out.breast_duration + *duration;
        },
        Event::RightBreast { duration, .. } => {
            out.breast_duration = out.breast_duration + *duration;
        },
        Event::Pumping { ounces, .. } => {
            out.pumping_oz = out.pumping_oz + *ounces;
        },
        Event::TummyTime { duration, .. } => {
            out.tummy_time_duration = out.tummy_time_duration + *duration;
        },
        Event::Sleep { duration, .. } => {
            if *duration > out.max_sleep_duration {
                out.max_sleep_duration = *duration;
            }
            out.total_sleep_duration = out.total_sleep_duration + *duration;
        },
        Event::Other { .. } => {},
    }
    out
}

/// One step of the aggregation: applies `e` to the entry list and returns
/// the updated previous-bottle state.
fn exec_step(entries: &mut Vec<DayEntry>, prev: Option<i64>, e: &Event) -> (prev2: Option<i64>)
    requires
        event_valid(*e),
        days_sorted(old(entries)@),
        prev matches Some(p) ==> -MAX_TIME <= p <= MAX_TIME,
        forall|k: int| 0 <= k < old(entries)@.len() ==> sum_within(
            (#[trigger] old(entries)@[k]).sum@,
            MAX_TOTAL as int - MAX_AMOUNT as int,
        ),
    ensures
        days_sorted(final(entries)@),
        map_of(final(entries)@) == step_agg(
            AggModel { days: map_of(old(entries)@), prev_bottle: prev },
            *e,
        ).days,
        prev2 == step_agg(AggModel { days: map_of(old(entries)@), prev_bottle: prev }, *e).prev_bottle,
        prev2 matches Some(p) ==> -MAX_TIME <= p <= MAX_TIME,
{
    proof {
        assert(days_unique(entries@));
    }
    let bucket = exec_bucket(e);
    match bucket {
        None => prev,
        Some(d) => {
            let counted: bool = match e {
                Event::Bottle { time, .. } => match prev {
                    None => true,
                    Some(p) => !(exec_day_of(p) == exec_day_of(*time) && *time - p
                        < MERGE_GAP_SECS),
                },
                _ => true,
            };
            let prev2: Option<i64> = match e {
                Event::Bottle { time, .. } => Some(*time),
                _ => prev,
            };
            let n = entries.len();
            let mut j: usize = 0;
            while j < n && entries[j].day < d
                invariant
                    0 <= j <= n,
                    n == entries@.len(),
                    forall|k: int| 0 <= k < j ==> (#[trigger] entries@[k]).day < d,
                decreases n - j,
            {
                j += 1;
            }
            if j < n && entries[j].day == d {
                proof {
                    lemma_map_of_entry(entries@, j as int);
                }
                let s_new = exec_apply(&entries[j].sum, e, counted);
                let en = DayEntry { day: d, sum: s_new };
                proof {
                    lemma_map_of_update(entries@, j as int, en);
                }
                entries[j] = en;
            } else {
                proof {
                    assert forall|k: int| 0 <= k < entries@.len() implies (#[trigger] entries@[k]).day
                        != d by {
                        if k >= j {
                            assert(j < entries@.len());
                            assert(entries@[j as int].day >= d);
                            assert(entries@[j as int].day != d);
                            if k > j {
                                assert(entries@[k].day > entries@[j as int].day);
                            }
                        }
                    }
                    lemma_map_of_dom(entries@, d as int);
                    assert(!map_of(entries@).dom().contains(d as int));
                }
                let s_new = exec_apply(&Sum::new(), e, counted);
                let en = DayEntry { day: d, sum: s_new };
                proof {
                    lemma_map_of_insert(entries@, j as int, en);
                }
                entries.insert(j, en);
            }
            prev2
        },
    }
}

/// Folds the event stream, left to right, into the daily map: one entry
/// per calendar day touched, in ascending day order, each holding exactly
/// the summary the aggregation fold (`agg_after`) assigns to that day.
pub fn aggregate_events(events: &Vec<Event>) -> (out: Vec<DayEntry>)
    requires
        events_valid(events@),
        events@.len() <= MAX_EVENTS,
    ensures
        map_of(out@) == agg_after(events@).days,
        days_sorted(out@),
        forall|k: int| 0 <= k < out@.len() ==> sum_within(
            (#[trigger] out@[k]).sum@,
            MAX_TOTAL as int,
        ),
{
    let n = events.len();
    let mut entries: Vec<DayEntry> = Vec::new();
    let mut prev: Option<i64> = None;
    let mut i: usize = 0;
    while i < n
        invariant
            0 <= i <= n,
            n == events@.len() <= MAX_EVENTS,
            events_valid(events@),
            days_sorted(entries@),
            map_of(entries@) == agg_after(events@.take(i as int)).days,
            prev == agg_after(events@.take(i as int)).prev_bottle,
            prev matches Some(p) ==> -MAX_TIME <= p <= MAX_TIME,
        decreases n - i,
    {
        proof {
            let pre = events@.take(i as int);
            assert(events_valid(pre)) by {
                assert(forall|k: int| 0 <= k < pre.len() ==> pre[k] == events@[k]);
            }
            lemma_agg_bounded(pre);
            assert(pre.len() * MAX_AMOUNT as int <= (MAX_EVENTS - 1) * MAX_AMOUNT as int)
                by (nonlinear_arith)
                requires
                    pre.len() <= MAX_EVENTS - 1,
            ;
            assert(days_unique(entries@));
            assert forall|k: int| 0 <= k < entries@.len() implies sum_within(
                (#[trigger] entries@[k]).sum@,
                MAX_TOTAL as int - MAX_AMOUNT as int,
            ) by {
                lemma_map_of_entry(entries@, k);
            }
        }
        prev = exec_step(&mut entries, prev, &events[i]);
        proof {
            assert(events@.take(i as int + 1).drop_last() =~= events@.take(i as int));
            assert(events@.take(i as int + 1).last() == events@[i as int]);
        }
        i += 1;
    }
    proof {
        assert(events@.take(n as int) =~= events@);
        lemma_agg_bounded(events@);
        assert(events@.len() * MAX_AMOUNT as int <= MAX_TOTAL as int) by (nonlinear_arith)
            requires
                events@.len() <= MAX_EVENTS,
        ;
        assert forall|k: int| 0 <= k < entries@.len() implies sum_within(
            (#[trigger] entries@[k]).sum@,
            MAX_TOTAL as int,
        ) by {
            assert(days_unique(entries@));
            lemma_map_of_entry(entries@, k);
        }
    }
    entries
}

} // verus!
