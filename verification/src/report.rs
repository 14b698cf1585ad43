//! The whole pipeline: sort, aggregate, window.

use vstd::prelude::*;
use crate::event::Event;
use crate::event::event_valid;
use crate::event::events_valid;
use crate::event::MAX_EVENTS;
use crate::aggregate::DayEntry;
use crate::aggregate::MAX_TOTAL;
use crate::aggregate::agg_after;
use crate::aggregate::aggregate_events;
use crate::aggregate::days_sorted;
use crate::aggregate::days_unique;
use crate::aggregate::lemma_map_of_entry;
use crate::aggregate::map_of;
use crate::sort::insert_stable;
use crate::sort::sort_events;
use crate::sort::lemma_stable_sort_sorted;
use crate::sort::stable_sort;
use crate::sum::SumModel;
use crate::sum::sum_within;
use crate::window::WINDOW_DAYS;
use crate::window::WindowMean;
use crate::window::mean_of;
use crate::window::window_means;

verus! {

/// Stable insertion keeps every event within bounds.
proof fn lemma_insert_stable_valid(s: Seq<Event>, e: Event)
    requires
        events_valid(s),
        event_valid(e),
    ensures
        events_valid(insert_stable(s, e)),
    decreases s.len(),
{
    if s.len() == 0 {
    } else if crate::event::event_time(s.last()) <= crate::event::event_time(e) {
    } else {
        assert(events_valid(s.drop_last())) by {
            assert(forall|i: int| 0 <= i < s.len() - 1 ==> s.drop_last()[i] == s[i]);
        }
        lemma_insert_stable_valid(s.drop_last(), e);
    }
}

/// The stable sort keeps every event within bounds.
pub proof fn lemma_stable_sort_valid(s: Seq<Event>)
    requires
        events_valid(s),
    ensures
        events_valid(stable_sort(s)),
    decreases s.len(),
{
    if s.len() == 0 {
    } else {
        assert(events_valid(s.drop_last())) by {
            assert(forall|i: int| 0 <= i < s.len() - 1 ==> s.drop_last()[i] == s[i]);
        }
        lemma_stable_sort_valid(s.drop_last());
        lemma_insert_stable_valid(stable_sort(s.drop_last()), s.last());
    }
}

/// The pipeline's output: the daily map's entries in ascending day order,
/// and one windowed mean per full window over them.
pub struct Report {
    pub daily: Vec<DayEntry>,
    pub windows: Vec<WindowMean>,
}

/// Runs the whole pipeline: orders the events chronologically (stable for
/// ties), folds them into the daily map, and slides the window over the
/// daily entries.  An empty event collection yields an empty daily map and
/// zero windows.
pub fn report(events: &Vec<Event>) -> (r: Report)
    requires
        events_valid(events@),
        events@.len() <= MAX_EVENTS,
    ensures
        map_of(r.daily@) == agg_after(stable_sort(events@)).days,
        days_sorted(r.daily@),
        r.windows@.len() == if r.daily@.len() >= WINDOW_DAYS {
            r.daily@.len() - (WINDOW_DAYS - 1)
        } else {
            0
        },
        forall|i: int| 0 <= i < r.windows@.len() ==> (#[trigger] r.windows@[i]).day == r.daily@[i
            + WINDOW_DAYS - 1].day,
        forall|i: int| 0 <= i < r.windows@.len() ==> (#[trigger] r.windows@[i]).mean@ == mean_of(
            r.daily@.subrange(i, i + WINDOW_DAYS as int),
        ),
        forall|k: int| 0 <= k < r.daily@.len() ==> sum_within(
            (#[trigger] r.daily@[k]).sum@,
            MAX_TOTAL as int,
        ),
        forall|i: int, j: int| 0 <= i < j < r.windows@.len() ==> (#[trigger] r.windows@[i]).day < (
        #[trigger] r.windows@[j]).day,
        events@.len() == 0 ==> r.daily@.len() == 0 && r.windows@.len() == 0,
{
    let sorted = sort_events(events);
    proof {
        lemma_stable_sort_valid(events@);
        lemma_stable_sort_sorted(events@);
    }
    let daily = aggregate_events(&sorted);
    let windows = window_means(&daily);
    proof {
        if events@.len() == 0 {
            assert(agg_after(stable_sort(events@)).days =~= Map::<int, SumModel>::empty());
            if daily@.len() > 0 {
                assert(days_unique(daily@));
                lemma_map_of_entry(daily@, 0);
                assert(false);
            }
        }
    }
    Report { daily, windows }
}

} // verus!
