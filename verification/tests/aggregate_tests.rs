use babyreport::aggregate::aggregate_events;
use babyreport::aggregate::DayEntry;
use babyreport::event::Event;
use babyreport::event::MAX_AMOUNT;
use babyreport::event::MAX_TIME;
use babyreport::report::report;
use babyreport::sort::sort_events;
use babyreport::sum::Sum;

const MIN: i64 = 60;
const HOUR: i64 = 3600;
const DAY: i64 = 86400;

fn run(events: Vec<Event>) -> Vec<DayEntry> {
    let sorted = sort_events(&events);
    aggregate_events(&sorted)
}

#[test]
fn empty_input_empty_report() {
    let r = report(&Vec::new());
    assert_eq!(r.daily.len(), 0);
    assert_eq!(r.windows.len(), 0);
}

#[test]
fn each_kind_contributes_once() {
    let t = 10 * HOUR;
    let events = vec![
        Event::Diaper { time: t, poo: true },
        Event::Diaper { time: t + MIN, poo: false },
        Event::Bottle { time: t + 2 * MIN, ounces: 350 },
        Event::LeftBreast { time: t + 3 * MIN, duration: 600 },
        Event::RightBreast { time: t + 4 * MIN, duration: 300 },
        Event::Pumping { start: t + 5 * MIN, ounces: 425 },
        Event::TummyTime { start: t + 6 * MIN, duration: 120 },
        Event::Sleep { start: t, end: Some(t + 7 * MIN), duration: 420 },
        Event::Other { time: t + 8 * MIN },
    ];
    let daily = run(events);
    assert_eq!(daily.len(), 1);
    assert_eq!(daily[0].day, 0);
    let s = daily[0].sum;
    assert_eq!(s.total_diapers, 2);
    assert_eq!(s.poo_diapers, 1);
    assert_eq!(s.bottle_oz, 350);
    assert_eq!(s.bottle_sessions, 1);
    assert_eq!(s.breast_duration, 900);
    assert_eq!(s.pumping_oz, 425);
    assert_eq!(s.tummy_time_duration, 120);
    assert_eq!(s.max_sleep_duration, 420);
    assert_eq!(s.total_sleep_duration, 420);
}

#[test]
fn order_invariant_outside_sessions() {
    let t = 10 * HOUR;
    let forward = vec![
        Event::Diaper { time: t, poo: true },
        Event::Bottle { time: t + MIN, ounces: 350 },
        Event::Pumping { start: t + 2 * MIN, ounces: 100 },
        Event::Sleep { start: t, end: Some(t + 3 * MIN), duration: 180 },
    ];
    let mut backward = forward.clone();
    backward.reverse();
    let a = run(forward);
    let b = run(backward);
    assert_eq!(a.len(), b.len());
    for (x, y) in a.iter().zip(b.iter()) {
        assert_eq!(x.day, y.day);
        assert_eq!(x.sum.total_diapers, y.sum.total_diapers);
        assert_eq!(x.sum.poo_diapers, y.sum.poo_diapers);
        assert_eq!(x.sum.bottle_oz, y.sum.bottle_oz);
        assert_eq!(x.sum.breast_duration, y.sum.breast_duration);
        assert_eq!(x.sum.pumping_oz, y.sum.pumping_oz);
        assert_eq!(x.sum.tummy_time_duration, y.sum.tummy_time_duration);
        assert_eq!(x.sum.max_sleep_duration, y.sum.max_sleep_duration);
        assert_eq!(x.sum.total_sleep_duration, y.sum.total_sleep_duration);
    }
}

#[test]
fn permutation_identical_with_distinct_times() {
    // With pairwise distinct timestamps, any input order gives the whole
    // pipeline's output unchanged, bottle sessions included.
    let mut events = Vec::new();
    for d in 0..8 {
        events.push(Event::Diaper { time: d * DAY + HOUR, poo: d % 2 == 0 });
        events.push(Event::Bottle { time: d * DAY + 2 * HOUR, ounces: 300 });
        events.push(Event::Bottle { time: d * DAY + 2 * HOUR + 20 * MIN, ounces: 200 });
        events.push(Event::Sleep {
            start: d * DAY + 3 * HOUR,
            end: Some(d * DAY + 4 * HOUR),
            duration: 3600,
        });
    }
    let mut shuffled = events.clone();
    shuffled.reverse();
    shuffled.swap(0, 7);
    shuffled.swap(3, 11);
    let a = report(&events);
    let b = report(&shuffled);
    assert_eq!(a.daily.len(), b.daily.len());
    for (x, y) in a.daily.iter().zip(b.daily.iter()) {
        assert_eq!(x.day, y.day);
        assert_eq!(x.sum.total_diapers, y.sum.total_diapers);
        assert_eq!(x.sum.bottle_sessions, y.sum.bottle_sessions);
        assert_eq!(x.sum.bottle_oz, y.sum.bottle_oz);
        assert_eq!(x.sum.total_sleep_duration, y.sum.total_sleep_duration);
    }
    assert_eq!(a.windows.len(), b.windows.len());
    for (x, y) in a.windows.iter().zip(b.windows.iter()) {
        assert_eq!(x.day, y.day);
        assert_eq!(x.mean.total_diapers, y.mean.total_diapers);
        assert_eq!(x.mean.bottle_sessions, y.mean.bottle_sessions);
    }
}

#[test]
fn endless_sleeps_anywhere_change_nothing() {
    // Sleep sessions without an end, wherever they stand in the input,
    // leave the daily map and every window untouched.
    let mut base = Vec::new();
    for d in 0..7 {
        base.push(Event::Diaper { time: d * DAY + HOUR, poo: false });
        base.push(Event::Bottle { time: d * DAY + 2 * HOUR, ounces: 300 });
    }
    let mut padded = Vec::new();
    for (k, e) in base.iter().enumerate() {
        padded.push(Event::Sleep { start: k as i64 * DAY, end: None, duration: 500 });
        padded.push(*e);
    }
    padded.push(Event::Sleep { start: 3 * DAY, end: None, duration: 999 });
    let a = report(&base);
    let b = report(&padded);
    assert_eq!(a.daily.len(), b.daily.len());
    for (x, y) in a.daily.iter().zip(b.daily.iter()) {
        assert_eq!(x.day, y.day);
        assert_eq!(x.sum.total_diapers, y.sum.total_diapers);
        assert_eq!(x.sum.bottle_sessions, y.sum.bottle_sessions);
        assert_eq!(x.sum.total_sleep_duration, y.sum.total_sleep_duration);
        assert_eq!(x.sum.max_sleep_duration, y.sum.max_sleep_duration);
    }
    assert_eq!(a.windows.len(), b.windows.len());
    for (x, y) in a.windows.iter().zip(b.windows.iter()) {
        assert_eq!(x.day, y.day);
        assert_eq!(x.mean.total_sleep_duration, y.mean.total_sleep_duration);
    }
}

#[test]
fn bottle_sessions_cluster() {
    // Bottles at T, T+30min and T+90min on one day: the cluster continues
    // across the 30-minute gap (merged, no new session) and breaks at the
    // 60-minute gap, so the net increments are +1, +0, +1: two sessions.
    let t = 10 * HOUR;
    let events = vec![
        Event::Bottle { time: t, ounces: 300 },
        Event::Bottle { time: t + 30 * MIN, ounces: 300 },
        Event::Bottle { time: t + 90 * MIN, ounces: 300 },
    ];
    let daily = run(events);
    assert_eq!(daily.len(), 1);
    assert_eq!(daily[0].sum.bottle_sessions, 2);
    // Ounces accumulate unconditionally, merged or not.
    assert_eq!(daily[0].sum.bottle_oz, 900);
}

#[test]
fn bottle_sessions_same_day() {
    // A same-day bottle strictly within 60 minutes of the previous one
    // merges into the running session; a gap of 60 minutes or more starts
    // a new one.
    let t = 8 * HOUR;
    let events = vec![
        Event::Bottle { time: t, ounces: 100 },
        Event::Bottle { time: t + 30 * MIN, ounces: 100 },
        Event::Bottle { time: t + 90 * MIN, ounces: 100 },
        Event::Bottle { time: t + 4 * HOUR, ounces: 100 },
    ];
    let daily = run(events);
    assert_eq!(daily.len(), 1);
    // Net increments: +1 (first), +0 (30-minute gap merges), +1 (60-minute
    // gap breaks the cluster), +1 (150-minute gap breaks it again).
    assert_eq!(daily[0].sum.bottle_sessions, 3);
    assert_eq!(daily[0].sum.bottle_oz, 400);
}

#[test]
fn bottle_sessions_reset_at_date_boundary() {
    // 23:50 and 00:10 the next day: twenty minutes apart, still two
    // sessions, because the merge condition requires the same date.
    let events = vec![
        Event::Bottle { time: DAY - 10 * MIN, ounces: 100 },
        Event::Bottle { time: DAY + 10 * MIN, ounces: 100 },
    ];
    let daily = run(events);
    assert_eq!(daily.len(), 2);
    assert_eq!(daily[0].day, 0);
    assert_eq!(daily[0].sum.bottle_sessions, 1);
    assert_eq!(daily[1].day, 1);
    assert_eq!(daily[1].sum.bottle_sessions, 1);
}

#[test]
fn bottle_sessions_reset_even_after_long_gap() {
    // A gap far above an hour across the boundary: still counted anew.
    let events = vec![
        Event::Bottle { time: DAY - 2 * HOUR, ounces: 100 },
        Event::Bottle { time: DAY + 2 * HOUR, ounces: 100 },
    ];
    let daily = run(events);
    assert_eq!(daily.len(), 2);
    assert_eq!(daily[0].sum.bottle_sessions, 1);
    assert_eq!(daily[1].sum.bottle_sessions, 1);
}

#[test]
fn sleep_without_end_ignored() {
    let t = 10 * HOUR;
    let events = vec![
        Event::Sleep { start: t, end: None, duration: 7200 },
        Event::Diaper { time: t, poo: false },
        Event::Sleep { start: t + HOUR, end: None, duration: 1800 },
    ];
    let daily = run(events);
    assert_eq!(daily.len(), 1);
    assert_eq!(daily[0].sum.total_sleep_duration, 0);
    assert_eq!(daily[0].sum.max_sleep_duration, 0);
    assert_eq!(daily[0].sum.total_diapers, 1);
}

#[test]
fn sleep_only_unfinished_yields_no_days() {
    let events = vec![Event::Sleep { start: 100, end: None, duration: 7200 }];
    let daily = run(events);
    assert_eq!(daily.len(), 0);
}

#[test]
fn sleep_max_and_total() {
    let t = 2 * HOUR;
    let events = vec![
        Event::Sleep { start: t, end: Some(t + HOUR), duration: 3600 },
        Event::Sleep { start: t + 2 * HOUR, end: Some(t + 4 * HOUR), duration: 7200 },
        Event::Sleep { start: t + 5 * HOUR, end: Some(t + 6 * HOUR), duration: 1800 },
    ];
    let daily = run(events);
    assert_eq!(daily.len(), 1);
    assert_eq!(daily[0].sum.max_sleep_duration, 7200);
    assert_eq!(daily[0].sum.total_sleep_duration, 12600);
}

#[test]
fn sleep_buckets_by_end_date() {
    // Sleep starting before midnight, ending after: bucketed by the end.
    let events = vec![
        Event::Sleep { start: DAY - HOUR, end: Some(DAY + HOUR), duration: 7200 },
    ];
    let daily = run(events);
    assert_eq!(daily.len(), 1);
    assert_eq!(daily[0].day, 1);
    assert_eq!(daily[0].sum.total_sleep_duration, 7200);
}

#[test]
fn pumping_and_tummy_bucket_by_start() {
    let events = vec![
        Event::Pumping { start: DAY - MIN, ounces: 200 },
        Event::TummyTime { start: DAY - MIN, duration: 300 },
    ];
    let daily = run(events);
    assert_eq!(daily.len(), 1);
    assert_eq!(daily[0].day, 0);
    assert_eq!(daily[0].sum.pumping_oz, 200);
    assert_eq!(daily[0].sum.tummy_time_duration, 300);
}

#[test]
fn day_boundaries() {
    let events = vec![
        Event::Diaper { time: DAY - 1, poo: false },
        Event::Diaper { time: DAY, poo: false },
        Event::Diaper { time: -1, poo: false },
    ];
    let daily = run(events);
    assert_eq!(daily.len(), 3);
    assert_eq!(daily[0].day, -1);
    assert_eq!(daily[1].day, 0);
    assert_eq!(daily[2].day, 1);
    for e in &daily {
        assert_eq!(e.sum.total_diapers, 1);
    }
}

#[test]
fn sort_is_stable_for_ties() {
    let events = vec![
        Event::Bottle { time: 200, ounces: 1 },
        Event::Diaper { time: 100, poo: false },
        Event::Bottle { time: 200, ounces: 2 },
    ];
    let sorted = sort_events(&events);
    assert_eq!(sorted.len(), 3);
    assert_eq!(sorted[0], Event::Diaper { time: 100, poo: false });
    assert_eq!(sorted[1], Event::Bottle { time: 200, ounces: 1 });
    assert_eq!(sorted[2], Event::Bottle { time: 200, ounces: 2 });
}

#[test]
fn sort_key_of_sleep_is_end_when_present() {
    let sleep = Event::Sleep { start: 50, end: Some(400), duration: 350 };
    let events = vec![sleep, Event::Diaper { time: 300, poo: false }];
    let sorted = sort_events(&events);
    assert_eq!(sorted[0], Event::Diaper { time: 300, poo: false });
    assert_eq!(sorted[1], sleep);
}

#[test]
fn unsorted_input_merges_bottles_in_time_order() {
    // The sort runs first, so the heuristic sees bottles chronologically:
    // thirty minutes apart, they merge into one session even when the
    // input arrives out of order.
    let t = 8 * HOUR;
    let events = vec![
        Event::Bottle { time: t + 30 * MIN, ounces: 100 },
        Event::Bottle { time: t, ounces: 100 },
    ];
    let r = report(&events);
    assert_eq!(r.daily.len(), 1);
    assert_eq!(r.daily[0].sum.bottle_sessions, 1);
}

fn day_with_diapers(day: i64, n: u64) -> Vec<Event> {
    let mut out = Vec::new();
    for k in 0..n {
        out.push(Event::Diaper { time: day * DAY + 2 * HOUR + (k as i64) * MIN, poo: false });
    }
    out
}

#[test]
fn seven_days_one_window_integer_mean() {
    // Daily diaper totals [2, 3, 1, 4, 2, 0, 5]; the day with zero events
    // has no entry, so an eighth day fills the window of seven entries.
    let counts: [u64; 7] = [2, 3, 1, 4, 2, 0, 5];
    let mut events = Vec::new();
    for (d, &c) in counts.iter().enumerate() {
        events.extend(day_with_diapers(d as i64, c));
    }
    // The zero-count day is absent from the map: add one more day so that
    // seven entries exist, then check the first window's integer mean.
    events.extend(day_with_diapers(7, 3));
    let r = report(&events);
    assert_eq!(r.daily.len(), 7);
    assert_eq!(r.windows.len(), 1);
    // Entries hold [2, 3, 1, 4, 2, 5, 3]: total 20, integer mean 2.
    assert_eq!(r.windows[0].mean.total_diapers, 2);
    assert_eq!(r.windows[0].day, 7);
}

#[test]
fn fewer_than_seven_entries_no_windows() {
    let mut events = Vec::new();
    for d in 0..6 {
        events.extend(day_with_diapers(d, 2));
    }
    let r = report(&events);
    assert_eq!(r.daily.len(), 6);
    assert_eq!(r.windows.len(), 0);
}

#[test]
fn extreme_bounds_accepted() {
    let events = vec![
        Event::Bottle { time: MAX_TIME, ounces: MAX_AMOUNT },
        Event::Diaper { time: -MAX_TIME, poo: true },
    ];
    let r = report(&events);
    assert_eq!(r.daily.len(), 2);
    assert_eq!(r.daily[0].day, -MAX_TIME / 86400 - 1);
    assert_eq!(r.daily[1].day, MAX_TIME / 86400);
    assert_eq!(r.daily[1].sum.bottle_oz, MAX_AMOUNT);
}

#[test]
fn eight_entries_two_windows_ascending_labels() {
    let mut events = Vec::new();
    for d in 0..8 {
        events.extend(day_with_diapers(d, 1 + (d as u64 % 3)));
    }
    let r = report(&events);
    assert_eq!(r.daily.len(), 8);
    assert_eq!(r.windows.len(), 2);
    assert_eq!(r.windows[0].day, 6);
    assert_eq!(r.windows[1].day, 7);
    assert!(r.windows[0].day < r.windows[1].day);
}
