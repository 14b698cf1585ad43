//! Care-activity events and the calendar arithmetic on their timestamps.

use vstd::prelude::*;

verus! {

/// Seconds in one calendar day.
pub const SECS_PER_DAY: i64 = 86400;

/// Largest magnitude accepted for a timestamp, in seconds relative to the
/// epoch of the local calendar.
pub const MAX_TIME: i64 = 0x10_0000_0000;

/// Largest accepted event quantity (a duration in seconds or a volume in
/// hundredths of an ounce).
pub const MAX_AMOUNT: u64 = 0x10_0000_0000;

/// Largest number of events one aggregation run accepts.
pub const MAX_EVENTS: usize = 0x10_0000;

/// One timestamped care-activity record.  Timestamps are local-time seconds
/// (seconds since the epoch of the local calendar), durations are seconds,
/// and ounce volumes are hundredths of an ounce.
#[derive(Clone, Copy, Debug, PartialEq, Eq, Structural)]
pub enum Event {
    /// A diaper change; `poo` marks a soiled one.
    Diaper { time: i64, poo: bool },
    /// A bottle feeding of `ounces` hundredths of an ounce.
    Bottle { time: i64, ounces: u64 },
    /// A breast feeding on the left side lasting `duration` seconds.
    LeftBreast { time: i64, duration: u64 },
    /// A breast feeding on the right side lasting `duration` seconds.
    RightBreast { time: i64, duration: u64 },
    /// A pumping session yielding `ounces` hundredths of an ounce.
    Pumping { start: i64, ounces: u64 },
    /// Tummy time lasting `duration` seconds.
    TummyTime { start: i64, duration: u64 },
    /// A sleep session; one with no recorded end is ignored by aggregation.
    Sleep { start: i64, end: Option<i64>, duration: u64 },
    /// Any other kind of record; carried through sorting, never aggregated.
    Other { time: i64 },
}

/// The timestamp an event is ordered by: its own time, the start for
/// pumping and tummy time, and for sleep the end when one is recorded.
pub open spec fn event_time(e: Event) -> i64 {
    match e {
        Event::Diaper { time, .. } => time,
        Event::Bottle { time, .. } => time,
        Event::LeftBreast { time, .. } => time,
        Event::RightBreast { time, .. } => time,
        Event::Pumping { start, .. } => start,
        Event::TummyTime { start, .. } => start,
        Event::Sleep { start, end, .. } => match end {
            Some(t) => t,
            None => start,
        },
        Event::Other { time } => time,
    }
}

/// The calendar day holding local-time second `t`: days are numbered from
/// the epoch, each one spanning `SECS_PER_DAY` seconds.
pub open spec fn day_of(t: i64) -> int {
    t as int / (SECS_PER_DAY as int)
}

/// Every timestamp and quantity of `e` lies within the accepted bounds.
pub open spec fn event_valid(e: Event) -> bool {
    match e {
        Event::Diaper { time, .. } => -MAX_TIME <= time <= MAX_TIME,
        Event::Bottle { time, ounces } => -MAX_TIME <= time <= MAX_TIME && ounces <= MAX_AMOUNT,
        Event::LeftBreast { time, duration } => -MAX_TIME <= time <= MAX_TIME && duration
            <= MAX_AMOUNT,
        Event::RightBreast { time, duration } => -MAX_TIME <= time <= MAX_TIME && duration
            <= MAX_AMOUNT,
        Event::Pumping { start, ounces } => -MAX_TIME <= start <= MAX_TIME && ounces <= MAX_AMOUNT,
        Event::TummyTime { start, duration } => -MAX_TIME <= start <= MAX_TIME && duration
            <= MAX_AMOUNT,
        Event::Sleep { start, end, duration } => {
            &&& -MAX_TIME <= start <= MAX_TIME
            &&& duration <= MAX_AMOUNT
            &&& match end {
                Some(t) => -MAX_TIME <= t <= MAX_TIME,
                None => true,
            }
        },
        Event::Other { time } => -MAX_TIME <= time <= MAX_TIME,
    }
}

/// Every event of `s` is within bounds.
pub open spec fn events_valid(s: Seq<Event>) -> bool {
    forall|i: int| 0 <= i < s.len() ==> event_valid(#[trigger] s[i])
}

/// The sort key of an event, executable form.
pub fn exec_event_time(e: &Event) -> (t: i64)
    ensures
        t == event_time(*e),
{
    match e {
        Event::Diaper { time, .. } => *time,
        Event::Bottle { time, .. } => *time,
        Event::LeftBreast { time, .. } => *time,
        Event::RightBreast { time, .. } => *time,
        Event::Pumping { start, .. } => *start,
        Event::TummyTime { start, .. } => *start,
        Event::Sleep { start, end, .. } => match end {
            Some(t) => *t,
            None => *start,
        },
        Event::Other { time } => *time,
    }
}

/// The calendar day holding local-time second `t`, executable form.
pub fn exec_day_of(t: i64) -> (d: i64)
    requires
        -MAX_TIME <= t <= MAX_TIME,
    ensures
        d == day_of(t),
{
    t.checked_div_euclid(SECS_PER_DAY).unwrap()
}

} // verus!
