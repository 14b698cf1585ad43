//! The window averager: per-field means over each run of consecutive
//! daily entries.

use vstd::prelude::*;
use crate::aggregate::DayEntry;
use crate::aggregate::MAX_TOTAL;
use crate::sum::Sum;
use crate::sum::SumModel;
use crate::sum::sum_within;
use crate::sum::zero_sum;

verus! {

/// How many consecutive daily entries one window spans.
pub const WINDOW_DAYS: usize = 7;

/// Field-wise addition of two summaries.
pub open spec fn add_sums(a: SumModel, b: SumModel) -> SumModel {
    SumModel {
        total_diapers: a.total_diapers + b.total_diapers,
        poo_diapers: a.poo_diapers + b.poo_diapers,
        bottle_oz: a.bottle_oz + b.bottle_oz,
        bottle_sessions: a.bottle_sessions + b.bottle_sessions,
        breast_duration: a.breast_duration + b.breast_duration,
        pumping_oz: a.pumping_oz + b.pumping_oz,
        tummy_time_duration: a.tummy_time_duration + b.tummy_time_duration,
        max_sleep_duration: a.max_sleep_duration + b.max_sleep_duration,
        total_sleep_duration: a.total_sleep_duration + b.total_sleep_duration,
    }
}

/// Field-wise total over an entry list.
pub open spec fn total_of(s: Seq<DayEntry>) -> SumModel
    decreases s.len(),
{
    if s.len() == 0 {
        zero_sum()
    } else {
        add_sums(total_of(s.drop_last()), s.last().sum@)
    }
}

/// Field-wise integer division of a summary by `n`.
pub open spec fn div_sum(s: SumModel, n: int) -> SumModel {
    SumModel {
        total_diapers: s.total_diapers / n,
        poo_diapers: s.poo_diapers / n,
        bottle_oz: s.bottle_oz / n,
        bottle_sessions: s.bottle_sessions / n,
        breast_duration: s.breast_duration / n,
        pumping_oz: s.pumping_oz / n,
        tummy_time_duration: s.tummy_time_duration / n,
        max_sleep_duration: s.max_sleep_duration / n,
        total_sleep_duration: s.total_sleep_duration / n,
    }
}

/// The per-field mean over an entry list: its total divided by its length.
pub open spec fn mean_of(s: Seq<DayEntry>) -> SumModel {
    div_sum(total_of(s), s.len() as int)
}

/// One window's output: the per-field mean over `WINDOW_DAYS` consecutive
/// daily entries, labeled by the day of the window's last entry.
#[derive(Clone, Copy, Debug)]
pub struct WindowMean {
    pub day: i64,
    pub mean: Sum,
}

/// Slides a `WINDOW_DAYS`-wide window, stride one, over the daily entries
/// (taken in their stored order) and emits one mean per window, labeled by
/// the window's last day.  Fewer than `WINDOW_DAYS` entries produce no
/// output at all.
pub fn window_means(entries: &Vec<DayEntry>) -> (out: Vec<WindowMean>)
    requires
        forall|k: int| 0 <= k < entries@.len() ==> sum_within(
            (#[trigger] entries@[k]).sum@,
            MAX_TOTAL as int,
        ),
    ensures
        entries@.len() < WINDOW_DAYS ==> out@.len() == 0,
        entries@.len() >= WINDOW_DAYS ==> out@.len() == entries@.len() - (WINDOW_DAYS - 1),
        forall|i: int| 0 <= i < out@.len() ==> (#[trigger] out@[i]).day == entries@[i
            + WINDOW_DAYS - 1].day,
        forall|i: int| 0 <= i < out@.len() ==> (#[trigger] out@[i]).mean@ == mean_of(
            entries@.subrange(i, i + WINDOW_DAYS as int),
        ),
{
    let n = entries.len();
    let mut out: Vec<WindowMean> = Vec::new();
    if n < WINDOW_DAYS {
        return out;
    }
    let count = n - (WINDOW_DAYS - 1);
    let mut i: usize = 0;
    while i < count
        invariant
            0 <= i <= count,
            count == n - (WINDOW_DAYS - 1),
            WINDOW_DAYS <= n == entries@.len(),
            forall|k: int| 0 <= k < entries@.len() ==> sum_within(
                (#[trigger] entries@[k]).sum@,
                MAX_TOTAL as int,
            ),
            out@.len() == i,
            forall|k: int| 0 <= k < i ==> (#[trigger] out@[k]).day == entries@[k + WINDOW_DAYS
                - 1].day,
            forall|k: int| 0 <= k < i ==> (#[trigger] out@[k]).mean@ == mean_of(
                entries@.subrange(k, k + WINDOW_DAYS as int),
            ),
        decreases count - i,
    {
        let mut acc = Sum::new();
        let mut j: usize = 0;
        while j < WINDOW_DAYS
            invariant
                0 <= j <= WINDOW_DAYS,
                i + WINDOW_DAYS <= n == entries@.len(),
                forall|k: int| 0 <= k < entries@.len() ==> sum_within(
                    (#[trigger] entries@[k]).sum@,
                    MAX_TOTAL as int,
                ),
                acc@ == total_of(entries@.subrange(i as int, i as int + j as int)),
                sum_within(acc@, j as int * MAX_TOTAL as int),
            decreases WINDOW_DAYS - j,
        {
            let e = &entries[i + j];
            proof {
                let w = entries@.subrange(i as int, i as int + j as int + 1);
                assert(w.drop_last() =~= entries@.subrange(i as int, i as int + j as int));
                assert(w.last() == entries@[i as int + j as int]);
            }
            acc.total_diapers = acc.total_diapers + e.sum.total_diapers;
            acc.poo_diapers = acc.poo_diapers + e.sum.poo_diapers;
            acc.bottle_oz = acc.bottle_oz + e.sum.bottle_oz;
            acc.bottle_sessions = acc.bottle_sessions + e.sum.bottle_sessions;
            acc.breast_duration = acc.breast_duration + e.sum.breast_duration;
            acc.pumping_oz = acc.pumping_oz + e.sum.pumping_oz;
            acc.tummy_time_duration = acc.tummy_time_duration + e.sum.tummy_time_duration;
            acc.max_sleep_duration = acc.max_sleep_duration + e.sum.max_sleep_duration;
            acc.total_sleep_duration = acc.total_sleep_duration + e.sum.total_sleep_duration;
            j += 1;
        }
        let w = WINDOW_DAYS as u64;
        let mean = Sum {
            total_diapers: acc.total_diapers / w,
            poo_diapers: acc.poo_diapers / w,
            bottle_oz: acc.bottle_oz / w,
            bottle_sessions: acc.bottle_sessions / w,
            breast_duration: acc.breast_duration / w,
            pumping_oz: acc.pumping_oz / w,
            tummy_time_duration: acc.tummy_time_duration / w,
            max_sleep_duration: acc.max_sleep_duration / w,
            total_sleep_duration: acc.total_sleep_duration / w,
        };
        proof {
            assert(entries@.subrange(i as int, i as int + WINDOW_DAYS as int).len()
                == WINDOW_DAYS as int);
        }
        let label = entries[i + (WINDOW_DAYS - 1)].day;
        out.push(WindowMean { day: label, mean });
        i += 1;
    }
    out
}

} // verus!
