//! The per-day summary record and its mathematical model.

use vstd::prelude::*;

verus! {

/// Mathematical model of a daily summary: every field as an unbounded
/// integer.  Counts are plain tallies, volumes are hundredths of an ounce,
/// durations are seconds.
pub ghost struct SumModel {
    pub total_diapers: int,
    pub poo_diapers: int,
    pub bottle_oz: int,
    pub bottle_sessions: int,
    pub breast_duration: int,
    pub pumping_oz: int,
    pub tummy_time_duration: int,
    pub max_sleep_duration: int,
    pub total_sleep_duration: int,
}

/// The all-zero summary, the state of a day before any event touches it.
pub open spec fn zero_sum() -> SumModel {
    SumModel {
        total_diapers: 0,
        poo_diapers: 0,
        bottle_oz: 0,
        bottle_sessions: 0,
        breast_duration: 0,
        pumping_oz: 0,
        tummy_time_duration: 0,
        max_sleep_duration: 0,
        total_sleep_duration: 0,
    }
}

/// Every field of `s` lies in `[0, bound]`.
pub open spec fn sum_within(s: SumModel, bound: int) -> bool {
    &&& 0 <= s.total_diapers <= bound
    &&& 0 <= s.poo_diapers <= bound
    &&& 0 <= s.bottle_oz <= bound
    &&& 0 <= s.bottle_sessions <= bound
    &&& 0 <= s.breast_duration <= bound
    &&& 0 <= s.pumping_oz <= bound
    &&& 0 <= s.tummy_time_duration <= bound
    &&& 0 <= s.max_sleep_duration <= bound
    &&& 0 <= s.total_sleep_duration <= bound
}

/// One daily summary.  Counts are tallies, `*_oz` fields are hundredths of
/// an ounce, `*_duration` fields are seconds.
#[derive(Clone, Copy, Debug)]
pub struct Sum {
    pub total_diapers: u64,
    pub poo_diapers: u64,
    pub bottle_oz: u64,
    pub bottle_sessions: u64,
    pub breast_duration: u64,
    pub pumping_oz: u64,
    pub tummy_time_duration: u64,
    pub max_sleep_duration: u64,
    pub total_sleep_duration: u64,
}

impl View for Sum {
    type V = SumModel;

    open spec fn view(&self) -> SumModel {
        SumModel {
            total_diapers: self.total_diapers as int,
            poo_diapers: self.poo_diapers as int,
            bottle_oz: self.bottle_oz as int,
            bottle_sessions: self.bottle_sessions as int,
            breast_duration: self.breast_duration as int,
            pumping_oz: self.pumping_oz as int,
            tummy_time_duration: self.tummy_time_duration as int,
            max_sleep_duration: self.max_sleep_duration as int,
            total_sleep_duration: self.total_sleep_duration as int,
        }
    }
}

impl Sum {
    /// A fresh summary with every field at zero.
    pub fn new() -> (s: Sum)
        ensures
            s@ == zero_sum(),
    {
        Sum {
            total_diapers: 0,
            poo_diapers: 0,
            bottle_oz: 0,
            bottle_sessions: 0,
            breast_duration: 0,
            pumping_oz: 0,
            tummy_time_duration: 0,
            max_sleep_duration: 0,
            total_sleep_duration: 0,
        }
    }
}

} // verus!
