//! Aggregation engine for a log of infant-care events.
//!
//! Events (diapers, feedings, pumping, tummy time, sleep) carry local
//! timestamps; the engine sorts them chronologically, folds them into one
//! summary per calendar day (with a session-merging heuristic for bottle
//! feedings), and slides a fixed-size window over the daily summaries to
//! produce rolling means.  Volumes are carried in hundredths of an ounce
//! and durations in whole seconds, so every quantity is an integer.

pub mod aggregate;
pub mod event;
pub mod fmt;
pub mod laws;
pub mod report;
pub mod sort;
pub mod sum;
pub mod window;
