//! The refresh schedule: the cache is refreshed once at the start and then
//! at a fixed period, whether or not a refresh succeeds.

use crate::conversion_cache::{cache_error_text, CacheError};
use vstd::prelude::*;

verus! {

/// The seconds between two refreshes: twelve hours.
pub const REFRESH_PERIOD_SECS: u64 = 43_200;

/// What the schedule does after a refresh: what to report, if anything, and
/// how long after the time at which this refresh was due the next one is
/// due. The time that a refresh takes does not move the schedule.
pub struct Tick {
    pub report: Option<String>,
    pub wait_secs: u64,
}

/// The step after a refresh. A failure is reported and changes nothing else:
/// the next refresh is due after the same period as after a success.
pub fn after_refresh(outcome: Result<(), CacheError>) -> (tick: Tick)
    ensures
        tick.wait_secs == REFRESH_PERIOD_SECS,
        match outcome {
            Ok(_) => tick.report is None,
            Err(e) => tick.report is Some && tick.report->Some_0@ == cache_error_text(e),
        },
{
    match outcome {
        Ok(_) => Tick { report: None, wait_secs: REFRESH_PERIOD_SECS },
        Err(e) => Tick { report: Some(e.message()), wait_secs: REFRESH_PERIOD_SECS },
    }
}

} // verus!
