//! Clock-time tokens.
//!
//! An absolute time of day is written `HH:MM` or `HH:MM:SS` on a 24-hour
//! clock, zero-padded or not. chrono does the parsing; this module names
//! what it returns and states the one bound every caller needs: a time of
//! day is under a day's worth of seconds.

use chrono::NaiveTime;
use chrono::Timelike;
use vstd::prelude::*;

verus! {

/// The number of seconds in a day.
pub const SECONDS_PER_DAY: u32 = 86400;

/// What chrono makes of a clock-time token: the time of day it denotes, as
/// non-leap seconds since midnight, or nothing when chrono accepts the
/// token under neither format. The result depends on the token alone.
pub uninterp spec fn clock_time_of(s: Seq<char>) -> Option<u32>;

/// Relies on chrono's `NaiveTime::parse_from_str`, tried with the format
/// `%H:%M` and then with `%H:%M:%S`, and on
/// `Timelike::num_seconds_from_midnight`, which returns the non-leap
/// seconds past midnight, always under 86400.
#[verifier::external_body]
pub(crate) fn parse_clock_time(s: &String) -> (r: Option<u32>)
    ensures
        r == clock_time_of(s@),
        r matches Some(t) ==> t < SECONDS_PER_DAY,
{
    let parsed = NaiveTime::parse_from_str(s, "%H:%M").or_else(
        |_| NaiveTime::parse_from_str(s, "%H:%M:%S"),
    );
    match parsed {
        Ok(t) => Some(t.num_seconds_from_midnight()),
        Err(_) => None,
    }
}

} // verus!
