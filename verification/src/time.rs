use crate::directory::FatDateTime;
use chrono::TimeZone;
use vstd::prelude::*;

verus! {

/// The seconds from 1970-01-01 00:00:00 to the given moment of the
/// proleptic Gregorian calendar, both read on the same clock, without leap
/// seconds; `None` where the calendar has no such moment (month 0,
/// 30 February, hour 24, second 60) or the year is beyond what the calendar
/// library represents.
pub uninterp spec fn calendar_seconds(
    year: i32,
    month: u32,
    day: u32,
    hour: u32,
    minute: u32,
    second: u32,
) -> Option<i64>;

/// Calls `chrono::TimeZone::with_ymd_and_hms` on `chrono::Utc` and hands
/// back what `chrono::DateTime::timestamp` says of the moment it gives,
/// `None` where it gives none. Believed, not proved: that the result is a
/// function of the six numbers alone, which is all the contract says. No
/// time zone enters: `Utc` has a fixed offset of zero.
#[verifier::external_body]
fn utc_timestamp(year: i32, month: u32, day: u32, hour: u32, minute: u32, second: u32) -> (r:
    Option<i64>)
    ensures
        r == calendar_seconds(year, month, day, hour, minute, second),
{
    match chrono::Utc.with_ymd_and_hms(year, month, day, hour, minute, second) {
        chrono::LocalResult::Single(moment) => Some(moment.timestamp()),
        chrono::LocalResult::Ambiguous(earliest, _) => Some(earliest.timestamp()),
        chrono::LocalResult::None => None,
    }
}

/// The seconds that stand for a moment: its own where it has them, the
/// epoch where the date on disk is no date.
pub open spec fn epoch_default(seconds: Option<i64>) -> i64 {
    match seconds {
        Some(s) => s,
        None => 0,
    }
}

/// Replaces a moment that does not exist by the epoch.
pub fn seconds_or_epoch(seconds: Option<i64>) -> (r: i64)
    ensures
        r == epoch_default(seconds),
{
    match seconds {
        Some(s) => s,
        None => 0,
    }
}

impl FatDateTime {
    /// The calendar seconds of this moment.
    pub open spec fn seconds_spec(&self) -> Option<i64> {
        calendar_seconds(self.year, self.month, self.day, self.hour, self.minute, self.second)
    }

    /// The seconds from the epoch to this moment, both in local time; `None`
    /// where the fields name no moment.
    pub fn seconds(&self) -> (r: Option<i64>)
        ensures
            r == self.seconds_spec(),
    {
        utc_timestamp(self.year, self.month, self.day, self.hour, self.minute, self.second)
    }

    /// The seconds from the epoch to this moment, 0 where the fields name
    /// none.
    pub fn timestamp(&self) -> (r: i64)
        ensures
            r == epoch_default(self.seconds_spec()),
    {
        seconds_or_epoch(self.seconds())
    }
}

} // verus!
