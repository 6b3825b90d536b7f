use vstd::prelude::*;
use vstd::arithmetic::div_mod::lemma_div_is_ordered;

verus! {

/// Seconds in one calendar day.
pub const SECONDS_PER_DAY: i64 = 86400;

/// Seconds in one minute.
pub const SECONDS_PER_MINUTE: i64 = 60;

/// Seconds in one hour.
pub const SECONDS_PER_HOUR: i64 = 3600;

/// A naive instant on the library's single clock: whole seconds since
/// 1970-01-01 00:00:00. No time zone is attached.
#[derive(Clone, Copy, Debug, PartialEq, Eq, Structural, PartialOrd, Ord, Hash)]
pub struct Timestamp {
    pub seconds: i64,
}

/// The calendar day on which an instant falls, with 1970-01-01 as day 0.
pub open spec fn day_number(t: Timestamp) -> int {
    t.seconds as int / SECONDS_PER_DAY as int
}

/// Whole minutes from `from` to `to`, truncated toward zero.
pub open spec fn minutes_between(from: Timestamp, to: Timestamp) -> int {
    let d = to.seconds - from.seconds;
    if d >= 0 {
        d / 60
    } else {
        -((-d) / 60)
    }
}

/// Whole hours from `from` to `to`, for `from <= to` (rounded down).
pub open spec fn hours_between(from: Timestamp, to: Timestamp) -> int {
    (to.seconds - from.seconds) / 3600
}

/// The day number (1970-01-01 is day 0) of a proleptic Gregorian date, or
/// `None` where the date does not exist or is out of the calendar's range.
pub uninterp spec fn civil_epoch_day(year: int, month: int, day: int) -> Option<int>;

/// Relies on chrono's `NaiveDate::from_ymd_opt`, which yields `None` exactly for a
/// date that does not exist or lies outside years -262143..=262142, and on
/// `NaiveDate::to_epoch_days`, which counts days with 1970-01-01 as day 0.
#[verifier::external_body]
fn epoch_day_of_date(year: i32, month: u32, day: u32) -> (r: Option<i32>)
    ensures
        match r {
            Some(n) => civil_epoch_day(year as int, month as int, day as int) == Some(n as int),
            None => civil_epoch_day(year as int, month as int, day as int) is None,
        },
        (-262143 <= year <= 262142 && 1 <= month <= 12 && 1 <= day <= 28) ==> r is Some,
{
    match chrono::NaiveDate::from_ymd_opt(year, month, day) {
        Some(date) => Some(date.to_epoch_days()),
        None => None,
    }
}

impl Timestamp {
    /// The instant `seconds` after 1970-01-01 00:00:00.
    pub fn from_seconds(seconds: i64) -> (r: Timestamp)
        ensures
            r.seconds == seconds,
    {
        Timestamp { seconds }
    }

    /// The instant at the given calendar date and time of day, or `None` where
    /// the date does not exist or a time field is out of range.
    pub fn from_ymd_hms(year: i32, month: u32, day: u32, hour: u32, minute: u32, second: u32) -> (r:
        Option<Timestamp>)
        ensures
            r == (match civil_epoch_day(year as int, month as int, day as int) {
                Some(n) => if hour < 24 && minute < 60 && second < 60 {
                    Some(
                        Timestamp {
                            seconds: (n * 86400 + hour * 3600 + minute * 60 + second) as i64,
                        },
                    )
                } else {
                    None
                },
                None => None,
            }),
    {
        let day_index = epoch_day_of_date(year, month, day);
        match day_index {
            Some(n) => {
                if hour < 24 && minute < 60 && second < 60 {
                    let s: i64 = (n as i64) * SECONDS_PER_DAY + (hour as i64) * SECONDS_PER_HOUR
                        + (minute as i64) * SECONDS_PER_MINUTE + (second as i64);
                    Some(Timestamp { seconds: s })
                } else {
                    None
                }
            },
            None => None,
        }
    }

    /// The calendar day of this instant, with 1970-01-01 as day 0.
    pub fn day(&self) -> (r: i64)
        ensures
            r == day_number(*self),
            i64::MIN / 86400 <= r <= i64::MAX / 86400,
    {
        proof {
            lemma_div_is_ordered(i64::MIN as int, self.seconds as int, 86400);
            lemma_div_is_ordered(self.seconds as int, i64::MAX as int, 86400);
        }
        let q = self.seconds.checked_div_euclid(SECONDS_PER_DAY);
        q.unwrap()
    }

    /// Whole minutes from `self` to `later`, truncated toward zero (negative
    /// where `later` comes first).
    pub fn minutes_until(&self, later: Timestamp) -> (r: i64)
        ensures
            r == minutes_between(*self, later),
    {
        let d: i128 = (later.seconds as i128) - (self.seconds as i128);
        if d >= 0 {
            (d / 60) as i64
        } else {
            let m: i128 = (-d) / 60;
            (-m) as i64
        }
    }
}

} // verus!
