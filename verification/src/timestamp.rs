//! Calendar timestamps as plain values: what the posting-date pattern
//! yields once parsed. Validity follows the proleptic Gregorian
//! calendar, so an out-of-range date in the markup is a structural
//! error, never silently accepted.

use vstd::prelude::*;

verus! {

/// A parsed posting date and time of day (no time zone: the board
/// shows local times).
#[derive(Clone, Copy, Debug, PartialEq, Eq, Structural)]
pub struct Timestamp {
    pub year: u32,
    pub month: u32,
    pub day: u32,
    pub hour: u32,
    pub minute: u32,
    pub second: u32,
}

pub open spec fn is_leap_year(y: int) -> bool {
    y % 4 == 0 && (y % 100 != 0 || y % 400 == 0)
}

pub open spec fn days_in_month(y: int, m: int) -> int {
    if m == 2 {
        if is_leap_year(y) {
            29
        } else {
            28
        }
    } else if m == 4 || m == 6 || m == 9 || m == 11 {
        30
    } else {
        31
    }
}

/// The timestamp names a real calendar date (four-digit year) and a
/// real time of day.
pub open spec fn valid_timestamp(t: Timestamp) -> bool {
    &&& t.year <= 9999
    &&& 1 <= t.month <= 12
    &&& 1 <= t.day <= days_in_month(t.year as int, t.month as int)
    &&& t.hour < 24
    &&& t.minute < 60
    &&& t.second < 60
}

impl Timestamp {
    /// Builds a timestamp from parsed fields, rejecting anything that
    /// is not a real calendar date and time.
    pub fn new_checked(year: u32, month: u32, day: u32, hour: u32, minute: u32, second: u32) -> (r:
        Option<Timestamp>)
        ensures
            match r {
                Some(t) => t == (Timestamp { year, month, day, hour, minute, second })
                    && valid_timestamp(t),
                None => !valid_timestamp(Timestamp { year, month, day, hour, minute, second }),
            },
    {
        let t = Timestamp { year, month, day, hour, minute, second };
        if year > 9999 || month < 1 || month > 12 || hour >= 24 || minute >= 60 || second >= 60 {
            return None;
        }
        let leap = year % 4 == 0 && (year % 100 != 0 || year % 400 == 0);
        let dim: u32 = if month == 2 {
            if leap {
                29
            } else {
                28
            }
        } else if month == 4 || month == 6 || month == 9 || month == 11 {
            30
        } else {
            31
        };
        assert(dim == days_in_month(year as int, month as int));
        if day < 1 || day > dim {
            return None;
        }
        Some(t)
    }
}

} // verus!
