use vstd::prelude::*;

verus! {

/// A calendar date (year, month, day), without a time zone.
#[derive(Clone, Copy, Debug, PartialEq, Eq, Structural, Hash, PartialOrd, Ord)]
pub struct Date {
    pub year: u32,
    pub month: u32,
    pub day: u32,
}

/// A time of day (hour, minute, second), without a time zone.
#[derive(Clone, Copy, Debug, PartialEq, Eq, Structural, Hash, PartialOrd, Ord)]
pub struct Time {
    pub hour: u32,
    pub minute: u32,
    pub second: u32,
}

pub open spec fn is_leap_year(y: int) -> bool {
    (y % 4 == 0 && y % 100 != 0) || y % 400 == 0
}

pub open spec fn days_in_month(y: int, m: int) -> int {
    if m == 2 {
        if is_leap_year(y) { 29 } else { 28 }
    } else if m == 4 || m == 6 || m == 9 || m == 11 {
        30
    } else {
        31
    }
}

/// The day exists in the proleptic Gregorian calendar.
pub open spec fn is_valid_date(y: int, m: int, d: int) -> bool {
    1 <= m <= 12 && 1 <= d <= days_in_month(y, m)
}

pub open spec fn is_valid_time(h: int, m: int, s: int) -> bool {
    0 <= h < 24 && 0 <= m < 60 && 0 <= s < 60
}

/// Relies on chrono::NaiveDate::from_ymd_opt: it returns a date exactly when the
/// month is in 1..=12 and the day exists in that month of that Gregorian year;
/// every year up to 9999 lies inside chrono's range.
#[verifier::external_body]
fn chrono_date_exists(year: u32, month: u32, day: u32) -> (r: bool)
    requires
        year <= 9999,
    ensures
        r == is_valid_date(year as int, month as int, day as int),
{
    chrono::NaiveDate::from_ymd_opt(year as i32, month, day).is_some()
}

impl Date {
    /// The date with these fields, when it exists and its year has at most four digits.
    pub fn from_ymd(year: u32, month: u32, day: u32) -> (r: Option<Date>)
        ensures
            r is Some <==> (year <= 9999 && is_valid_date(year as int, month as int, day as int)),
            r matches Some(d) ==> d == (Date { year, month, day }),
    {
        if year <= 9999 && chrono_date_exists(year, month, day) {
            Some(Date { year, month, day })
        } else {
            None
        }
    }
}

impl Time {
    /// The time with these fields, when it exists.
    pub fn from_hms(hour: u32, minute: u32, second: u32) -> (r: Option<Time>)
        ensures
            r is Some <==> is_valid_time(hour as int, minute as int, second as int),
            r matches Some(t) ==> t == (Time { hour, minute, second }),
    {
        if hour < 24 && minute < 60 && second < 60 {
            Some(Time { hour, minute, second })
        } else {
            None
        }
    }
}

} // verus!
