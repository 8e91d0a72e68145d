//! Calendar dates without a time of day.
use vstd::prelude::*;
use chrono::Datelike;

verus! {

/// A calendar date of the proleptic Gregorian calendar.
#[derive(Clone, Copy, Debug, PartialEq, Eq, Structural)]
pub struct Date {
    pub year: i32,
    pub month: u32,
    pub day: u32,
}

pub open spec fn is_leap_year(y: int) -> bool {
    (y % 4 == 0 && y % 100 != 0) || y % 400 == 0
}

pub open spec fn days_in_month(y: int, m: int) -> int {
    if m == 2 {
        if is_leap_year(y) { 29 } else { 28 }
    } else if m == 4 || m == 6 || m == 9 || m == 11 {
        30
    } else {
        31
    }
}

/// The smallest and largest years that a date can hold.
pub open spec fn year_in_range(y: int) -> bool {
    -262143 <= y <= 262142
}

pub open spec fn valid_ymd(y: int, m: int, d: int) -> bool {
    &&& year_in_range(y)
    &&& 1 <= m <= 12
    &&& 1 <= d <= days_in_month(y, m)
}

/// The RFC 2822 text of midnight UTC on a day, as chrono writes it.
pub uninterp spec fn rfc2822_midnight(y: int, m: int, d: int) -> Seq<char>;

impl Date {
    pub open spec fn valid(&self) -> bool {
        valid_ymd(self.year as int, self.month as int, self.day as int)
    }

    /// Strict chronological order.
    pub open spec fn before(&self, other: &Date) -> bool {
        ||| self.year < other.year
        ||| self.year == other.year && self.month < other.month
        ||| self.year == other.year && self.month == other.month && self.day < other.day
    }

    /// The date with these fields, or `None` where no such day exists.
    pub fn from_ymd(year: i32, month: u32, day: u32) -> (r: Option<Date>)
        ensures
            r is Some <==> valid_ymd(year as int, month as int, day as int),
            r matches Some(d) ==> d.year == year && d.month == month && d.day == day,
    {
        if chrono_day_exists(year, month, day) {
            Some(Date { year, month, day })
        } else {
            None
        }
    }

    /// Today's date in UTC, read from the system clock; `None` where the
    /// clock reads before 1970 or past what a date can hold.
    pub fn today() -> (r: Option<Date>)
        ensures
            r matches Some(d) ==> d.valid(),
    {
        match unix_seconds() {
            Some(secs) => if secs <= 9_223_372_036_854_775_807u64 {
                utc_day_of(secs as i64)
            } else {
                None
            },
            None => None,
        }
    }

    /// Compares two dates: negative, zero or positive as `self` comes
    /// before, on, or after `other`.
    pub fn compare(&self, other: &Date) -> (r: i8)
        ensures
            r < 0 <==> self.before(other),
            r > 0 <==> other.before(self),
            r == 0 <==> *self == *other,
    {
        if self.year != other.year {
            if self.year < other.year { -1 } else { 1 }
        } else if self.month != other.month {
            if self.month < other.month { -1 } else { 1 }
        } else if self.day != other.day {
            if self.day < other.day { -1 } else { 1 }
        } else {
            0
        }
    }

    /// The RFC 2822 timestamp of midnight UTC on this date.
    pub fn rfc2822(&self) -> (r: String)
        requires
            self.valid(),
            0 <= self.year <= 9999,
        ensures
            r@ == rfc2822_midnight(self.year as int, self.month as int, self.day as int),
    {
        midnight_rfc2822(self.year, self.month, self.day)
    }
}

/// Relies on chrono's `NaiveDate::from_ymd_opt`, which returns a date
/// exactly for a month and day of the Gregorian calendar within its year range.
#[verifier::external_body]
fn chrono_day_exists(year: i32, month: u32, day: u32) -> (r: bool)
    ensures
        r == valid_ymd(year as int, month as int, day as int),
{
    chrono::NaiveDate::from_ymd_opt(year, month, day).is_some()
}

/// Relies on std's `SystemTime::now` and `duration_since(UNIX_EPOCH)`: the
/// whole seconds since 1970, or `None` for a clock before then.
#[verifier::external_body]
fn unix_seconds() -> (r: Option<u64>) {
    std::time::SystemTime::now().duration_since(std::time::UNIX_EPOCH).ok().map(|d| d.as_secs())
}

/// Relies on chrono's `DateTime::from_timestamp` and `date_naive`: the UTC
/// day of a Unix timestamp, `None` out of chrono's range; chrono keeps the
/// fields of a date valid.
#[verifier::external_body]
fn utc_day_of(secs: i64) -> (r: Option<Date>)
    ensures
        r matches Some(d) ==> d.valid(),
{
    chrono::DateTime::from_timestamp(secs, 0).map(|t| t.date_naive()).map(|d| Date {
        year: d.year(),
        month: d.month(),
        day: d.day(),
    })
}

/// Relies on chrono's `DateTime::to_rfc2822` on midnight UTC of a day; it
/// panics only for years outside 0..=9999.
#[verifier::external_body]
fn midnight_rfc2822(year: i32, month: u32, day: u32) -> (r: String)
    requires
        valid_ymd(year as int, month as int, day as int),
        0 <= year <= 9999,
    ensures
        r@ == rfc2822_midnight(year as int, month as int, day as int),
{
    let d = chrono::NaiveDate::from_ymd_opt(year, month, day).unwrap();
    d.and_hms_opt(0, 0, 0).unwrap().and_utc().to_rfc2822()
}

} // verus!
