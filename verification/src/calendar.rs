//! Calendar dates of the proleptic Gregorian calendar.
use chrono::{Datelike, Timelike};
use vstd::prelude::*;

verus! {

/// The earliest year a date can have.
pub const MIN_YEAR: i32 = -262143;

/// The latest year a date can have.
pub const MAX_YEAR: i32 = 262142;

/// Leap years come every fourth year, except in centuries not divisible by
/// four hundred.
pub open spec fn is_leap_year(year: int) -> bool {
    year % 4 == 0 && (year % 100 != 0 || year % 400 == 0)
}

/// The number of days of a month; months are counted from one.
pub open spec fn days_in_month(year: int, month: int) -> int {
    if month == 2 {
        if is_leap_year(year) {
            29
        } else {
            28
        }
    } else if month == 4 || month == 6 || month == 9 || month == 11 {
        30
    } else {
        31
    }
}

/// Whether a year, a month and a day name a day that exists and that a
/// `CalendarDate` can hold.
pub open spec fn is_calendar_date(year: int, month: int, day: int) -> bool {
    &&& MIN_YEAR <= year <= MAX_YEAR
    &&& 1 <= month <= 12
    &&& 1 <= day <= days_in_month(year, month)
}

/// The number of days from the first day of year 1 to the first day of
/// `year`; negative for the years before.
pub open spec fn days_before_year(year: int) -> int {
    let past = year - 1;
    365 * past + past / 4 - past / 100 + past / 400
}

/// The number of days of `year` that lie before the first of `month`.
pub open spec fn days_before_month(year: int, month: int) -> int
    decreases month,
{
    if month <= 1 {
        0
    } else {
        days_before_month(year, month - 1) + days_in_month(year, month - 1)
    }
}

/// The number of minutes in a day.
pub const MINUTES_PER_DAY: u32 = 1440;

/// A day of the calendar, without a time zone.
#[derive(Clone, Copy, Debug, PartialEq, Eq, Structural)]
pub struct CalendarDate {
    pub year: i32,
    pub month: u32,
    pub day: u32,
}

/// chrono's `NaiveDate::from_ymd_opt`, with the date it builds read back
/// through `Datelike`. Believed, not proved: chrono accepts exactly the days
/// that exist in a year between `MIN_YEAR` and `MAX_YEAR`, and the date it
/// returns has the year, month and day it was given.
#[verifier::external_body]
fn checked_date(year: i32, month: u32, day: u32) -> (r: Option<CalendarDate>)
    ensures
        r == (if is_calendar_date(year as int, month as int, day as int) {
            Some((CalendarDate { year, month, day }))
        } else {
            None
        }),
{
    let date = chrono::NaiveDate::from_ymd_opt(year, month, day)?;
    Some(CalendarDate { year: date.year(), month: date.month(), day: date.day() })
}

/// The year of chrono's `Local::now()`. Nothing is claimed of it: it is
/// whatever the clock of the machine shows in its own time zone.
#[verifier::external_body]
pub(crate) fn current_year() -> i32 {
    chrono::Local::now().year()
}

impl CalendarDate {
    /// The date is one that exists.
    pub open spec fn wf(self) -> bool {
        is_calendar_date(self.year as int, self.month as int, self.day as int)
    }

    /// The place of the day in the run of all days: the first day of year 1
    /// is day 1, and each day has the number after that of the day before.
    pub open spec fn day_number(self) -> int {
        days_before_year(self.year as int) + days_before_month(
            self.year as int,
            self.month as int,
        ) + self.day
    }

    /// Whether the date is one that exists.
    pub fn is_valid(&self) -> (r: bool)
        ensures
            r == self.wf(),
    {
        checked_date(self.year, self.month, self.day).is_some()
    }

    /// The date with the given year, month and day, if that day exists.
    pub fn new(year: i32, month: u32, day: u32) -> (r: Option<CalendarDate>)
        ensures
            r == (if is_calendar_date(year as int, month as int, day as int) {
                Some((CalendarDate { year, month, day }))
            } else {
                None
            }),
    {
        checked_date(year, month, day)
    }
}

/// A minute of a day of the calendar, as a clock on the wall shows it.
#[derive(Clone, Copy, Debug, PartialEq, Eq, Structural)]
pub struct Timestamp {
    pub date: CalendarDate,
    pub hour: u32,
    pub minute: u32,
}

/// chrono's `NaiveDateTime::checked_add_signed`, on a date and time built
/// with `NaiveDate::from_ymd_opt` and `and_hms_opt` and a span built with
/// `TimeDelta::try_minutes`, the outcome read back through `Datelike` and
/// `Timelike`. Believed, not proved: chrono counts in the proleptic Gregorian
/// calendar without leap seconds, so the outcome is the timestamp that many
/// minutes later, and there is none only where no date that exists in a year
/// between `MIN_YEAR` and `MAX_YEAR` holds that minute.
#[verifier::external_body]
fn shifted(at: Timestamp, minutes: i64) -> (r: Option<Timestamp>)
    requires
        at.wf(),
    ensures
        match r {
            Some(to) => to.wf() && to.minute_number() == at.minute_number() + minutes,
            None => forall|to: Timestamp|
                to.wf() ==> #[trigger] to.minute_number() != at.minute_number() + minutes,
        },
{
    let date = chrono::NaiveDate::from_ymd_opt(at.date.year, at.date.month, at.date.day)?;
    let from = date.and_hms_opt(at.hour, at.minute, 0)?;
    let to = from.checked_add_signed(chrono::TimeDelta::try_minutes(minutes)?)?;
    Some(
        Timestamp {
            date: CalendarDate { year: to.year(), month: to.month(), day: to.day() },
            hour: to.hour(),
            minute: to.minute(),
        },
    )
}

/// Whether `a` comes before `b` in the calendar: by year, then by month, then
/// by day.
pub open spec fn date_precedes(a: CalendarDate, b: CalendarDate) -> bool {
    ||| a.year < b.year
    ||| a.year == b.year && a.month < b.month
    ||| a.year == b.year && a.month == b.month && a.day < b.day
}

/// Whether `a` comes before `b`: by day, then by hour, then by minute.
pub open spec fn precedes(a: Timestamp, b: Timestamp) -> bool {
    ||| date_precedes(a.date, b.date)
    ||| a.date == b.date && a.hour < b.hour
    ||| a.date == b.date && a.hour == b.hour && a.minute < b.minute
}

/// A year has 365 days, and one more if it is a leap year.
proof fn lemma_year_length(year: int)
    ensures
        days_before_year(year + 1) == days_before_year(year) + days_before_month(year, 13),
        days_before_month(year, 13) == if is_leap_year(year) {
            366int
        } else {
            365int
        },
{
    reveal_with_fuel(days_before_month, 14);
}

/// Later years begin later, by at least 365 days for each year between.
proof fn lemma_years_apart(from: int, to: int)
    requires
        from <= to,
    ensures
        days_before_year(to) - days_before_year(from) >= 365 * (to - from),
    decreases to - from,
{
    if from < to {
        lemma_years_apart(from, to - 1);
        lemma_year_length(to - 1);
    }
}

/// A month ends before a later month of the same year begins, or as it
/// begins.
proof fn lemma_months_apart(year: int, from: int, to: int)
    requires
        1 <= from < to,
    ensures
        days_before_month(year, from) + days_in_month(year, from) <= days_before_month(year, to),
    decreases to - from,
{
    if from + 1 < to {
        lemma_months_apart(year, from, to - 1);
    }
}

/// The numbers of the days follow the calendar: of two days that exist, the
/// one that comes first by year, month and day has the smaller number.
pub proof fn lemma_day_number_order(a: CalendarDate, b: CalendarDate)
    requires
        a.wf(),
        b.wf(),
    ensures
        date_precedes(a, b) <==> a.day_number() < b.day_number(),
        a.day_number() == b.day_number() <==> a == b,
{
    if date_precedes(a, b) {
        lemma_day_number_ascends(a, b);
    }
    if date_precedes(b, a) {
        lemma_day_number_ascends(b, a);
    }
}

/// One direction of `lemma_day_number_order`.
proof fn lemma_day_number_ascends(a: CalendarDate, b: CalendarDate)
    requires
        a.wf(),
        b.wf(),
        date_precedes(a, b),
    ensures
        a.day_number() < b.day_number(),
{
    let (ay, am) = (a.year as int, a.month as int);
    let (by, bm) = (b.year as int, b.month as int);
    lemma_days_before_month_bounds(by, bm);
    if ay < by {
        lemma_months_apart(ay, am, 13);
        lemma_year_length(ay);
        lemma_years_apart(ay + 1, by);
    } else if am < bm {
        lemma_months_apart(ay, am, bm);
    }
}

/// The numbers of the minutes follow the calendar and the clock: of two
/// timestamps, the one that comes first has the smaller number, and no two
/// share one.
pub proof fn lemma_minute_number_order(a: Timestamp, b: Timestamp)
    requires
        a.wf(),
        b.wf(),
    ensures
        precedes(a, b) <==> a.minute_number() < b.minute_number(),
        a.minute_number() == b.minute_number() <==> a == b,
{
    lemma_day_number_order(a.date, b.date);
    lemma_day_number_order(b.date, a.date);
}

/// No month begins before its year, nor more than 31 days for each month
/// before it after the year began.
pub proof fn lemma_days_before_month_bounds(year: int, month: int)
    requires
        1 <= month,
    ensures
        0 <= days_before_month(year, month) <= 31 * (month - 1),
    decreases month,
{
    if month > 1 {
        lemma_days_before_month_bounds(year, month - 1);
    }
}

/// Every timestamp lies within two to the fortieth minutes of the first day
/// of year 1.
pub proof fn lemma_minute_number_bounds()
    ensures
        forall|t: Timestamp|
            t.wf() ==> -0x100_0000_0000 < #[trigger] t.minute_number() < 0x100_0000_0000,
{
    assert forall|t: Timestamp| t.wf() implies -0x100_0000_0000 < #[trigger] t.minute_number()
        < 0x100_0000_0000 by {
        lemma_days_before_month_bounds(t.date.year as int, t.date.month as int);
    }
}

impl Timestamp {
    /// The day exists, the hour is one of its twenty-four and the minute one
    /// of the hour's sixty.
    pub open spec fn wf(self) -> bool {
        self.date.wf() && self.hour < 24 && self.minute < 60
    }

    /// The place of the minute in the run of all minutes: each day has 1440
    /// of them, and the days follow each other by their numbers.
    pub open spec fn minute_number(self) -> int {
        self.date.day_number() * MINUTES_PER_DAY + self.hour * 60 + self.minute
    }

    /// Whether this is a timestamp and another one lies `minutes` after it.
    pub open spec fn can_add(self, minutes: int) -> bool {
        &&& self.wf()
        &&& exists|to: Timestamp|
            to.wf() && #[trigger] to.minute_number() == self.minute_number() + minutes
    }

    /// Whether the day exists and the time is one that a clock shows.
    pub fn is_valid(&self) -> (r: bool)
        ensures
            r == self.wf(),
    {
        self.date.is_valid() && self.hour < 24 && self.minute < 60
    }

    /// The timestamp `minutes` after this one, if this is one and the
    /// calendar reaches that far.
    pub fn plus_minutes(self, minutes: i64) -> (r: Option<Timestamp>)
        ensures
            match r {
                Some(to) => self.wf() && to.wf() && to.minute_number() == self.minute_number()
                    + minutes,
                None => !self.can_add(minutes as int),
            },
    {
        if self.is_valid() {
            shifted(self, minutes)
        } else {
            None
        }
    }

    /// The timestamp that lies a length of time, given in minutes, after
    /// this one, if this is one and the calendar reaches that far.
    pub fn later_by(self, minutes: u64) -> (r: Option<Timestamp>)
        ensures
            match r {
                Some(to) => self.wf() && to.wf() && to.minute_number() == self.minute_number()
                    + minutes,
                None => !self.can_add(minutes as int),
            },
    {
        if minutes > i64::MAX as u64 {
            proof {
                lemma_minute_number_bounds();
            }
            None
        } else {
            self.plus_minutes(minutes as i64)
        }
    }
}

} // verus!
