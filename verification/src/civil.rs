//! Civil time.
//!
//! A [`DateTime`] is an instant with the UTC offset that it is shown in; a
//! [`Civil`] is what a calendar and a clock show. Dates are those of the
//! proleptic Gregorian calendar, counted by Julian day.

use crate::unit::duration::TimeSpan;
use time::{Date, Month};
use vstd::prelude::*;

verus! {

// ---------------------------------------------------------------------
// The calendar
// ---------------------------------------------------------------------

/// Whether a year has a 29th of February.
pub open spec fn is_leap(y: int) -> bool {
    y % 4 == 0 && (y % 100 != 0 || y % 400 == 0)
}

/// The number of days in a month.
pub open spec fn month_len(y: int, m: int) -> int {
    if m == 2 {
        if is_leap(y) {
            29
        } else {
            28
        }
    } else if m == 4 || m == 6 || m == 9 || m == 11 {
        30
    } else {
        31
    }
}

/// Whether there is such a date.
pub open spec fn valid_date(y: int, m: int, d: int) -> bool {
    1 <= m <= 12 && 1 <= d <= month_len(y, m)
}

/// The days of a year before a month, in a year without a 29th of February.
pub open spec fn common_days_before(m: int) -> int {
    if m <= 1 {
        0
    } else if m == 2 {
        31
    } else if m == 3 {
        59
    } else if m == 4 {
        90
    } else if m == 5 {
        120
    } else if m == 6 {
        151
    } else if m == 7 {
        181
    } else if m == 8 {
        212
    } else if m == 9 {
        243
    } else if m == 10 {
        273
    } else if m == 11 {
        304
    } else {
        334
    }
}

/// The days of a year before a month.
pub open spec fn days_before(y: int, m: int) -> int {
    common_days_before(m) + if m > 2 && is_leap(y) {
        1int
    } else {
        0int
    }
}

/// The days before a year, counted from the start of the year 1.
pub open spec fn year_start(y: int) -> int {
    365 * (y - 1) + (y - 1) / 4 - (y - 1) / 100 + (y - 1) / 400
}

/// The Julian day of a date. That of 2000-01-01 is 2451545.
pub open spec fn day_number(y: int, m: int, d: int) -> int {
    year_start(y) + days_before(y, m) + d + 1721425
}

/// The Julian day of 1970-01-01.
pub const EPOCH_DAY: i32 = 2440588;

/// The Julian day of -9999-01-01, the first date.
pub const FIRST_DAY: i32 = -1930999;

/// The Julian day of 9999-12-31, the last date.
pub const LAST_DAY: i32 = 5373484;

/// `Date::from_calendar_date` of the `time` crate, and `Date::to_julian_day` of
/// the date it makes. Claimed: there is a date just if the day lies in the
/// month, and its number is that of the proleptic Gregorian calendar.
#[verifier::external_body]
fn julian_day(year: i32, month: u8, day: u8) -> (r: Option<i32>)
    requires
        -9999 <= year <= 9999,
        1 <= month <= 12,
    ensures
        match r {
            Some(j) => valid_date(year as int, month as int, day as int) && j == day_number(
                year as int,
                month as int,
                day as int,
            ),
            None => !valid_date(year as int, month as int, day as int),
        },
{
    let month = Month::try_from(month).ok()?;
    Date::from_calendar_date(year, month, day).ok().map(|d| d.to_julian_day())
}

/// `Date::from_julian_day` of the `time` crate, and `Date::to_calendar_date` of
/// the date it makes. Claimed: a day in range is that of a date, which comes
/// back.
#[verifier::external_body]
fn date_of_julian_day(day: i32) -> (r: Option<(i32, u8, u8)>)
    requires
        FIRST_DAY <= day <= LAST_DAY,
    ensures
        match r {
            Some((y, m, d)) => -9999 <= y <= 9999 && valid_date(y as int, m as int, d as int)
                && day_number(y as int, m as int, d as int) == day,
            None => false,
        },
{
    let (year, month, day) = Date::from_julian_day(day).ok()?.to_calendar_date();
    Some((year, month.into(), day))
}

/// `Date::weekday` of the `time` crate, and `Weekday::number_from_monday` of
/// what it gives, for the date of a Julian day in range. Claimed: Monday is 1
/// and Sunday is 7, and Julian day 0 was a Monday.
#[verifier::external_body]
fn weekday_of_julian_day(day: i32) -> (r: Option<u8>)
    requires
        FIRST_DAY <= day <= LAST_DAY,
    ensures
        match r {
            Some(w) => w == day as int % 7 + 1,
            None => false,
        },
{
    Date::from_julian_day(day).ok().map(|d| d.weekday().number_from_monday())
}

/// The day of the week of a date, from 1 for Monday to 7 for Sunday.
pub open spec fn iso_weekday(y: int, m: int, d: int) -> int {
    day_number(y, m, d) % 7 + 1
}

proof fn lemma_year_step(y: int)
    ensures
        year_start(y + 1) - year_start(y) == if is_leap(y) {
            366int
        } else {
            365int
        },
{
}

/// The start of a later year lies behind the start of an earlier one and all of
/// its days.
proof fn lemma_years_grow(a: int, b: int)
    requires
        a < b,
    ensures
        year_start(a) + 365 + if is_leap(a) {
            1int
        } else {
            0int
        } <= year_start(b),
    decreases b - a,
{
    lemma_year_step(a);
    if a + 1 < b {
        lemma_years_grow(a + 1, b);
    }
}

proof fn lemma_months_grow(y: int, a: int, b: int)
    requires
        1 <= a < b <= 12,
    ensures
        days_before(y, a) + month_len(y, a) <= days_before(y, b),
    decreases b - a,
{
    if a + 1 < b {
        lemma_months_grow(y, a + 1, b);
    }
}

proof fn lemma_day_in_year(y: int, m: int, d: int)
    requires
        valid_date(y, m, d),
    ensures
        1 <= days_before(y, m) + d <= 365 + if is_leap(y) {
            1int
        } else {
            0int
        },
{
}

/// Whether a date comes before another.
pub open spec fn date_before(y: int, m: int, d: int, y2: int, m2: int, d2: int) -> bool {
    y < y2 || (y == y2 && (m < m2 || (m == m2 && d < d2)))
}

/// Later dates have larger Julian days.
pub proof fn days_grow_with_dates(y: int, m: int, d: int, y2: int, m2: int, d2: int)
    requires
        valid_date(y, m, d),
        valid_date(y2, m2, d2),
    ensures
        date_before(y, m, d, y2, m2, d2) <==> day_number(y, m, d) < day_number(y2, m2, d2),
{
    lemma_day_in_year(y, m, d);
    lemma_day_in_year(y2, m2, d2);
    if y < y2 {
        lemma_years_grow(y, y2);
    } else if y2 < y {
        lemma_years_grow(y2, y);
    } else if m < m2 {
        lemma_months_grow(y, m, m2);
    } else if m2 < m {
        lemma_months_grow(y, m2, m);
    }
}

/// The number of days in a month: from its first day to that of the next one.
pub fn days_in_month(year: i32, month: u32) -> (r: u32)
    requires
        -9999 <= year <= 9999,
        1 <= month <= 12,
    ensures
        r == month_len(year as int, month as int),
{
    if month == 12 && year == 9999 {
        return 31;
    }
    let next_year = if month == 12 { year + 1 } else { year };
    let next_month: u8 = if month == 12 { 1 } else { month as u8 + 1 };
    proof {
        lemma_year_step(year as int);
    }
    match (julian_day(next_year, next_month, 1), julian_day(year, month as u8, 1)) {
        (Some(next), Some(this)) => (next - this) as u32,
        _ => 31,
    }
}

// ---------------------------------------------------------------------
// Calendar and clock
// ---------------------------------------------------------------------

/// What a calendar and a clock show.
#[derive(Debug, Clone, Copy, PartialEq, Eq, Structural)]
pub struct Civil {
    pub year: i32,
    /// 1 to 12.
    pub month: u32,
    /// 1 to the length of the month.
    pub day: u32,
    /// 0 to 23.
    pub hour: u32,
    /// 0 to 59.
    pub minute: u32,
    /// 0 to 59.
    pub second: u32,
}

/// Whether a calendar and a clock can show this.
pub open spec fn is_civil(c: Civil) -> bool {
    valid_date(c.year as int, c.month as int, c.day as int) && c.hour < 24 && c.minute < 60
        && c.second < 60
}

/// The Julian day of its date.
pub open spec fn civil_day(c: Civil) -> int {
    day_number(c.year as int, c.month as int, c.day as int)
}

/// The seconds from 1970-01-01 00:00:00 on the same clock.
pub open spec fn seconds(c: Civil) -> int {
    (civil_day(c) - EPOCH_DAY) * 86400 + c.hour * 3600 + c.minute * 60 + c.second
}

/// Whether one comes before the other: by year, month, day, hour, minute and
/// second.
pub open spec fn civil_before(a: Civil, b: Civil) -> bool {
    a.year < b.year || (a.year == b.year && (a.month < b.month || (a.month == b.month && (a.day
        < b.day || (a.day == b.day && (a.hour < b.hour || (a.hour == b.hour && (a.minute < b.minute
        || (a.minute == b.minute && a.second < b.second)))))))))
}

/// The seconds grow with what calendar and clock show, so that two instants
/// that show the same are one.
pub proof fn seconds_grow(a: Civil, b: Civil)
    requires
        is_civil(a),
        is_civil(b),
    ensures
        civil_before(a, b) <==> seconds(a) < seconds(b),
        seconds(a) == seconds(b) ==> a == b,
{
    days_grow_with_dates(
        a.year as int,
        a.month as int,
        a.day as int,
        b.year as int,
        b.month as int,
        b.day as int,
    );
    days_grow_with_dates(
        b.year as int,
        b.month as int,
        b.day as int,
        a.year as int,
        a.month as int,
        a.day as int,
    );
}

/// Whether one comes before the other.
pub fn is_before(a: Civil, b: Civil) -> (r: bool)
    ensures
        r == civil_before(a, b),
{
    if a.year != b.year {
        a.year < b.year
    } else if a.month != b.month {
        a.month < b.month
    } else if a.day != b.day {
        a.day < b.day
    } else if a.hour != b.hour {
        a.hour < b.hour
    } else if a.minute != b.minute {
        a.minute < b.minute
    } else {
        a.second < b.second
    }
}

/// The day of the week, from 1 for Monday to 7 for Sunday.
pub fn weekday(c: Civil) -> (r: u32)
    requires
        is_civil(c),
        -9999 <= c.year <= 9999,
    ensures
        r == iso_weekday(c.year as int, c.month as int, c.day as int),
{
    proof {
        lemma_day_range(c.year as int, c.month as int, c.day as int);
    }
    match julian_day(c.year, c.month as u8, c.day as u8) {
        Some(j) => match weekday_of_julian_day(j) {
            Some(w) => w as u32,
            None => 0,
        },
        None => 0,
    }
}

/// The dates of the years -9999 to 9999 have the days in range.
pub proof fn lemma_day_range(y: int, m: int, d: int)
    requires
        valid_date(y, m, d),
    ensures
        -9999 <= y <= 9999 <==> FIRST_DAY <= day_number(y, m, d) <= LAST_DAY,
{
    days_grow_with_dates(y, m, d, -9999, 1, 1);
    days_grow_with_dates(y, m, d, 9999, 12, 31);
    days_grow_with_dates(9999, 12, 31, y, m, d);
    days_grow_with_dates(-9999, 1, 1, y, m, d);
    assert(day_number(-9999, 1, 1) == FIRST_DAY);
    assert(day_number(9999, 12, 31) == LAST_DAY);
}

// ---------------------------------------------------------------------
// Instants
// ---------------------------------------------------------------------

/// The first second that a clock can show, from 1970-01-01 00:00:00.
pub const FIRST_SECOND: i64 = -377705116800;

/// The last second that a clock can show, from 1970-01-01 00:00:00.
pub const LAST_SECOND: i64 = 253402300799;

/// The largest UTC offset, in seconds: just under 26 hours.
pub const MAX_OFFSET: i32 = 93599;

/// An instant, and the UTC offset that it is shown in.
#[derive(Debug, Clone, Copy, PartialEq, Eq)]
pub struct DateTime {
    secs: i64,
    nanos: u32,
    offset: i32,
}

/// A [`DateTime`]: seconds and nanoseconds from 1970-01-01 00:00:00 UTC, and
/// the offset in seconds.
pub struct DateTimeView {
    pub secs: int,
    pub nanos: int,
    pub offset: int,
}

impl View for DateTime {
    type V = DateTimeView;

    closed spec fn view(&self) -> DateTimeView {
        DateTimeView { secs: self.secs as int, nanos: self.nanos as int, offset: self.offset as int }
    }
}

/// Whether a clock can show this instant.
pub open spec fn is_instant(t: DateTimeView) -> bool {
    &&& 0 <= t.nanos < 1_000_000_000
    &&& -MAX_OFFSET <= t.offset <= MAX_OFFSET
    &&& FIRST_SECOND <= t.secs + t.offset <= LAST_SECOND
}

/// Whether an instant comes before another.
pub open spec fn earlier(a: DateTimeView, b: DateTimeView) -> bool {
    a.secs < b.secs || (a.secs == b.secs && a.nanos < b.nanos)
}

/// The view of an optional instant.
pub open spec fn opt_instant(o: Option<DateTime>) -> Option<DateTimeView> {
    match o {
        Some(t) => Some(t@),
        None => None,
    }
}

/// An instant with a span added.
pub open spec fn plus(t: DateTimeView, d: TimeSpan) -> DateTimeView {
    DateTimeView {
        secs: t.secs + d.secs + (t.nanos + d.nanos) / 1_000_000_000,
        nanos: (t.nanos + d.nanos) % 1_000_000_000,
        ..t
    }
}

/// The largest number of days that divides evenly below a number of seconds.
fn whole_days(local: i64) -> (r: (i64, i64))
    requires
        FIRST_SECOND <= local <= LAST_SECOND,
    ensures
        local == r.0 * 86400 + r.1,
        0 <= r.1 < 86400,
{
    let shifted: i64 = local - FIRST_SECOND;
    let days: i64 = shifted / 86400;
    let rest: i64 = shifted % 86400;
    (days - 4371587, rest)
}

impl DateTime {
    #[verifier::type_invariant]
    closed spec fn wf(&self) -> bool {
        is_instant(self@)
    }

    /// The instant at a number of seconds from 1970-01-01 00:00:00 UTC, where a
    /// clock in UTC can show it.
    pub fn from_unix_timestamp(secs: i64) -> (r: Option<Self>)
        ensures
            match r {
                Some(t) => t@ == (DateTimeView { secs: secs as int, nanos: 0, offset: 0 })
                    && is_instant(t@),
                None => !is_instant(DateTimeView { secs: secs as int, nanos: 0, offset: 0 }),
            },
    {
        DateTime::new(secs, 0, 0)
    }

    /// The instant at a number of seconds and nanoseconds from 1970-01-01
    /// 00:00:00 UTC, with an offset, where a clock can show it.
    pub fn new(secs: i64, nanos: u32, offset: i32) -> (r: Option<Self>)
        ensures
            match r {
                Some(t) => t@ == (DateTimeView {
                    secs: secs as int,
                    nanos: nanos as int,
                    offset: offset as int,
                }) && is_instant(t@),
                None => !is_instant(
                    DateTimeView { secs: secs as int, nanos: nanos as int, offset: offset as int },
                ),
            },
    {
        if nanos >= 1_000_000_000 || offset < -MAX_OFFSET || offset > MAX_OFFSET {
            return None;
        }
        if secs < FIRST_SECOND - offset as i64 || secs > LAST_SECOND - offset as i64 {
            return None;
        }
        Some(DateTime { secs, nanos, offset })
    }

    /// The instant at which a clock with an offset shows this.
    pub fn from_civil(c: Civil, offset: i32) -> (r: Option<Self>)
        ensures
            match r {
                Some(t) => is_civil(c) && t@.secs + offset == seconds(c) && t@.nanos == 0
                    && t@.offset == offset && is_instant(t@),
                None => !(is_civil(c) && -9999 <= c.year <= 9999 && -MAX_OFFSET <= offset
                    <= MAX_OFFSET),
            },
    {
        if c.year < -9999 || c.year > 9999 || c.month < 1 || c.month > 12 || c.day > 31 || c.hour
            >= 24 || c.minute >= 60 || c.second >= 60 {
            return None;
        }
        if offset < -MAX_OFFSET || offset > MAX_OFFSET {
            return None;
        }
        match julian_day(c.year, c.month as u8, c.day as u8) {
            None => None,
            Some(j) => {
                proof {
                    lemma_day_range(c.year as int, c.month as int, c.day as int);
                }
                let local: i64 = (j as i64 - EPOCH_DAY as i64) * 86400 + c.hour as i64 * 3600
                    + c.minute as i64 * 60 + c.second as i64;
                DateTime::new(local - offset as i64, 0, offset)
            },
        }
    }

    /// The seconds from 1970-01-01 00:00:00 UTC.
    pub fn unix_timestamp(&self) -> (r: i64)
        ensures
            r == self@.secs,
            is_instant(self@),
    {
        proof {
            use_type_invariant(self);
        }
        self.secs
    }

    /// The nanoseconds on top of the seconds.
    pub fn nanosecond(&self) -> (r: u32)
        ensures
            r == self@.nanos,
    {
        self.nanos
    }

    /// The UTC offset in seconds.
    pub fn offset(&self) -> (r: i32)
        ensures
            r == self@.offset,
    {
        self.offset
    }

    /// What calendar and clock show.
    pub fn civil(&self) -> (r: Civil)
        ensures
            is_civil(r),
            -9999 <= r.year <= 9999,
            seconds(r) == self@.secs + self@.offset,
            is_instant(self@),
    {
        proof {
            use_type_invariant(self);
        }
        let local: i64 = self.secs + self.offset as i64;
        let (days, rest) = whole_days(local);
        match date_of_julian_day((days + EPOCH_DAY as i64) as i32) {
            Some((y, m, d)) => Civil {
                year: y,
                month: m as u32,
                day: d as u32,
                hour: (rest / 3600) as u32,
                minute: (rest / 60 % 60) as u32,
                second: (rest % 60) as u32,
            },
            None => Civil { year: 1970, month: 1, day: 1, hour: 0, minute: 0, second: 0 },
        }
    }

    /// Whether this instant comes before another.
    pub fn is_earlier(&self, other: &DateTime) -> (r: bool)
        ensures
            r == earlier(self@, other@),
    {
        self.secs < other.secs || (self.secs == other.secs && self.nanos < other.nanos)
    }

    /// The instant after a span, where a clock can show it.
    pub fn checked_add(&self, d: TimeSpan) -> (r: Option<DateTime>)
        ensures
            match r {
                Some(t) => t@ == plus(self@, d) && is_instant(t@),
                None => !is_instant(plus(self@, d)),
            },
            is_instant(self@),
    {
        proof {
            use_type_invariant(self);
        }
        if d.secs > 700_000_000_000 {
            return None;
        }
        let sum: u64 = self.nanos as u64 + d.nanos as u64;
        let carry: i64 = (sum / 1_000_000_000) as i64;
        DateTime::new(self.secs + d.secs as i64 + carry, (sum % 1_000_000_000) as u32, self.offset)
    }

    /// The span from `now` until this instant; zero where it is past.
    pub fn since(&self, now: &DateTime) -> (r: TimeSpan)
        ensures
            r.wf(),
            r.total() == if earlier(self@, now@) {
                0
            } else {
                (self@.secs - now@.secs) * 1_000_000_000 + self@.nanos - now@.nanos
            },
    {
        proof {
            use_type_invariant(self);
            use_type_invariant(now);
        }
        if self.is_earlier(now) {
            return TimeSpan::zero();
        }
        if self.nanos >= now.nanos {
            TimeSpan { secs: (self.secs - now.secs) as u64, nanos: self.nanos - now.nanos }
        } else {
            TimeSpan {
                secs: (self.secs - now.secs - 1) as u64,
                nanos: self.nanos + 1_000_000_000 - now.nanos,
            }
        }
    }
}

} // verus!
