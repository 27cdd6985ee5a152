//! Calendar arithmetic in the institution's local wall-clock time.
use vstd::prelude::*;
use chrono::Datelike;
use crate::text::{padded_digits, push_digits};

verus! {

/// First year that a calendar document can carry (iCalendar writes four-digit years).
pub const MIN_YEAR: i32 = 1;

/// Last year that a calendar document can carry.
pub const MAX_YEAR: i32 = 9999;

/// A calendar day.
#[derive(Clone, Copy, Debug, PartialEq, Eq, Structural)]
pub struct Date {
    pub year: i32,
    pub month: u32,
    pub day: u32,
}

/// A wall-clock instant in the institution's time zone.
#[derive(Clone, Copy, Debug, PartialEq, Eq, Structural)]
pub struct LocalDateTime {
    pub date: Date,
    pub hour: u32,
    pub minute: u32,
}

/// Why an event could not be compiled.
#[derive(Clone, Copy, Debug, PartialEq, Eq, Structural)]
pub enum CompileError {
    /// A date, or a time of day, that does not exist.
    InvalidDate,
}

pub open spec fn is_leap_year(y: int) -> bool {
    (y % 4 == 0 && y % 100 != 0) || y % 400 == 0
}

pub open spec fn days_in_month(y: int, m: int) -> int {
    if m == 2 {
        if is_leap_year(y) {
            29
        } else {
            28
        }
    } else if m == 4 || m == 6 || m == 9 || m == 11 {
        30
    } else {
        31
    }
}

pub open spec fn valid_date(d: Date) -> bool {
    &&& MIN_YEAR <= d.year <= MAX_YEAR
    &&& 1 <= d.month <= 12
    &&& 1 <= d.day <= days_in_month(d.year as int, d.month as int)
}

/// The position (year, month, day) reached from day `d` of month `m` of year `y`, where `d`
/// may run past the end of the month and then continues into the following months.
pub open spec fn roll(y: int, m: int, d: int) -> (int, int, int)
    decreases d,
{
    if d <= days_in_month(y, m) {
        (y, m, d)
    } else if m < 12 {
        roll(y, m + 1, d - days_in_month(y, m))
    } else {
        roll(y + 1, 1, d - days_in_month(y, m))
    }
}

/// The date of day `day` (counted from 1) of month `month` of `year`, rolled over month ends;
/// `None` where no such date exists in the supported years.
pub open spec fn resolve_date(year: int, month: int, day: int) -> Option<Date> {
    if MIN_YEAR <= year <= MAX_YEAR && 1 <= month <= 12 && day >= 1 {
        let r = roll(year, month, day);
        if r.0 <= MAX_YEAR {
            Some(Date { year: r.0 as i32, month: r.1 as u32, day: r.2 as u32 })
        } else {
            None
        }
    } else {
        None
    }
}

/// The instant at `hour:minute` on the date that `resolve_date` gives.
pub open spec fn resolve_time(year: int, month: int, day: int, hour: int, minute: int) -> Result<
    LocalDateTime,
    CompileError,
> {
    match resolve_date(year, month, day) {
        Some(d) => if 0 <= hour <= 23 && 0 <= minute <= 59 {
            Ok(LocalDateTime { date: d, hour: hour as u32, minute: minute as u32 })
        } else {
            Err(CompileError::InvalidDate)
        },
        None => Err(CompileError::InvalidDate),
    }
}

proof fn lemma_roll_year_ge(y: int, m: int, d: int)
    ensures
        roll(y, m, d).0 >= y,
    decreases d,
{
    if d <= days_in_month(y, m) {
    } else if m < 12 {
        lemma_roll_year_ge(y, m + 1, d - days_in_month(y, m));
    } else {
        lemma_roll_year_ge(y + 1, 1, d - days_in_month(y, m));
    }
}

/// A resolved date is a valid one.
pub proof fn lemma_resolved_date_valid(year: int, month: int, day: int)
    ensures
        resolve_date(year, month, day) matches Some(d) ==> valid_date(d),
{
    if MIN_YEAR <= year <= MAX_YEAR && 1 <= month <= 12 && day >= 1 {
        lemma_roll_valid(year, month, day);
        lemma_roll_year_ge(year, month, day);
    }
}

proof fn lemma_roll_valid(y: int, m: int, d: int)
    requires
        1 <= m <= 12,
        d >= 1,
    ensures
        1 <= roll(y, m, d).1 <= 12,
        1 <= roll(y, m, d).2 <= days_in_month(roll(y, m, d).0, roll(y, m, d).1),
    decreases d,
{
    if d <= days_in_month(y, m) {
    } else if m < 12 {
        lemma_roll_valid(y, m + 1, d - days_in_month(y, m));
    } else {
        lemma_roll_valid(y + 1, 1, d - days_in_month(y, m));
    }
}

/// The calendar day after `d`.
pub open spec fn next_day(d: Date) -> Date {
    if d.day < days_in_month(d.year as int, d.month as int) {
        Date { year: d.year, month: d.month, day: (d.day + 1) as u32 }
    } else if d.month < 12 {
        Date { year: d.year, month: (d.month + 1) as u32, day: 1 }
    } else {
        Date { year: (d.year + 1) as i32, month: 1, day: 1 }
    }
}

/// The calendar day `n` days after `d`.
pub open spec fn days_after(d: Date, n: nat) -> Date
    decreases n,
{
    if n == 0 {
        d
    } else {
        next_day(days_after(d, (n - 1) as nat))
    }
}

/// The position after `r` in the same counting as `roll`.
spec fn roll_next(r: (int, int, int)) -> (int, int, int) {
    if r.2 < days_in_month(r.0, r.1) {
        (r.0, r.1, r.2 + 1)
    } else if r.1 < 12 {
        (r.0, r.1 + 1, 1)
    } else {
        (r.0 + 1, 1, 1)
    }
}

proof fn lemma_roll_next(y: int, m: int, d: int)
    requires
        1 <= m <= 12,
        d >= 1,
    ensures
        roll(y, m, d + 1) == roll_next(roll(y, m, d)),
    decreases d,
{
    if d < days_in_month(y, m) {
    } else if d == days_in_month(y, m) {
        if m < 12 {
            assert(roll(y, m + 1, 1) == (y, m + 1, 1int));
        } else {
            assert(roll(y + 1, 1, 1) == (y + 1, 1int, 1int));
        }
    } else if m < 12 {
        lemma_roll_next(y, m + 1, d - days_in_month(y, m));
    } else {
        lemma_roll_next(y + 1, 1, d - days_in_month(y, m));
    }
}

/// Counting one more day from the same month start gives the next calendar day.
pub proof fn lemma_resolve_next(year: int, month: int, day: int)
    requires
        day >= 1,
        resolve_date(year, month, day + 1) is Some,
    ensures
        resolve_date(year, month, day) is Some,
        resolve_date(year, month, day + 1) == Some(next_day(resolve_date(year, month, day)->0)),
{
    lemma_roll_next(year, month, day);
    lemma_roll_valid(year, month, day);
    lemma_roll_year_ge(year, month, day);
}

/// Counting `k` more days from the same month start gives the date `k` days later.
pub proof fn lemma_resolve_after(year: int, month: int, day: int, k: nat)
    requires
        day >= 1,
        resolve_date(year, month, day + k) is Some,
    ensures
        resolve_date(year, month, day) is Some,
        resolve_date(year, month, day + k) == Some(days_after(resolve_date(year, month, day)->0, k)),
    decreases k,
{
    if k > 0 {
        lemma_resolve_next(year, month, day + k - 1);
        lemma_resolve_after(year, month, day, (k - 1) as nat);
    }
}

fn month_length(y: i32, m: u32) -> (r: u32)
    requires
        MIN_YEAR <= y <= MAX_YEAR,
        1 <= m <= 12,
    ensures
        r == days_in_month(y as int, m as int),
{
    if m == 2 {
        if (y % 4 == 0 && y % 100 != 0) || y % 400 == 0 {
            29
        } else {
            28
        }
    } else if m == 4 || m == 6 || m == 9 || m == 11 {
        30
    } else {
        31
    }
}

/// The date of day `day` of month `month` of `year`, where a day past the month's end rolls
/// into the following months (and years).
pub fn resolve_day(year: i32, month: u32, day: u64) -> (r: Option<Date>)
    ensures
        r == resolve_date(year as int, month as int, day as int),
{
    if year < MIN_YEAR || year > MAX_YEAR || month < 1 || month > 12 || day < 1 {
        return None;
    }
    let mut y = year;
    let mut m = month;
    let mut d = day;
    while d > month_length(y, m) as u64
        invariant
            MIN_YEAR <= y <= MAX_YEAR,
            1 <= m <= 12,
            d >= 1,
            roll(y as int, m as int, d as int) == roll(year as int, month as int, day as int),
        decreases d,
    {
        let len = month_length(y, m) as u64;
        d = d - len;
        if m < 12 {
            m = m + 1;
        } else {
            if y == MAX_YEAR {
                proof {
                    lemma_roll_year_ge(y + 1, 1, d as int);
                }
                return None;
            }
            y = y + 1;
            m = 1;
        }
    }
    Some(Date { year: y, month: m, day: d as u32 })
}

/// Time Resolver: the instant at `hour:minute` on day `day` of month `month` of `year`,
/// rolling a day past the month's end into the following months; `InvalidDate` where the
/// date or the time of day does not exist.
pub fn resolve(year: i32, month: u32, day: u64, hour: u32, minute: u32) -> (r: Result<
    LocalDateTime,
    CompileError,
>)
    ensures
        r == resolve_time(year as int, month as int, day as int, hour as int, minute as int),
        r matches Ok(t) ==> valid_date(t.date),
{
    proof {
        lemma_resolved_date_valid(year as int, month as int, day as int);
    }
    match resolve_day(year, month, day) {
        Some(d) => if hour <= 23 && minute <= 59 {
            Ok(LocalDateTime { date: d, hour, minute })
        } else {
            Err(CompileError::InvalidDate)
        },
        None => Err(CompileError::InvalidDate),
    }
}

/// Whether month `month`, day `day` of `year` is a real date of the supported years.
pub fn is_valid_date(year: i32, month: u32, day: u32) -> (r: bool)
    ensures
        r == valid_date(Date { year, month, day }),
{
    if year < MIN_YEAR || year > MAX_YEAR || month < 1 || month > 12 {
        return false;
    }
    1 <= day && day <= month_length(year, month)
}

/// The ISO 8601 week number of a date, as chrono computes it.
pub uninterp spec fn iso_week_number(year: i32, month: u32, day: u32) -> u32;

/// Relies on chrono's `NaiveDate::from_ymd_opt` (`Some` for every date in the supported years)
/// and `IsoWeek::week`: the ISO 8601 week number of the date, from 1 to 53.
#[verifier::external_body]
pub(crate) fn iso_week(d: Date) -> (r: u32)
    requires
        valid_date(d),
    ensures
        r == iso_week_number(d.year, d.month, d.day),
        1 <= r <= 53,
{
    chrono::NaiveDate::from_ymd_opt(d.year, d.month, d.day).unwrap().iso_week().week()
}

/// The basic ISO 8601 form `YYYYMMDD` of a date.
pub open spec fn date_digits(d: Date) -> Seq<char> {
    padded_digits(d.year as nat, 4) + padded_digits(d.month as nat, 2) + padded_digits(
        d.day as nat,
        2,
    )
}

/// Appends the basic ISO 8601 form `YYYYMMDD` of a date.
pub fn push_date_digits(out: &mut String, d: Date)
    requires
        valid_date(d),
    ensures
        final(out)@ == old(out)@ + date_digits(d),
{
    push_digits(out, d.year as u32, 4);
    push_digits(out, d.month, 2);
    push_digits(out, d.day, 2);
    assert(final(out)@ =~= old(out)@ + date_digits(d));
}

} // verus!
