//! Calendar dates with day precision, and the arithmetic the report needs:
//! leap years, month lengths, day-of-year positions, a total order, and the
//! ISO weekday (1 = Monday .. 7 = Sunday) of any date.

use vstd::prelude::*;

verus! {

/// A calendar date. Valid dates (see [`Date::valid`]) have a four-digit year,
/// so every sheet name derived from one is four characters long.
#[derive(Clone, Copy, PartialEq, Eq, Structural, Debug)]
pub struct Date {
    pub year: i32,
    pub month: u8,
    pub day: u8,
}

pub open spec fn is_leap_year(y: int) -> bool {
    (y % 4 == 0 && y % 100 != 0) || y % 400 == 0
}

pub open spec fn days_in_year(y: int) -> int {
    if is_leap_year(y) {
        366
    } else {
        365
    }
}

pub open spec fn days_in_month(y: int, m: int) -> int {
    if m == 2 {
        if is_leap_year(y) {
            29
        } else {
            28
        }
    } else if m == 4 || m == 6 || m == 9 || m == 11 {
        30
    } else {
        31
    }
}

/// Number of days of year `y` that fall before the first day of month `m`.
pub open spec fn days_before_month(y: int, m: int) -> int
    decreases m,
{
    if m <= 1 {
        0
    } else {
        days_before_month(y, m - 1) + days_in_month(y, m - 1)
    }
}

impl Date {
    pub open spec fn valid(self) -> bool {
        &&& 1 <= self.year <= 9999
        &&& 1 <= self.month <= 12
        &&& 1 <= self.day <= days_in_month(self.year as int, self.month as int)
    }

    /// 0-based position of this date within its year.
    pub open spec fn day_of_year(self) -> int {
        days_before_month(self.year as int, self.month as int) + self.day - 1
    }

    /// The date packed into one integer; on valid dates this respects and
    /// determines the calendar order (see [`lemma_key_injective`]).
    pub open spec fn key(self) -> int {
        self.year * 10000 + self.month * 100 + self.day
    }

    /// Days elapsed since January 1 of year 1 (day 0) in the proleptic
    /// Gregorian calendar, which falls on a Monday.
    pub open spec fn day_index(self) -> int {
        365 * (self.year - 1) + leap_years_through(self.year - 1) + self.day_of_year()
    }

    /// ISO weekday number: 1 = Monday .. 7 = Sunday.
    pub open spec fn weekday(self) -> int {
        self.day_index() % 7 + 1
    }
}

/// Number of leap years between year 1 and year `n` inclusive.
pub open spec fn leap_years_through(n: int) -> int {
    n / 4 - n / 100 + n / 400
}

/// Leap year test, as the report's calendar uses it.
pub fn leap_year(y: i32) -> (b: bool)
    ensures
        b == is_leap_year(y as int),
{
    (y % 4 == 0 && y % 100 != 0) || y % 400 == 0
}

/// Length of month `m` of year `y` in days.
pub fn month_length(y: i32, m: u8) -> (n: u8)
    requires
        1 <= m <= 12,
    ensures
        n == days_in_month(y as int, m as int),
{
    if m == 2 {
        if leap_year(y) {
            29
        } else {
            28
        }
    } else if m == 4 || m == 6 || m == 9 || m == 11 {
        30
    } else {
        31
    }
}

/// Length of year `y` in days.
pub fn year_length(y: i32) -> (n: u16)
    ensures
        n == days_in_year(y as int),
{
    if leap_year(y) {
        366
    } else {
        365
    }
}

impl Date {
    /// Checked constructor: returns a date exactly when the components name a
    /// real day of the proleptic Gregorian calendar in years 1..=9999.
    pub fn new(year: i32, month: u8, day: u8) -> (r: Option<Date>)
        ensures
            match r {
                Some(d) => d.valid() && d.year == year && d.month == month && d.day == day,
                None => !(Date { year, month, day }).valid(),
            },
    {
        if 1 <= year && year <= 9999 && 1 <= month && month <= 12 && 1 <= day && day
            <= month_length(year, month) {
            Some(Date { year, month, day })
        } else {
            None
        }
    }

    /// The packed order key as a machine integer.
    pub fn key_u32(self) -> (k: u32)
        requires
            self.valid(),
        ensures
            k == self.key(),
    {
        (self.year as u32) * 10000 + (self.month as u32) * 100 + (self.day as u32)
    }
}

pub proof fn lemma_days_before_month_next(y: int, m: int)
    requires
        1 <= m <= 12,
    ensures
        days_before_month(y, m + 1) == days_before_month(y, m) + days_in_month(y, m),
{
}

pub proof fn lemma_days_before_month_monotonic(y: int, m1: int, m2: int)
    requires
        1 <= m1 <= m2 <= 13,
    ensures
        days_before_month(y, m1) <= days_before_month(y, m2),
    decreases m2 - m1,
{
    if m1 < m2 {
        lemma_days_before_month_monotonic(y, m1, m2 - 1);
    }
}

/// The twelve month lengths of a year add up to its length.
pub proof fn lemma_year_days(y: int)
    ensures
        days_before_month(y, 13) == days_in_year(y),
{
    reveal_with_fuel(days_before_month, 13);
}

/// A valid date's position within its year lies below the year's length.
pub proof fn lemma_day_of_year_bounds(d: Date)
    requires
        d.valid(),
    ensures
        0 <= d.day_of_year() < days_in_year(d.year as int),
{
    let y = d.year as int;
    let m = d.month as int;
    lemma_days_before_month_monotonic(y, 1, m);
    lemma_days_before_month_next(y, m);
    lemma_days_before_month_monotonic(y, m + 1, 13);
    lemma_year_days(y);
}

/// Within one year, the day-of-year position determines the date.
pub proof fn lemma_day_of_year_injective(a: Date, b: Date)
    requires
        a.valid(),
        b.valid(),
        a.year == b.year,
        a.day_of_year() == b.day_of_year(),
    ensures
        a == b,
{
    let y = a.year as int;
    let ma = a.month as int;
    let mb = b.month as int;
    if ma < mb {
        lemma_days_before_month_next(y, ma);
        lemma_days_before_month_monotonic(y, ma + 1, mb);
        assert(false);
    } else if mb < ma {
        lemma_days_before_month_next(y, mb);
        lemma_days_before_month_monotonic(y, mb + 1, ma);
        assert(false);
    }
}

/// The packed key determines a valid date.
pub proof fn lemma_key_injective(a: Date, b: Date)
    requires
        a.valid(),
        b.valid(),
        a.key() == b.key(),
    ensures
        a == b,
{
    assert(a.year == b.year && a.month == b.month && a.day == b.day) by {
        assert(101 <= a.month * 100 + a.day <= 1231);
        assert(101 <= b.month * 100 + b.day <= 1231);
    }
}

/// The packed key respects the year: an earlier or equal key never belongs
/// to a later year.
pub proof fn lemma_key_year_order(a: Date, b: Date)
    requires
        a.valid(),
        b.valid(),
        a.key() <= b.key(),
    ensures
        a.year <= b.year,
{
    if a.year > b.year {
        assert(101 <= a.month * 100 + a.day <= 1231);
        assert(101 <= b.month * 100 + b.day <= 1231);
        assert(false);
    }
}

/// ISO weekday of a date, 1 = Monday .. 7 = Sunday.
pub fn weekday_number(d: Date) -> (w: u8)
    requires
        d.valid(),
    ensures
        w == d.weekday(),
        1 <= w <= 7,
{
    let y1: u32 = (d.year - 1) as u32;
    let doy: u32 = day_of_year_index(d) as u32;
    proof {
        vstd::arithmetic::div_mod::lemma_div_is_ordered_by_denominator(y1 as int, 4, 100);
        lemma_day_of_year_bounds(d);
    }
    let idx: u32 = 365 * y1 + (y1 / 4 + y1 / 400 - y1 / 100) + doy;
    assert(idx == d.day_index());
    let w: u32 = idx % 7 + 1;
    w as u8
}

/// 0-based position of a valid date within its year, as a machine integer.
pub fn day_of_year_index(d: Date) -> (i: u16)
    requires
        d.valid(),
    ensures
        i == d.day_of_year(),
{
    proof {
        lemma_day_of_year_bounds(d);
    }
    days_before_month_index(d.year, d.month) + (d.day as u16) - 1
}

/// Days of year `y` before the first day of month `m`, as a machine integer.
pub fn days_before_month_index(y: i32, m: u8) -> (n: u16)
    requires
        1 <= m <= 13,
    ensures
        n == days_before_month(y as int, m as int),
{
    proof {
        reveal_with_fuel(days_before_month, 13);
    }
    let leap_shift: u16 = if m > 2 && leap_year(y) {
        1
    } else {
        0
    };
    let base: u16 = match m {
        1 => 0,
        2 => 31,
        3 => 59,
        4 => 90,
        5 => 120,
        6 => 151,
        7 => 181,
        8 => 212,
        9 => 243,
        10 => 273,
        11 => 304,
        12 => 334,
        _ => 365,
    };
    base + leap_shift
}

} // verus!
