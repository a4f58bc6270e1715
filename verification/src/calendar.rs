//! Calendar synthesis: expanding a year's sparse records onto the dense
//! day-by-day calendar of that year, with weekday and weekend annotations.

use vstd::prelude::*;

use crate::date::Date;
use crate::date::days_before_month;
use crate::date::days_in_month;
use crate::date::days_in_year;
use crate::date::is_leap_year;
use crate::date::lemma_day_of_year_injective;
use crate::date::lemma_days_before_month_next;
use crate::date::lemma_year_days;
use crate::date::month_length;
use crate::date::weekday_number;
use crate::series::ConditionRecord;
use crate::series::has_date;
use crate::series::record_at;
use crate::series::lookup;
use crate::series::valid_series;

verus! {

/// The weekend flag's nonzero value, on the reporting scale.
pub const HOLIDAY_WEIGHT: u8 = 5;

/// One calendar date of the target year with the matched record's values (or
/// none), the ISO weekday number, and the weekend weight.
#[derive(Debug)]
pub struct CalendarDay {
    pub date: Date,
    pub level: Option<i32>,
    pub comment: Option<String>,
    pub weekday: u8,
    pub holiday: u8,
}

/// Weekend weight of ISO weekday `w`: zero on Monday..Friday, the fixed
/// holiday weight on Saturday and Sunday.
pub open spec fn weekend_weight(w: int) -> int {
    if w >= 6 {
        HOLIDAY_WEIGHT as int
    } else {
        0
    }
}

/// Well-formedness of one day of the calendar of `year`: a valid date of that
/// year whose weekday and weekend annotations agree with the date.
pub open spec fn day_wf(day: CalendarDay, year: int) -> bool {
    &&& day.date.valid()
    &&& day.date.year == year
    &&& day.weekday == day.date.weekday()
    &&& day.holiday == weekend_weight(day.date.weekday())
}

/// The left join of a record series onto one day: the matching record's
/// values where the series has the day's date, nothing otherwise.
pub open spec fn day_matches(day: CalendarDay, s: Seq<ConditionRecord>) -> bool {
    if has_date(s, day.date) {
        day.level == record_at(s, day.date).level && day.comment == record_at(s, day.date).comment
    } else {
        day.level is None && day.comment is None
    }
}

/// The calendar invariant: one entry per date of `year`, in calendar order
/// (entry `i` is day `i` of the year), each annotated and left-joined.
pub open spec fn calendar_wf(cal: Seq<CalendarDay>, s: Seq<ConditionRecord>, year: int) -> bool {
    &&& cal.len() == days_in_year(year)
    &&& forall|i: int| 0 <= i < cal.len() ==> day_wf(#[trigger] cal[i], year)
    &&& forall|i: int| 0 <= i < cal.len() ==> (#[trigger] cal[i]).date.day_of_year() == i
    &&& forall|i: int| 0 <= i < cal.len() ==> day_matches(#[trigger] cal[i], s)
}

/// Builds the dense calendar of `year` and left-joins `series` onto it by
/// exact date match. Every date of the year appears exactly once, in order;
/// dates with no matching record get no level and no comment. `series` is
/// read only.
pub fn synthesize_year(series: &Vec<ConditionRecord>, year: i32) -> (cal: Vec<CalendarDay>)
    requires
        valid_series(series@),
        1 <= year <= 9999,
    ensures
        calendar_wf(cal@, series@, year as int),
{
    let mut cal: Vec<CalendarDay> = Vec::new();
    let mut m: u8 = 1;
    while m <= 12
        invariant
            valid_series(series@),
            1 <= year <= 9999,
            1 <= m <= 13,
            cal@.len() == days_before_month(year as int, m as int),
            forall|i: int| 0 <= i < cal@.len() ==> day_wf(#[trigger] cal@[i], year as int),
            forall|i: int| 0 <= i < cal@.len() ==> (#[trigger] cal@[i]).date.day_of_year() == i,
            forall|i: int| 0 <= i < cal@.len() ==> day_matches(#[trigger] cal@[i], series@),
        decreases 13 - m,
    {
        let dl: u8 = month_length(year, m);
        let mut d: u8 = 1;
        proof {
            lemma_days_before_month_next(year as int, m as int);
        }
        while d <= dl
            invariant
                valid_series(series@),
                1 <= year <= 9999,
                1 <= m <= 12,
                dl == days_in_month(year as int, m as int),
                1 <= d <= dl + 1,
                cal@.len() == days_before_month(year as int, m as int) + d - 1,
                forall|i: int| 0 <= i < cal@.len() ==> day_wf(#[trigger] cal@[i], year as int),
                forall|i: int| 0 <= i < cal@.len() ==> (#[trigger] cal@[i]).date.day_of_year() == i,
                forall|i: int| 0 <= i < cal@.len() ==> day_matches(#[trigger] cal@[i], series@),
            decreases dl + 1 - d,
        {
            let date = Date { year, month: m, day: d };
            let (level, comment) = match lookup(series, date) {
                Some(rec) => (rec.level, rec.comment),
                None => (None, None),
            };
            let w = weekday_number(date);
            let holiday: u8 = if w >= 6 {
                HOLIDAY_WEIGHT
            } else {
                0
            };
            cal.push(CalendarDay { date, level, comment, weekday: w, holiday });
            d += 1;
        }
        proof {
            lemma_days_before_month_next(year as int, m as int);
        }
        m += 1;
    }
    proof {
        lemma_year_days(year as int);
    }
    cal
}

/// The calendar invariant is categorical: for one series and year there is
/// exactly one well-formed calendar, so any two values satisfying it are the
/// same calendar.
pub proof fn lemma_calendar_determined(
    cal1: Seq<CalendarDay>,
    cal2: Seq<CalendarDay>,
    s: Seq<ConditionRecord>,
    year: int,
)
    requires
        calendar_wf(cal1, s, year),
        calendar_wf(cal2, s, year),
    ensures
        cal1 == cal2,
{
    assert forall|i: int| 0 <= i < cal1.len() implies cal1[i] == cal2[i] by {
        lemma_day_of_year_injective(cal1[i].date, cal2[i].date);
    }
    assert(cal1 =~= cal2);
}

/// Calendar density: a well-formed calendar of year `y` has 366 entries if
/// `y` is a leap year and 365 otherwise, starts at January 1, ends at
/// December 31, and holds no date twice (its dates ascend day by day, which
/// the `day_of_year` clause of [`calendar_wf`] states; this law draws the
/// corollaries).
pub proof fn lemma_calendar_density(cal: Seq<CalendarDay>, s: Seq<ConditionRecord>, y: int)
    requires
        calendar_wf(cal, s, y),
        1 <= y <= 9999,
    ensures
        cal.len() == if is_leap_year(y) {
            366int
        } else {
            365int
        },
        cal[0].date == (Date { year: y as i32, month: 1, day: 1 }),
        cal[cal.len() - 1].date == (Date { year: y as i32, month: 12, day: 31 }),
        forall|i: int, j: int| 0 <= i < j < cal.len() ==> cal[i].date != cal[j].date,
{
    let jan1 = Date { year: y as i32, month: 1, day: 1 };
    let dec31 = Date { year: y as i32, month: 12, day: 31 };
    assert(jan1.valid());
    assert(cal[0].date.day_of_year() == 0);
    lemma_day_of_year_injective(cal[0].date, jan1);
    assert(dec31.valid());
    lemma_year_days(y);
    lemma_days_before_month_next(y, 12);
    assert(dec31.day_of_year() == cal.len() - 1);
    lemma_day_of_year_injective(cal[cal.len() - 1].date, dec31);
    assert forall|i: int, j: int| 0 <= i < j < cal.len() implies cal[i].date != cal[j].date by {
        assert(cal[i].date.day_of_year() == i && cal[j].date.day_of_year() == j);
    }
}

} // verus!
