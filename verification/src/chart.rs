//! Monthly trend charts: one combined bar/line chart per month, its data
//! ranges pointing at the month's rows of the year sheet's calendar table,
//! and its place in the fixed six-row, two-column chart grid.

use vstd::prelude::*;

use crate::date::days_before_month;
use crate::date::days_in_month;
use crate::date::days_before_month_index;
use crate::date::month_length;
use crate::text::dec_digits;
use crate::text::decimal_string;
use crate::text::month_label;
use crate::text::month_label_string;

verus! {

/// Chart width, in the layout units of the target canvas.
pub const CHART_WIDTH: u32 = 620;

/// Chart height, in the same units.
pub const CHART_HEIGHT: u32 = 155;

/// Lower bound of the vertical (wellbeing) axis.
pub const AXIS_MIN: u8 = 1;

/// Upper bound of the vertical (wellbeing) axis; ticks step by one.
pub const AXIS_MAX: u8 = 5;

/// Calendar-table column holding the dates (the category axis).
pub const DATE_COL: u16 = 0;

/// Calendar-table column holding the wellbeing level (the line series).
pub const LEVEL_COL: u16 = 1;

/// Calendar-table column holding the weekend weight (the bar series).
pub const BAND_COL: u16 = 4;

/// Plot-area inset from the left, in hundredths of the chart width.
pub const PLOT_INSET_X_PCT: u8 = 5;

/// Plot-area inset from the top, in hundredths of the chart height.
pub const PLOT_INSET_Y_PCT: u8 = 20;

/// Plot-area height, in hundredths of the chart height.
pub const PLOT_HEIGHT_PCT: u8 = 50;

/// Plot-area width scale, in hundredths, for a full 31-day month; a shorter
/// month's plot area narrows in proportion to its day count over 31.
pub const PLOT_WIDTH_SCALE_PCT: u8 = 90;

/// One month's combined trend chart: its title, the sheet and row range its
/// two series read (the line over the level column, the bars over the
/// weekend-weight column, dates as categories), the month's day count that
/// scales the plot area, and the cell the chart is anchored to.
#[derive(Debug)]
pub struct MonthChart {
    pub month: u8,
    pub title: String,
    pub sheet: String,
    pub first_row: u32,
    pub last_row: u32,
    pub days: u8,
    pub anchor_row: u32,
    pub anchor_col: u16,
}

/// Anchor row of the chart at 0-based grid position `i`: the grid starts at
/// row 8 and steps by 8 rows for every two charts.
pub open spec fn chart_anchor_row(i: int) -> int {
    8 + (i / 2) * 8
}

/// Anchor column of the chart at grid position `i`: the grid starts at
/// column 5 and alternates between its two columns, 11 columns apart.
pub open spec fn chart_anchor_col(i: int) -> int {
    5 + (i % 2) * 11
}

/// The chart's top-left grid cell, reading order left to right then top to
/// bottom, wrapping every two charts.
pub fn chart_anchor(i: usize) -> (r: (u32, u16))
    requires
        i < 12,
    ensures
        r.0 == chart_anchor_row(i as int),
        r.1 == chart_anchor_col(i as int),
{
    (8 + (i as u32 / 2) * 8, 5 + (i as u16 % 2) * 11)
}

/// Well-formedness of the chart of month `m` of the year sheet named by
/// `year`, standing at grid position `idx`: the title is the month label,
/// the row range is exactly the month's calendar rows (one header row above
/// the table), and the anchor follows the grid formula.
pub open spec fn month_chart_wf(c: MonthChart, year: int, m: int, idx: int) -> bool {
    &&& c.month == m
    &&& c.title@ == month_label(m)
    &&& c.sheet@ == dec_digits(year as nat)
    &&& c.first_row == 1 + days_before_month(year, m)
    &&& c.last_row == days_before_month(year, m) + days_in_month(year, m)
    &&& c.days == days_in_month(year, m)
    &&& c.anchor_row == chart_anchor_row(idx)
    &&& c.anchor_col == chart_anchor_col(idx)
}

/// Builds the combined trend chart of month `m` of year `year`, standing at
/// grid position `idx` of the chart grid.
pub fn build_month_chart(year: i32, m: u8, idx: usize) -> (c: MonthChart)
    requires
        1 <= year <= 9999,
        1 <= m <= 12,
        idx < 12,
    ensures
        month_chart_wf(c, year as int, m as int, idx as int),
{
    let before: u16 = days_before_month_index(year, m);
    let len: u8 = month_length(year, m);
    let (anchor_row, anchor_col) = chart_anchor(idx);
    proof {
        crate::date::lemma_days_before_month_monotonic(year as int, m as int, 13);
        crate::date::lemma_year_days(year as int);
    }
    MonthChart {
        month: m,
        title: month_label_string(m),
        sheet: decimal_string(year as u32),
        first_row: 1 + before as u32,
        last_row: before as u32 + len as u32,
        days: len,
        anchor_row,
        anchor_col,
    }
}

/// Builds the twelve monthly charts of one year sheet, January first, laid
/// out on the grid in month order.
pub fn build_year_charts(year: i32) -> (charts: Vec<MonthChart>)
    requires
        1 <= year <= 9999,
    ensures
        charts@.len() == 12,
        forall|i: int|
            0 <= i < 12 ==> month_chart_wf(#[trigger] charts@[i], year as int, i + 1, i),
{
    let mut charts: Vec<MonthChart> = Vec::new();
    let mut m: u8 = 1;
    while m <= 12
        invariant
            1 <= year <= 9999,
            1 <= m <= 13,
            charts@.len() == m - 1,
            forall|i: int|
                0 <= i < m - 1 ==> month_chart_wf(#[trigger] charts@[i], year as int, i + 1, i),
        decreases 13 - m,
    {
        charts.push(build_month_chart(year, m, (m - 1) as usize));
        m += 1;
    }
    charts
}

} // verus!
