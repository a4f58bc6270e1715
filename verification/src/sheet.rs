//! The report document model: sheets of typed cells, data-bar conditional
//! format ranges, and embedded charts, all as plain values, with the exact
//! cell layout of the three table kinds the report writes (the raw record
//! table, a year's calendar table, and the aggregation table).

use vstd::prelude::*;

use crate::aggregate::LevelRow;
use crate::calendar::CalendarDay;
use crate::chart::MonthChart;
use crate::date::Date;
use crate::series::ConditionRecord;
use crate::text::month_label;
use crate::text::weekday_label;
use crate::text::weekday_label_string;

verus! {

/// A cell's typed content.
#[derive(Debug)]
pub enum CellValue {
    Text(String),
    Int(i64),
    Day(Date),
}

/// One written cell.
#[derive(Debug)]
pub struct Cell {
    pub row: u32,
    pub col: u16,
    pub value: CellValue,
}

/// The mathematical value of a cell's content.
pub enum CellValueSpec {
    Text(Seq<char>),
    Int(int),
    Day(Date),
}

/// The mathematical value of a written cell.
pub struct CellSpec {
    pub row: int,
    pub col: int,
    pub value: CellValueSpec,
}

impl View for Cell {
    type V = CellSpec;

    open spec fn view(&self) -> CellSpec {
        CellSpec {
            row: self.row as int,
            col: self.col as int,
            value: match self.value {
                CellValue::Text(s) => CellValueSpec::Text(s@),
                CellValue::Int(n) => CellValueSpec::Int(n as int),
                CellValue::Day(d) => CellValueSpec::Day(d),
            },
        }
    }
}

/// The mathematical value of a cell list.
pub open spec fn cells_view(cells: Seq<Cell>) -> Seq<CellSpec> {
    cells.map_values(|c: Cell| c@)
}

/// The fill color of a data-bar conditional format.
#[derive(Clone, Copy, PartialEq, Eq, Structural, Debug)]
pub enum BarColor {
    Orange,
    Green,
}

/// A data-bar conditional format over an inclusive cell range.
#[derive(Clone, Copy, PartialEq, Eq, Structural, Debug)]
pub struct DataBar {
    pub first_row: u32,
    pub first_col: u16,
    pub last_row: u32,
    pub last_col: u16,
    pub color: BarColor,
}

/// One sheet of the report: a name, its written cells, its data-bar ranges,
/// and its embedded charts.
#[derive(Debug)]
pub struct Sheet {
    pub name: String,
    pub cells: Vec<Cell>,
    pub bars: Vec<DataBar>,
    pub charts: Vec<MonthChart>,
}

/// The whole report: an ordered collection of sheets.
#[derive(Debug)]
pub struct ReportDocument {
    pub sheets: Vec<Sheet>,
}

// ---------------------------------------------------------------------------
// The raw record table: header row, then one row per record, dates in the
// first column, levels in the second, comments in the third; a missing level
// or comment leaves its cell unwritten.
// ---------------------------------------------------------------------------

/// The header row of a record table at `(r0, c0)`.
pub open spec fn record_header(r0: int, c0: int) -> Seq<CellSpec> {
    seq![
        CellSpec { row: r0, col: c0, value: CellValueSpec::Text("日付"@) },
        CellSpec { row: r0, col: c0 + 1, value: CellValueSpec::Text("体調"@) },
        CellSpec { row: r0, col: c0 + 2, value: CellValueSpec::Text("コメント"@) },
    ]
}

/// The cells of one record written on row `r`.
pub open spec fn record_row_cells(rec: ConditionRecord, r: int, c0: int) -> Seq<CellSpec> {
    seq![CellSpec { row: r, col: c0, value: CellValueSpec::Day(rec.date) }] + (match rec.level {
        Some(v) => seq![CellSpec { row: r, col: c0 + 1, value: CellValueSpec::Int(v as int) }],
        None => Seq::empty(),
    }) + (match rec.comment {
        Some(c) => seq![CellSpec { row: r, col: c0 + 2, value: CellValueSpec::Text(c@) }],
        None => Seq::empty(),
    })
}

/// The record rows of a table whose header sits on row `r0`.
pub open spec fn record_rows(s: Seq<ConditionRecord>, r0: int, c0: int) -> Seq<CellSpec>
    decreases s.len(),
{
    if s.len() == 0 {
        Seq::empty()
    } else {
        record_rows(s.drop_last(), r0, c0) + record_row_cells(s.last(), r0 + s.len(), c0)
    }
}

/// The whole record table at `(r0, c0)`.
pub open spec fn record_table(s: Seq<ConditionRecord>, r0: int, c0: int) -> Seq<CellSpec> {
    record_header(r0, c0) + record_rows(s, r0, c0)
}

// ---------------------------------------------------------------------------
// The calendar table: the record table's three columns extended by the
// weekday label and the weekend weight, one row per calendar day.
// ---------------------------------------------------------------------------

/// The header row of a calendar table at `(r0, c0)`.
pub open spec fn calendar_header(r0: int, c0: int) -> Seq<CellSpec> {
    seq![
        CellSpec { row: r0, col: c0, value: CellValueSpec::Text("日付"@) },
        CellSpec { row: r0, col: c0 + 1, value: CellValueSpec::Text("体調"@) },
        CellSpec { row: r0, col: c0 + 2, value: CellValueSpec::Text("コメント"@) },
        CellSpec { row: r0, col: c0 + 3, value: CellValueSpec::Text("曜日"@) },
        CellSpec { row: r0, col: c0 + 4, value: CellValueSpec::Text("土日判定"@) },
    ]
}

/// The cells of one calendar day written on row `r`.
pub open spec fn calendar_row_cells(day: CalendarDay, r: int, c0: int) -> Seq<CellSpec> {
    seq![CellSpec { row: r, col: c0, value: CellValueSpec::Day(day.date) }] + (match day.level {
        Some(v) => seq![CellSpec { row: r, col: c0 + 1, value: CellValueSpec::Int(v as int) }],
        None => Seq::empty(),
    }) + (match day.comment {
        Some(c) => seq![CellSpec { row: r, col: c0 + 2, value: CellValueSpec::Text(c@) }],
        None => Seq::empty(),
    }) + seq![
        CellSpec {
            row: r,
            col: c0 + 3,
            value: CellValueSpec::Text(weekday_label(day.weekday as int)),
        },
        CellSpec { row: r, col: c0 + 4, value: CellValueSpec::Int(day.holiday as int) },
    ]
}

/// The day rows of a calendar table whose header sits on row `r0`.
pub open spec fn calendar_rows(cal: Seq<CalendarDay>, r0: int, c0: int) -> Seq<CellSpec>
    decreases cal.len(),
{
    if cal.len() == 0 {
        Seq::empty()
    } else {
        calendar_rows(cal.drop_last(), r0, c0) + calendar_row_cells(cal.last(), r0 + cal.len(), c0)
    }
}

/// The whole calendar table at `(r0, c0)`.
pub open spec fn calendar_table(cal: Seq<CalendarDay>, r0: int, c0: int) -> Seq<CellSpec> {
    calendar_header(r0, c0) + calendar_rows(cal, r0, c0)
}

// ---------------------------------------------------------------------------
// The aggregation table: glyph, level and annual-count columns followed by
// the twelve month columns; every cell written, fifteen columns, one header
// row and six level rows.
// ---------------------------------------------------------------------------

/// The month-label header cells for months 1..=m, at columns c0+3 onward.
pub open spec fn agg_month_headers(r0: int, c0: int, m: int) -> Seq<CellSpec>
    decreases m,
{
    if m <= 0 {
        Seq::empty()
    } else {
        agg_month_headers(r0, c0, m - 1).push(
            CellSpec { row: r0, col: c0 + 2 + m, value: CellValueSpec::Text(month_label(m)) },
        )
    }
}

/// The header row of an aggregation table at `(r0, c0)`.
pub open spec fn agg_header(r0: int, c0: int) -> Seq<CellSpec> {
    seq![
        CellSpec { row: r0, col: c0, value: CellValueSpec::Text("調子"@) },
        CellSpec { row: r0, col: c0 + 1, value: CellValueSpec::Text("体調"@) },
        CellSpec { row: r0, col: c0 + 2, value: CellValueSpec::Text("年間"@) },
    ] + agg_month_headers(r0, c0, 12)
}

/// The month-count cells of one level row, months 1..=m.
pub open spec fn agg_row_months(row: LevelRow, r: int, c0: int, m: int) -> Seq<CellSpec>
    decreases m,
{
    if m <= 0 {
        Seq::empty()
    } else {
        agg_row_months(row, r, c0, m - 1).push(
            CellSpec {
                row: r,
                col: c0 + 2 + m,
                value: CellValueSpec::Int(row.monthly@[m - 1] as int),
            },
        )
    }
}

/// The cells of one level row written on row `r`.
pub open spec fn agg_row_cells(row: LevelRow, r: int, c0: int) -> Seq<CellSpec> {
    seq![
        CellSpec { row: r, col: c0, value: CellValueSpec::Text(row.glyph@) },
        CellSpec { row: r, col: c0 + 1, value: CellValueSpec::Int(row.level as int) },
        CellSpec { row: r, col: c0 + 2, value: CellValueSpec::Int(row.annual as int) },
    ] + agg_row_months(row, r, c0, 12)
}

/// The level rows of an aggregation table whose header sits on row `r0`.
pub open spec fn agg_rows(agg: Seq<LevelRow>, r0: int, c0: int) -> Seq<CellSpec>
    decreases agg.len(),
{
    if agg.len() == 0 {
        Seq::empty()
    } else {
        agg_rows(agg.drop_last(), r0, c0) + agg_row_cells(agg.last(), r0 + agg.len(), c0)
    }
}

/// The whole aggregation table at `(r0, c0)`.
pub open spec fn agg_table(agg: Seq<LevelRow>, r0: int, c0: int) -> Seq<CellSpec> {
    agg_header(r0, c0) + agg_rows(agg, r0, c0)
}

pub proof fn lemma_agg_month_headers_len(r0: int, c0: int, m: int)
    requires
        m >= 0,
    ensures
        agg_month_headers(r0, c0, m).len() == m,
    decreases m,
{
    if m > 0 {
        lemma_agg_month_headers_len(r0, c0, m - 1);
    }
}

pub proof fn lemma_agg_row_months_len(row: LevelRow, r: int, c0: int, m: int)
    requires
        m >= 0,
    ensures
        agg_row_months(row, r, c0, m).len() == m,
    decreases m,
{
    if m > 0 {
        lemma_agg_row_months_len(row, r, c0, m - 1);
    }
}

pub proof fn lemma_agg_rows_len(agg: Seq<LevelRow>, r0: int, c0: int)
    ensures
        agg_rows(agg, r0, c0).len() == 15 * agg.len(),
    decreases agg.len(),
{
    if agg.len() > 0 {
        lemma_agg_rows_len(agg.drop_last(), r0, c0);
        lemma_agg_row_months_len(agg.last(), r0 + agg.len(), c0, 12);
    }
}

/// An aggregation table is fifteen columns over a header row and one row per
/// level: its cell count is fixed by the number of levels.
pub proof fn lemma_agg_table_len(agg: Seq<LevelRow>, r0: int, c0: int)
    ensures
        agg_table(agg, r0, c0).len() == 15 + 15 * agg.len(),
{
    lemma_agg_month_headers_len(r0, c0, 12);
    lemma_agg_rows_len(agg, r0, c0);
}

proof fn lemma_agg_row_months_eq(row1: LevelRow, row2: LevelRow, r: int, c0: int, m: int)
    requires
        row1.monthly@ == row2.monthly@,
    ensures
        agg_row_months(row1, r, c0, m) == agg_row_months(row2, r, c0, m),
    decreases m,
{
    if m > 0 {
        lemma_agg_row_months_eq(row1, row2, r, c0, m - 1);
    }
}

proof fn lemma_agg_rows_eq(a1: Seq<LevelRow>, a2: Seq<LevelRow>, r0: int, c0: int)
    requires
        a1.len() == a2.len(),
        forall|r: int|
            0 <= r < a1.len() ==> (#[trigger] a1[r]).glyph@ == a2[r].glyph@ && a1[r].level
                == a2[r].level && a1[r].annual == a2[r].annual && a1[r].monthly@ == a2[r].monthly@,
    ensures
        agg_rows(a1, r0, c0) == agg_rows(a2, r0, c0),
    decreases a1.len(),
{
    if a1.len() > 0 {
        assert forall|r: int|
            0 <= r < a1.drop_last().len() implies (#[trigger] a1.drop_last()[r]).glyph@
            == a2.drop_last()[r].glyph@ && a1.drop_last()[r].level == a2.drop_last()[r].level
            && a1.drop_last()[r].annual == a2.drop_last()[r].annual && a1.drop_last()[r].monthly@
            == a2.drop_last()[r].monthly@ by {
            assert(a1.drop_last()[r] == a1[r] && a2.drop_last()[r] == a2[r]);
        }
        lemma_agg_rows_eq(a1.drop_last(), a2.drop_last(), r0, c0);
        assert(a1[a1.len() - 1].glyph@ == a2[a2.len() - 1].glyph@);
        lemma_agg_row_months_eq(a1.last(), a2.last(), r0 + a1.len(), c0, 12);
    }
}

/// The aggregation-table cells are determined by the rows' values: two row
/// lists that agree on every level, glyph text, annual count and month count
/// lay out the same cells.
pub proof fn lemma_agg_table_eq(a1: Seq<LevelRow>, a2: Seq<LevelRow>, r0: int, c0: int)
    requires
        a1.len() == a2.len(),
        forall|r: int|
            0 <= r < a1.len() ==> (#[trigger] a1[r]).glyph@ == a2[r].glyph@ && a1[r].level
                == a2[r].level && a1[r].annual == a2[r].annual && a1[r].monthly@ == a2[r].monthly@,
    ensures
        agg_table(a1, r0, c0) == agg_table(a2, r0, c0),
{
    lemma_agg_rows_eq(a1, a2, r0, c0);
}

// ---------------------------------------------------------------------------
// Writers. Each appends exactly one table to a cell list.
// ---------------------------------------------------------------------------

/// Appends one text cell.
pub(crate) fn push_text(cells: &mut Vec<Cell>, row: u32, col: u16, s: String)
    ensures
        cells_view(final(cells)@) == cells_view(old(cells)@).push(
            (CellSpec { row: row as int, col: col as int, value: CellValueSpec::Text(s@) }),
        ),
{
    let ghost expected = CellSpec { row: row as int, col: col as int, value: CellValueSpec::Text(s@) };
    cells.push(Cell { row, col, value: CellValue::Text(s) });
    proof {
        assert(cells_view(cells@) =~= cells_view(old(cells)@).push(expected));
    }
}

/// Appends one integer cell.
pub(crate) fn push_int(cells: &mut Vec<Cell>, row: u32, col: u16, n: i64)
    ensures
        cells_view(final(cells)@) == cells_view(old(cells)@).push(
            (CellSpec { row: row as int, col: col as int, value: CellValueSpec::Int(n as int) }),
        ),
{
    cells.push(Cell { row, col, value: CellValue::Int(n) });
    proof {
        assert(cells_view(cells@) =~= cells_view(old(cells)@).push(
            (CellSpec { row: row as int, col: col as int, value: CellValueSpec::Int(n as int) }),
        ));
    }
}

/// Appends one date cell.
pub(crate) fn push_date(cells: &mut Vec<Cell>, row: u32, col: u16, d: Date)
    ensures
        cells_view(final(cells)@) == cells_view(old(cells)@).push(
            (CellSpec { row: row as int, col: col as int, value: CellValueSpec::Day(d) }),
        ),
{
    cells.push(Cell { row, col, value: CellValue::Day(d) });
    proof {
        assert(cells_view(cells@) =~= cells_view(old(cells)@).push(
            (CellSpec { row: row as int, col: col as int, value: CellValueSpec::Day(d) }),
        ));
    }
}

/// Appends the raw record table: header row at `(r0, c0)`, one row per
/// record below it.
pub fn write_record_table(cells: &mut Vec<Cell>, s: &Vec<ConditionRecord>, r0: u32, c0: u16)
    requires
        r0 + 1 + s@.len() <= u32::MAX,
        c0 + 2 <= u16::MAX,
    ensures
        cells_view(final(cells)@) == cells_view(old(cells)@) + record_table(s@, r0 as int, c0 as int),
{
    push_text(cells, r0, c0, "日付".to_owned());
    push_text(cells, r0, c0 + 1, "体調".to_owned());
    push_text(cells, r0, c0 + 2, "コメント".to_owned());
    proof {
        assert(cells_view(cells@) =~= cells_view(old(cells)@) + record_header(r0 as int, c0 as int));
    }
    let mut i: usize = 0;
    while i < s.len()
        invariant
            i <= s@.len(),
            r0 + 1 + s@.len() <= u32::MAX,
            c0 + 2 <= u16::MAX,
            cells_view(cells@) == cells_view(old(cells)@) + record_header(r0 as int, c0 as int)
                + record_rows(s@.take(i as int), r0 as int, c0 as int),
        decreases s@.len() - i,
    {
        let ghost pre = cells_view(cells@);
        let r: u32 = r0 + 1 + i as u32;
        push_date(cells, r, c0, s[i].date);
        match s[i].level {
            Some(v) => push_int(cells, r, c0 + 1, v as i64),
            None => (),
        }
        match &s[i].comment {
            Some(c) => push_text(cells, r, c0 + 2, c.clone()),
            None => (),
        }
        proof {
            assert(cells_view(cells@) =~= pre + record_row_cells(s@[i as int], r as int, c0 as int));
            assert(s@.take(i + 1).drop_last() =~= s@.take(i as int));
            assert(s@.take(i + 1).last() == s@[i as int]);
            assert(record_rows(s@.take(i + 1), r0 as int, c0 as int) =~= record_rows(
                s@.take(i as int),
                r0 as int,
                c0 as int,
            ) + record_row_cells(s@[i as int], r as int, c0 as int));
            assert(cells_view(cells@) =~= cells_view(old(cells)@) + record_header(
                r0 as int,
                c0 as int,
            ) + record_rows(s@.take(i + 1), r0 as int, c0 as int));
        }
        i += 1;
    }
    proof {
        assert(s@.take(s@.len() as int) =~= s@);
        assert(cells_view(cells@) =~= cells_view(old(cells)@) + record_table(
            s@,
            r0 as int,
            c0 as int,
        ));
    }
}

/// Appends a year's calendar table: header row at `(r0, c0)`, one row per
/// calendar day below it.
pub fn write_calendar_table(cells: &mut Vec<Cell>, cal: &Vec<CalendarDay>, r0: u32, c0: u16)
    requires
        r0 + 1 + cal@.len() <= u32::MAX,
        c0 + 4 <= u16::MAX,
        forall|i: int| 0 <= i < cal@.len() ==> 1 <= (#[trigger] cal@[i]).weekday <= 7,
    ensures
        cells_view(final(cells)@) == cells_view(old(cells)@) + calendar_table(
            cal@,
            r0 as int,
            c0 as int,
        ),
{
    push_text(cells, r0, c0, "日付".to_owned());
    push_text(cells, r0, c0 + 1, "体調".to_owned());
    push_text(cells, r0, c0 + 2, "コメント".to_owned());
    push_text(cells, r0, c0 + 3, "曜日".to_owned());
    push_text(cells, r0, c0 + 4, "土日判定".to_owned());
    proof {
        assert(cells_view(cells@) =~= cells_view(old(cells)@) + calendar_header(
            r0 as int,
            c0 as int,
        ));
    }
    let mut i: usize = 0;
    while i < cal.len()
        invariant
            i <= cal@.len(),
            r0 + 1 + cal@.len() <= u32::MAX,
            c0 + 4 <= u16::MAX,
            forall|k: int| 0 <= k < cal@.len() ==> 1 <= (#[trigger] cal@[k]).weekday <= 7,
            cells_view(cells@) == cells_view(old(cells)@) + calendar_header(r0 as int, c0 as int)
                + calendar_rows(cal@.take(i as int), r0 as int, c0 as int),
        decreases cal@.len() - i,
    {
        let ghost pre = cells_view(cells@);
        let r: u32 = r0 + 1 + i as u32;
        push_date(cells, r, c0, cal[i].date);
        match cal[i].level {
            Some(v) => push_int(cells, r, c0 + 1, v as i64),
            None => (),
        }
        match &cal[i].comment {
            Some(c) => push_text(cells, r, c0 + 2, c.clone()),
            None => (),
        }
        push_text(cells, r, c0 + 3, weekday_label_string(cal[i].weekday));
        push_int(cells, r, c0 + 4, cal[i].holiday as i64);
        proof {
            assert(cells_view(cells@) =~= pre + calendar_row_cells(
                cal@[i as int],
                r as int,
                c0 as int,
            ));
            assert(cal@.take(i + 1).drop_last() =~= cal@.take(i as int));
            assert(cal@.take(i + 1).last() == cal@[i as int]);
            assert(calendar_rows(cal@.take(i + 1), r0 as int, c0 as int) =~= calendar_rows(
                cal@.take(i as int),
                r0 as int,
                c0 as int,
            ) + calendar_row_cells(cal@[i as int], r as int, c0 as int));
            assert(cells_view(cells@) =~= cells_view(old(cells)@) + calendar_header(
                r0 as int,
                c0 as int,
            ) + calendar_rows(cal@.take(i + 1), r0 as int, c0 as int));
        }
        i += 1;
    }
    proof {
        assert(cal@.take(cal@.len() as int) =~= cal@);
        assert(cells_view(cells@) =~= cells_view(old(cells)@) + calendar_table(
            cal@,
            r0 as int,
            c0 as int,
        ));
    }
}

/// Appends an aggregation table: header row at `(r0, c0)`, one row per level
/// below it, every one of the fifteen columns written on every row.
pub fn write_agg_table(cells: &mut Vec<Cell>, agg: &Vec<LevelRow>, r0: u32, c0: u16)
    requires
        r0 + 1 + agg@.len() <= u32::MAX,
        c0 + 14 <= u16::MAX,
        forall|k: int| 0 <= k < agg@.len() ==> (#[trigger] agg@[k]).monthly@.len() == 12,
    ensures
        cells_view(final(cells)@) == cells_view(old(cells)@) + agg_table(agg@, r0 as int, c0 as int),
{
    push_text(cells, r0, c0, "調子".to_owned());
    push_text(cells, r0, c0 + 1, "体調".to_owned());
    push_text(cells, r0, c0 + 2, "年間".to_owned());
    let mut m: u16 = 1;
    while m <= 12
        invariant
            1 <= m <= 13,
            r0 + 1 + agg@.len() <= u32::MAX,
            c0 + 14 <= u16::MAX,
            cells_view(cells@) == cells_view(old(cells)@) + seq![
                (CellSpec { row: r0 as int, col: c0 as int, value: CellValueSpec::Text("調子"@) }),
                (CellSpec {
                    row: r0 as int,
                    col: c0 + 1 as int,
                    value: CellValueSpec::Text("体調"@),
                }),
                (CellSpec {
                    row: r0 as int,
                    col: c0 + 2 as int,
                    value: CellValueSpec::Text("年間"@),
                }),
            ] + agg_month_headers(r0 as int, c0 as int, m as int - 1),
        decreases 13 - m,
    {
        push_text(cells, r0, c0 + 2 + m, crate::text::month_label_string(m as u8));
        m += 1;
    }
    proof {
        assert(cells_view(cells@) =~= cells_view(old(cells)@) + agg_header(r0 as int, c0 as int));
    }
    let mut i: usize = 0;
    while i < agg.len()
        invariant
            i <= agg@.len(),
            r0 + 1 + agg@.len() <= u32::MAX,
            c0 + 14 <= u16::MAX,
            forall|k: int| 0 <= k < agg@.len() ==> (#[trigger] agg@[k]).monthly@.len() == 12,
            cells_view(cells@) == cells_view(old(cells)@) + agg_header(r0 as int, c0 as int)
                + agg_rows(agg@.take(i as int), r0 as int, c0 as int),
        decreases agg@.len() - i,
    {
        let ghost pre = cells_view(cells@);
        let r: u32 = r0 + 1 + i as u32;
        push_text(cells, r, c0, agg[i].glyph.clone());
        push_int(cells, r, c0 + 1, agg[i].level as i64);
        push_int(cells, r, c0 + 2, agg[i].annual as i64);
        let mut m: u16 = 1;
        while m <= 12
            invariant
                1 <= m <= 13,
                r == r0 + 1 + i,
                i < agg@.len(),
                c0 + 14 <= u16::MAX,
                forall|k: int| 0 <= k < agg@.len() ==> (#[trigger] agg@[k]).monthly@.len() == 12,
                cells_view(cells@) == pre + seq![
                    (CellSpec {
                        row: r as int,
                        col: c0 as int,
                        value: CellValueSpec::Text(agg@[i as int].glyph@),
                    }),
                    (CellSpec {
                        row: r as int,
                        col: c0 + 1 as int,
                        value: CellValueSpec::Int(agg@[i as int].level as int),
                    }),
                    (CellSpec {
                        row: r as int,
                        col: c0 + 2 as int,
                        value: CellValueSpec::Int(agg@[i as int].annual as int),
                    }),
                ] + agg_row_months(agg@[i as int], r as int, c0 as int, m as int - 1),
            decreases 13 - m,
        {
            push_int(cells, r, c0 + 2 + m, agg[i].monthly[(m - 1) as usize] as i64);
            m += 1;
        }
        proof {
            assert(cells_view(cells@) =~= pre + agg_row_cells(agg@[i as int], r as int, c0 as int));
            assert(agg@.take(i + 1).drop_last() =~= agg@.take(i as int));
            assert(agg@.take(i + 1).last() == agg@[i as int]);
            assert(agg_rows(agg@.take(i + 1), r0 as int, c0 as int) =~= agg_rows(
                agg@.take(i as int),
                r0 as int,
                c0 as int,
            ) + agg_row_cells(agg@[i as int], r as int, c0 as int));
            assert(cells_view(cells@) =~= cells_view(old(cells)@) + agg_header(r0 as int, c0 as int)
                + agg_rows(agg@.take(i + 1), r0 as int, c0 as int));
        }
        i += 1;
    }
    proof {
        assert(agg@.take(agg@.len() as int) =~= agg@);
        assert(cells_view(cells@) =~= cells_view(old(cells)@) + agg_table(agg@, r0 as int, c0 as int));
    }
}

} // verus!
