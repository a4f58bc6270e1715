//! The report layout engine: one raw-data sheet, one sheet per year present
//! in the merged series (calendar table, aggregation table, two data-bar
//! formats, twelve monthly trend charts), and one year-over-year comparison
//! sheet stacking every year's aggregation block.

use vstd::prelude::*;

use crate::aggregate::LevelRow;
use crate::aggregate::aggregate;
use crate::aggregate::aggregation_wf;
use crate::calendar::CalendarDay;
use crate::calendar::calendar_wf;
use crate::calendar::lemma_calendar_determined;
use crate::calendar::synthesize_year;
use crate::chart::month_chart_wf;
use crate::chart::build_year_charts;
use crate::date::lemma_key_year_order;
use crate::series::ConditionRecord;
use crate::series::valid_series;
use crate::sheet::BarColor;
use crate::sheet::Cell;
use crate::sheet::CellSpec;
use crate::sheet::CellValueSpec;
use crate::sheet::DataBar;
use crate::sheet::ReportDocument;
use crate::sheet::Sheet;
use crate::sheet::agg_table;
use crate::sheet::calendar_table;
use crate::sheet::cells_view;
use crate::sheet::lemma_agg_table_eq;
use crate::sheet::lemma_agg_table_len;
use crate::sheet::push_text;
use crate::sheet::record_table;
use crate::sheet::write_agg_table;
use crate::sheet::write_calendar_table;
use crate::sheet::write_record_table;
use crate::text::dec_digits;
use crate::text::decimal_string;

verus! {

// ---------------------------------------------------------------------------
// The distinct years of a series.
// ---------------------------------------------------------------------------

/// The distinct years of a date-sorted series, in ascending order.
pub open spec fn year_list(s: Seq<ConditionRecord>) -> Seq<int>
    decreases s.len(),
{
    if s.len() == 0 {
        Seq::empty()
    } else {
        let p = year_list(s.drop_last());
        if p.len() > 0 && p.last() == s.last().date.year {
            p
        } else {
            p.push(s.last().date.year as int)
        }
    }
}

/// The year list is complete and exact: it holds a year exactly when some
/// record of the series carries a date of that year.
pub proof fn lemma_year_list_complete(s: Seq<ConditionRecord>)
    ensures
        forall|y: int|
            #[trigger] year_list(s).contains(y) <==> exists|i: int|
                0 <= i < s.len() && (#[trigger] s[i]).date.year == y,
    decreases s.len(),
{
    if s.len() > 0 {
        lemma_year_list_complete(s.drop_last());
        let t = s.drop_last();
        let p = year_list(t);
        let n = s.len() as int;
        assert forall|y: int| #[trigger] year_list(s).contains(y) implies exists|i: int|
            0 <= i < s.len() && (#[trigger] s[i]).date.year == y by {
            let j = choose|j: int| 0 <= j < year_list(s).len() && year_list(s)[j] == y;
            if j < p.len() {
                assert(p.contains(y)) by {
                    assert(p[j] == y);
                }
                let i = choose|i: int| 0 <= i < t.len() && (#[trigger] t[i]).date.year == y;
                assert(s[i].date.year == y);
            } else {
                assert(s[n - 1].date.year == y);
            }
        }
        assert forall|y: int|
            exists|i: int| 0 <= i < s.len() && (#[trigger] s[i]).date.year == y implies #[trigger]
        year_list(s).contains(y) by {
            let i = choose|i: int| 0 <= i < s.len() && (#[trigger] s[i]).date.year == y;
            if i < n - 1 {
                assert(t[i].date.year == y);
                assert(p.contains(y));
                let j = choose|j: int| 0 <= j < p.len() && p[j] == y;
                assert(year_list(s)[j] == y);
            } else {
                if p.len() > 0 && p.last() == s.last().date.year {
                    assert(year_list(s)[p.len() - 1] == y);
                } else {
                    assert(year_list(s)[year_list(s).len() - 1] == y);
                }
            }
        }
    }
}

/// In a strictly increasing sequence, the value at `j` is at least the first
/// value plus `j`.
proof fn lemma_increasing_lower(ys: Seq<i32>, j: int)
    requires
        forall|k1: int, k2: int| 0 <= k1 < k2 < ys.len() ==> ys[k1] < ys[k2],
        0 <= j < ys.len(),
    ensures
        ys[j] >= ys[0] + j,
    decreases j,
{
    if j > 0 {
        lemma_increasing_lower(ys, j - 1);
    }
}

/// The distinct years of `series`, ascending. There are at most 9999 of
/// them, since every valid date's year is between 1 and 9999.
pub fn distinct_years(series: &Vec<ConditionRecord>) -> (ys: Vec<i32>)
    requires
        valid_series(series@),
    ensures
        ys@.map_values(|y: i32| y as int) == year_list(series@),
        forall|k: int| 0 <= k < ys@.len() ==> 1 <= #[trigger] ys@[k] <= 9999,
        forall|k1: int, k2: int| 0 <= k1 < k2 < ys@.len() ==> ys@[k1] < ys@[k2],
        ys@.len() <= 9999,
{
    let mut ys: Vec<i32> = Vec::new();
    let mut i: usize = 0;
    while i < series.len()
        invariant
            i <= series@.len(),
            valid_series(series@),
            ys@.map_values(|y: i32| y as int) == year_list(series@.take(i as int)),
            forall|k: int| 0 <= k < ys@.len() ==> 1 <= #[trigger] ys@[k] <= 9999,
            forall|k1: int, k2: int| 0 <= k1 < k2 < ys@.len() ==> ys@[k1] < ys@[k2],
            ys@.len() > 0 ==> i > 0 && ys@.last() == series@[i - 1].date.year,
            ys@.len() == 0 ==> i == 0,
        decreases series@.len() - i,
    {
        let ghost pre = ys@;
        let y: i32 = series[i].date.year;
        proof {
            assert(series@.take(i + 1).drop_last() =~= series@.take(i as int));
            assert(series@.take(i + 1).last() == series@[i as int]);
        }
        if ys.len() == 0 {
            ys.push(y);
            proof {
                assert(ys@.map_values(|y: i32| y as int) =~= year_list(series@.take(i + 1)));
            }
        } else {
            let last: i32 = ys[ys.len() - 1];
            proof {
                assert(year_list(series@.take(i as int)).last() == pre.map_values(
                    |y: i32| y as int,
                ).last());
                lemma_key_year_order(series@[i - 1].date, series@[i as int].date);
            }
            if last != y {
                ys.push(y);
                proof {
                    assert(ys@.map_values(|y: i32| y as int) =~= year_list(series@.take(i + 1)));
                    assert forall|k1: int, k2: int|
                        0 <= k1 < k2 < ys@.len() implies ys@[k1] < ys@[k2] by {
                        if k2 == ys@.len() - 1 {
                            assert(pre[k1] <= pre[pre.len() - 1]);
                        }
                    }
                }
            } else {
                proof {
                    assert(ys@.map_values(|y: i32| y as int) =~= year_list(series@.take(i + 1)));
                }
            }
        }
        i += 1;
    }
    proof {
        assert(series@.take(series@.len() as int) =~= series@);
        if ys@.len() > 0 {
            lemma_increasing_lower(ys@, ys@.len() - 1);
        }
    }
    ys
}

// ---------------------------------------------------------------------------
// The shape of the finished document.
// ---------------------------------------------------------------------------

/// A calendar and its aggregation table, both belonging to year `y` of
/// series `s`. These are the artifacts each year sheet and comparison block
/// is built from; their contracts determine them from `s` and `y` alone.
pub open spec fn year_artifacts(
    s: Seq<ConditionRecord>,
    y: int,
    cal: Seq<CalendarDay>,
    agg: Seq<LevelRow>,
) -> bool {
    calendar_wf(cal, s, y) && aggregation_wf(agg, cal)
}

/// The artifacts the report predicate binds are canonical: any two
/// calendar/aggregation pairs of the same series and year are the same
/// calendar and lay out the same aggregation cells, wherever the table
/// stands — so the sheets the predicate describes are determined by the
/// series alone.
pub proof fn lemma_year_artifacts_determined(
    s: Seq<ConditionRecord>,
    y: int,
    cal1: Seq<CalendarDay>,
    agg1: Seq<LevelRow>,
    cal2: Seq<CalendarDay>,
    agg2: Seq<LevelRow>,
)
    requires
        year_artifacts(s, y, cal1, agg1),
        year_artifacts(s, y, cal2, agg2),
    ensures
        cal1 == cal2,
        forall|r0: int, c0: int| #[trigger] agg_table(agg1, r0, c0) == agg_table(agg2, r0, c0),
{
    lemma_calendar_determined(cal1, cal2, s, y);
    assert forall|r: int|
        0 <= r < agg1.len() implies (#[trigger] agg1[r]).glyph@ == agg2[r].glyph@ && agg1[r].level
        == agg2[r].level && agg1[r].annual == agg2[r].annual && agg1[r].monthly@
        == agg2[r].monthly@ by {
        assert(agg1[r].monthly@ =~= agg2[r].monthly@);
    }
    assert forall|r0: int, c0: int| #[trigger] agg_table(agg1, r0, c0) == agg_table(
        agg2,
        r0,
        c0,
    ) by {
        lemma_agg_table_eq(agg1, agg2, r0, c0);
    }
}

/// The raw-data sheet: named "data", the merged series written verbatim as a
/// record table at the origin, no formats and no charts.
pub open spec fn data_sheet_wf(sheet: Sheet, s: Seq<ConditionRecord>) -> bool {
    &&& sheet.name@ == "data"@
    &&& cells_view(sheet.cells@) == record_table(s, 0, 0)
    &&& sheet.bars@ == Seq::<DataBar>::empty()
    &&& sheet.charts@.len() == 0
}

/// The two data-bar formats of a year sheet: one color over the annual
/// column of the aggregation table, another spanning its twelve month
/// columns (the table sits at column 6, so those are columns 8 and 9..=20,
/// over the six level rows).
pub open spec fn year_sheet_bars() -> Seq<DataBar> {
    seq![
        DataBar { first_row: 1, first_col: 8, last_row: 6, last_col: 8, color: BarColor::Orange },
        DataBar { first_row: 1, first_col: 9, last_row: 6, last_col: 20, color: BarColor::Green },
    ]
}

/// A year's sheet: named by the year, the calendar table at the origin, the
/// aggregation table beside it at column 6, the two data-bar formats, and
/// the twelve monthly charts on the chart grid.
pub open spec fn year_sheet_wf(
    sheet: Sheet,
    y: int,
    cal: Seq<CalendarDay>,
    agg: Seq<LevelRow>,
) -> bool {
    &&& sheet.name@ == dec_digits(y as nat)
    &&& cells_view(sheet.cells@) == calendar_table(cal, 0, 0) + agg_table(agg, 0, 6)
    &&& sheet.bars@ == year_sheet_bars()
    &&& sheet.charts@.len() == 12
    &&& forall|i: int| 0 <= i < 12 ==> month_chart_wf(#[trigger] sheet.charts@[i], y, i + 1, i)
}

/// A sheet together with the (determined) artifacts of its year.
pub open spec fn year_sheet_ok(s: Seq<ConditionRecord>, sheet: Sheet, y: int) -> bool {
    exists|cal: Seq<CalendarDay>, agg: Seq<LevelRow>|
        #[trigger] year_artifacts(s, y, cal, agg) && year_sheet_wf(sheet, y, cal, agg)
}

/// Block `k` of the comparison sheet: the year label on the block's first
/// row, then the year's aggregation table; blocks stack eight rows apart
/// (label, header, six level rows).
pub open spec fn comparison_block(y: int, agg: Seq<LevelRow>, k: int) -> Seq<CellSpec> {
    seq![
        CellSpec { row: 8 * k, col: 0, value: CellValueSpec::Text(dec_digits(y as nat)) },
    ] + agg_table(agg, 8 * k + 1, 0)
}

/// The two data-bar formats of comparison block `k`: over the block's annual
/// column (column 2) and its twelve month columns (3..=14), on its six level
/// rows.
pub open spec fn comparison_bars(k: int) -> Seq<DataBar> {
    seq![
        DataBar {
            first_row: (8 * k + 2) as u32,
            first_col: 2,
            last_row: (8 * k + 7) as u32,
            last_col: 2,
            color: BarColor::Orange,
        },
        DataBar {
            first_row: (8 * k + 2) as u32,
            first_col: 3,
            last_row: (8 * k + 7) as u32,
            last_col: 14,
            color: BarColor::Green,
        },
    ]
}

/// The cells of block `k` within a comparison sheet's cell list: each block
/// is exactly 106 cells (one label, then a 15-column table of 7 rows).
pub open spec fn block_cells(view: Seq<CellSpec>, k: int) -> Seq<CellSpec> {
    view.subrange(106 * k, 106 * (k + 1))
}

/// The data bars of block `k` within a comparison sheet's bar list.
pub open spec fn block_bars(bars: Seq<DataBar>, k: int) -> Seq<DataBar> {
    bars.subrange(2 * k, 2 * (k + 1))
}

/// Block `k` of a comparison-sheet cell list holds year `y`'s label and its
/// (determined) aggregation table.
pub open spec fn comparison_block_ok(
    s: Seq<ConditionRecord>,
    view: Seq<CellSpec>,
    y: int,
    k: int,
) -> bool {
    exists|cal: Seq<CalendarDay>, agg: Seq<LevelRow>|
        #[trigger] year_artifacts(s, y, cal, agg) && block_cells(view, k) == comparison_block(
            y,
            agg,
            k,
        )
}

/// The comparison sheet: one block and one pair of data bars per year, in
/// ascending year order, and nothing else.
pub open spec fn comparison_sheet_wf(sheet: Sheet, s: Seq<ConditionRecord>) -> bool {
    &&& sheet.name@ == "年間体調比較"@
    &&& sheet.cells@.len() == 106 * year_list(s).len()
    &&& sheet.bars@.len() == 2 * year_list(s).len()
    &&& sheet.charts@.len() == 0
    &&& forall|k: int|
        0 <= k < year_list(s).len() ==> #[trigger] block_bars(sheet.bars@, k) == comparison_bars(k)
    &&& forall|k: int|
        0 <= k < year_list(s).len() ==> comparison_block_ok(
            s,
            cells_view(sheet.cells@),
            year_list(s)[k],
            k,
        )
}

/// The finished document: the raw-data sheet first, the comparison sheet
/// second, then one sheet per distinct year of the series, ascending.
pub open spec fn report_wf(doc: ReportDocument, s: Seq<ConditionRecord>) -> bool {
    let years = year_list(s);
    let year_sheets = doc.sheets@.subrange(2, doc.sheets@.len() as int);
    &&& doc.sheets@.len() == 2 + years.len()
    &&& data_sheet_wf(doc.sheets@[0], s)
    &&& comparison_sheet_wf(doc.sheets@[1], s)
    &&& forall|k: int|
        0 <= k < years.len() ==> year_sheet_ok(s, #[trigger] year_sheets[k], years[k])
}

// ---------------------------------------------------------------------------
// Builders.
// ---------------------------------------------------------------------------

/// Builds one year's sheet from its calendar and aggregation table.
fn make_year_sheet(year: i32, cal: &Vec<CalendarDay>, agg: &Vec<LevelRow>) -> (sheet: Sheet)
    requires
        1 <= year <= 9999,
        cal@.len() + 1 <= u32::MAX,
        forall|i: int| 0 <= i < cal@.len() ==> 1 <= (#[trigger] cal@[i]).weekday <= 7,
        agg@.len() == 6,
        forall|i: int| 0 <= i < agg@.len() ==> (#[trigger] agg@[i]).monthly@.len() == 12,
    ensures
        year_sheet_wf(sheet, year as int, cal@, agg@),
{
    let mut cells: Vec<Cell> = Vec::new();
    write_calendar_table(&mut cells, cal, 0, 0);
    write_agg_table(&mut cells, agg, 0, 6);
    proof {
        assert(cells_view(cells@) =~= calendar_table(cal@, 0, 0) + agg_table(agg@, 0, 6));
    }
    let mut bars: Vec<DataBar> = Vec::new();
    bars.push(DataBar { first_row: 1, first_col: 8, last_row: 6, last_col: 8, color: BarColor::Orange });
    bars.push(DataBar { first_row: 1, first_col: 9, last_row: 6, last_col: 20, color: BarColor::Green });
    proof {
        assert(bars@ =~= year_sheet_bars());
    }
    let charts = build_year_charts(year);
    Sheet { name: decimal_string(year as u32), cells, bars, charts }
}

/// Appends year `year`'s block (label row, aggregation table, two data bars)
/// to the comparison sheet's cells and bars, as block number `k`.
fn append_comparison_block(
    cells: &mut Vec<Cell>,
    bars: &mut Vec<DataBar>,
    year: i32,
    agg: &Vec<LevelRow>,
    k: u32,
)
    requires
        1 <= year <= 9999,
        k <= 9998,
        agg@.len() == 6,
        forall|i: int| 0 <= i < agg@.len() ==> (#[trigger] agg@[i]).monthly@.len() == 12,
    ensures
        cells_view(final(cells)@) == cells_view(old(cells)@) + comparison_block(
            year as int,
            agg@,
            k as int,
        ),
        final(bars)@ == old(bars)@ + comparison_bars(k as int),
{
    let base: u32 = 8 * k;
    push_text(cells, base, 0, decimal_string(year as u32));
    write_agg_table(cells, agg, base + 1, 0);
    bars.push(
        DataBar {
            first_row: base + 2,
            first_col: 2,
            last_row: base + 7,
            last_col: 2,
            color: BarColor::Orange,
        },
    );
    bars.push(
        DataBar {
            first_row: base + 2,
            first_col: 3,
            last_row: base + 7,
            last_col: 14,
            color: BarColor::Green,
        },
    );
    proof {
        assert(cells_view(cells@) =~= cells_view(old(cells)@) + comparison_block(
            year as int,
            agg@,
            k as int,
        ));
        assert(bars@ =~= old(bars)@ + comparison_bars(k as int));
    }
}

/// Builds the whole report document from the merged series: the raw-data
/// sheet, the comparison sheet, and one sheet per year of the series in
/// ascending year order, each with its calendar, its aggregation table, its
/// two data-bar formats and its twelve monthly charts.
pub fn build_report(series: &Vec<ConditionRecord>) -> (doc: ReportDocument)
    requires
        valid_series(series@),
        series@.len() + 1 <= u32::MAX,
    ensures
        report_wf(doc, series@),
{
    let ghost yl = year_list(series@);
    let mut data_cells: Vec<Cell> = Vec::new();
    write_record_table(&mut data_cells, series, 0, 0);
    let data_sheet = Sheet {
        name: "data".to_owned(),
        cells: data_cells,
        bars: Vec::new(),
        charts: Vec::new(),
    };
    proof {
        assert(cells_view(data_sheet.cells@) =~= record_table(series@, 0, 0));
    }
    let ys = distinct_years(series);
    proof {
        assert(ys@.len() == yl.len());
    }
    let mut comp_cells: Vec<Cell> = Vec::new();
    let mut comp_bars: Vec<DataBar> = Vec::new();
    let mut year_sheets: Vec<Sheet> = Vec::new();
    let mut k: usize = 0;
    while k < ys.len()
        invariant
            valid_series(series@),
            yl == year_list(series@),
            ys@.map_values(|y: i32| y as int) == yl,
            forall|j: int| 0 <= j < ys@.len() ==> 1 <= #[trigger] ys@[j] <= 9999,
            ys@.len() <= 9999,
            k <= ys@.len(),
            year_sheets@.len() == k,
            forall|j: int|
                0 <= j < k ==> year_sheet_ok(series@, #[trigger] year_sheets@[j], yl[j]),
            comp_cells@.len() == 106 * k,
            comp_bars@.len() == 2 * k,
            forall|j: int|
                0 <= j < k ==> #[trigger] block_bars(comp_bars@, j) == comparison_bars(j),
            forall|j: int|
                0 <= j < k ==> comparison_block_ok(series@, cells_view(comp_cells@), yl[j], j),
        decreases ys@.len() - k,
    {
        let ghost pre_view = cells_view(comp_cells@);
        let ghost pre_bars = comp_bars@;
        let y = ys[k];
        proof {
            assert(yl[k as int] == y as int);
        }
        let cal = synthesize_year(series, y);
        proof {
            assert(forall|i: int|
                0 <= i < cal@.len() ==> 1 <= (#[trigger] cal@[i]).weekday <= 7) by {
                assert(forall|i: int|
                    0 <= i < cal@.len() ==> crate::calendar::day_wf(#[trigger] cal@[i], y as int));
            }
        }
        let agg = aggregate(&cal);
        let sheet = make_year_sheet(y, &cal, &agg);
        year_sheets.push(sheet);
        append_comparison_block(&mut comp_cells, &mut comp_bars, y, &agg, k as u32);
        proof {
            lemma_agg_table_len(agg@, 8 * (k as int) + 1, 0);
            assert(year_artifacts(series@, y as int, cal@, agg@));
            assert(year_sheet_ok(series@, year_sheets@[k as int], yl[k as int]));
            assert(comparison_block(y as int, agg@, k as int).len() == 106);
            assert(pre_view.len() == 106 * (k as int));
            assert(cells_view(comp_cells@).len() == comp_cells@.len());
            assert(comp_cells@.len() == 106 * (k + 1));
            assert(block_cells(cells_view(comp_cells@), k as int) =~= comparison_block(
                y as int,
                agg@,
                k as int,
            ));
            assert(comparison_block_ok(series@, cells_view(comp_cells@), yl[k as int], k as int));
            assert(block_bars(comp_bars@, k as int) =~= comparison_bars(k as int));
            assert forall|j: int| 0 <= j < k implies #[trigger] block_bars(comp_bars@, j)
                == comparison_bars(j) by {
                assert(block_bars(comp_bars@, j) =~= block_bars(pre_bars, j));
            }
            assert forall|j: int| 0 <= j < k implies comparison_block_ok(
                series@,
                cells_view(comp_cells@),
                yl[j],
                j,
            ) by {
                let (cal0, agg0): (Seq<CalendarDay>, Seq<LevelRow>) = choose|
                    cal0: Seq<CalendarDay>,
                    agg0: Seq<LevelRow>,
                |
                    #[trigger] year_artifacts(series@, yl[j], cal0, agg0) && block_cells(
                        pre_view,
                        j,
                    ) == comparison_block(yl[j], agg0, j);
                assert(block_cells(cells_view(comp_cells@), j) =~= block_cells(pre_view, j));
                assert(year_artifacts(series@, yl[j], cal0, agg0) && block_cells(
                    cells_view(comp_cells@),
                    j,
                ) == comparison_block(yl[j], agg0, j));
            }
        }
        k += 1;
    }
    let comp_sheet = Sheet {
        name: "年間体調比較".to_owned(),
        cells: comp_cells,
        bars: comp_bars,
        charts: Vec::new(),
    };
    let mut sheets: Vec<Sheet> = Vec::new();
    sheets.push(data_sheet);
    sheets.push(comp_sheet);
    let ghost year_sheets_view = year_sheets@;
    sheets.append(&mut year_sheets);
    let doc = ReportDocument { sheets };
    proof {
        assert(doc.sheets@.subrange(2, doc.sheets@.len() as int) =~= year_sheets_view);
        assert(data_sheet_wf(doc.sheets@[0], series@));
        assert(comparison_sheet_wf(doc.sheets@[1], series@));
    }
    doc
}

} // verus!
