use calamine::DataType;
use calamine::Reader;
use chrono::Datelike;
use condition_report::aggregate::aggregate;
use condition_report::calendar::synthesize_year;
use condition_report::chart::build_month_chart;
use condition_report::chart::chart_anchor;
use condition_report::chart::CHART_HEIGHT;
use condition_report::chart::CHART_WIDTH;
use condition_report::date::weekday_number;
use condition_report::date::Date;
use condition_report::ingest::series_from_rows;
use condition_report::ingest::InputRow;
use condition_report::layout::build_report;
use condition_report::layout::distinct_years;
use condition_report::merge::merge;
use condition_report::parse::parse_date_field;
use condition_report::parse::parse_delta_log;
use condition_report::parse::parse_level;
use condition_report::series::ConditionRecord;
use condition_report::sheet::BarColor;
use condition_report::sheet::CellValue;
use condition_report::text::decimal_string;
use condition_report::text::level_glyph_string;
use condition_report::text::month_label_string;
use condition_report::text::weekday_label_string;

fn d(year: i32, month: u8, day: u8) -> Date {
    Date::new(year, month, day).unwrap()
}

fn rec(year: i32, month: u8, day: u8, level: Option<i32>, comment: Option<&str>) -> ConditionRecord {
    ConditionRecord { date: d(year, month, day), level, comment: comment.map(|c| c.to_string()) }
}

fn chars(s: &str) -> Vec<char> {
    s.chars().collect()
}

#[test]
fn test_read_csv() {
    let mut text = String::from("\u{feff}");
    text.push_str("日付,\"愛さん体調\",\"愛さん体調\"\n");
    text.push_str(",\"\",コメント\n");
    text.push_str("2025/01/27,,\n");
    text.push_str(",2,Should be dropped\n");
    text.push_str("2025/01/28,3,Test comment2\n");

    let rows = parse_delta_log(&text);
    let series = series_from_rows(&rows);

    assert_eq!(series.len(), 2);
    assert_eq!(series[0].date, d(2025, 01, 27));
    assert_eq!(series[0].level, None);
    assert_eq!(series[0].comment, None);
    assert_eq!(series[1].date, d(2025, 01, 28));
    assert_eq!(series[1].level, Some(3));
    assert_eq!(series[1].comment.as_deref(), Some("Test comment2"));
}

#[test]
fn test_read_excel() {
    let mut workbook = rust_xlsxwriter::Workbook::new();
    let date_format = rust_xlsxwriter::Format::new().set_num_format("yyyy/mm/dd");
    let worksheet = workbook.add_worksheet().set_name("data").unwrap();
    worksheet.write_string(0, 0, "日付").unwrap();
    worksheet.write_string(0, 1, "体調").unwrap();
    worksheet.write_string(0, 2, "コメント").unwrap();
    worksheet
        .write_with_format(
            1,
            0,
            rust_xlsxwriter::ExcelDateTime::from_ymd(2025, 1, 25).unwrap(),
            &date_format,
        )
        .unwrap()
        .write_number(2, 1, 2)
        .unwrap()
        .write_string(2, 2, "Test comment")
        .unwrap();
    let buffer = workbook.save_to_buffer().unwrap();

    let mut excel: calamine::Xlsx<std::io::Cursor<Vec<u8>>> =
        calamine::open_workbook_from_rs(std::io::Cursor::new(buffer)).unwrap();
    let range = excel.worksheet_range("data").unwrap();
    let mut rows: Vec<InputRow> = Vec::new();
    for row in range.rows().skip(1) {
        let date = row
            .first()
            .and_then(calamine::Data::as_date)
            .and_then(|nd| Date::new(nd.year(), nd.month() as u8, nd.day() as u8));
        let level = row.get(1).and_then(calamine::Data::as_i64).map(|v| v as i32);
        let comment = row.get(2).and_then(calamine::Data::as_string);
        rows.push(InputRow { date, level, comment });
    }

    assert_eq!(rows.len(), 2);
    assert_eq!(rows[0].date, Some(d(2025, 01, 25)));
    assert_eq!(rows[0].level, None);
    assert_eq!(rows[0].comment, None);
    assert_eq!(rows[1].date, None);
    assert_eq!(rows[1].level, Some(2));
    assert_eq!(rows[1].comment.as_deref(), Some("Test comment"));

    // Only the dated row can join the date-keyed series.
    let series = series_from_rows(&rows);
    assert_eq!(series.len(), 1);
    assert_eq!(series[0].date, d(2025, 01, 25));
    assert_eq!(series[0].level, None);
}

#[test]
fn test_merge_condition_df() {
    let csv_series = vec![
        rec(2025, 01, 27, None, None),
        rec(2025, 01, 28, Some(4), Some("Test comment")),
    ];
    let excel_series = vec![
        rec(2025, 01, 25, None, None),
        rec(2025, 01, 26, Some(2), Some("テストコメント")),
    ];

    let merged = merge(&excel_series, &csv_series);

    assert_eq!(merged.len(), 4);
    assert_eq!(merged[0].date, d(2025, 01, 25));
    assert_eq!(merged[0].level, None);
    assert_eq!(merged[0].comment, None);
    assert_eq!(merged[1].date, d(2025, 01, 26));
    assert_eq!(merged[1].level, Some(2));
    assert_eq!(merged[1].comment.as_deref(), Some("テストコメント"));
    assert_eq!(merged[2].date, d(2025, 01, 27));
    assert_eq!(merged[2].level, None);
    assert_eq!(merged[2].comment, None);
    assert_eq!(merged[3].date, d(2025, 01, 28));
    assert_eq!(merged[3].level, Some(4));
    assert_eq!(merged[3].comment.as_deref(), Some("Test comment"));
}

#[test]
fn test_write_excel() {
    let series = vec![
        rec(2024, 01, 25, None, None),
        rec(2024, 01, 26, Some(2), Some("Test comment1")),
        rec(2024, 01, 27, None, None),
        rec(2024, 01, 28, Some(3), Some("Test comment2")),
        rec(2025, 01, 25, None, None),
        rec(2025, 01, 26, Some(4), Some("Test comment3")),
        rec(2025, 01, 27, None, None),
        rec(2025, 01, 28, Some(5), Some("Test comment4")),
    ];

    let doc = build_report(&series);

    assert_eq!(doc.sheets.len(), 4);
    assert_eq!(doc.sheets[0].name, "data");
    assert_eq!(doc.sheets[1].name, "年間体調比較");
    assert_eq!(doc.sheets[2].name, "2024");
    assert_eq!(doc.sheets[3].name, "2025");
}

#[test]
fn test_merge_union_order() {
    let existing = vec![rec(2025, 01, 25, None, None), rec(2025, 01, 26, Some(2), Some("c"))];
    let incoming = vec![rec(2025, 01, 27, None, None), rec(2025, 01, 28, Some(4), Some("x"))];

    let merged = merge(&existing, &incoming);

    assert_eq!(merged.len(), 4);
    assert_eq!(merged[0].date, d(2025, 01, 25));
    assert_eq!(merged[0].level, None);
    assert_eq!(merged[1].date, d(2025, 01, 26));
    assert_eq!(merged[1].level, Some(2));
    assert_eq!(merged[1].comment.as_deref(), Some("c"));
    assert_eq!(merged[2].date, d(2025, 01, 27));
    assert_eq!(merged[2].level, None);
    assert_eq!(merged[3].date, d(2025, 01, 28));
    assert_eq!(merged[3].level, Some(4));
    assert_eq!(merged[3].comment.as_deref(), Some("x"));
}

#[test]
fn test_merge_incoming_wins() {
    let existing = vec![rec(2025, 01, 26, Some(2), Some("old"))];
    let incoming = vec![rec(2025, 01, 26, Some(9), Some("new"))];

    let merged = merge(&existing, &incoming);

    assert_eq!(merged.len(), 1);
    assert_eq!(merged[0].date, d(2025, 01, 26));
    assert_eq!(merged[0].level, Some(9));
    assert_eq!(merged[0].comment.as_deref(), Some("new"));
}

#[test]
fn test_merge_empty_inputs() {
    let merged = merge(&Vec::new(), &Vec::new());
    assert!(merged.is_empty());

    let one = vec![rec(2025, 03, 01, Some(1), None)];
    let merged = merge(&one, &Vec::new());
    assert_eq!(merged.len(), 1);
    assert_eq!(merged[0].date, d(2025, 03, 01));

    let merged = merge(&Vec::new(), &one);
    assert_eq!(merged.len(), 1);
    assert_eq!(merged[0].date, d(2025, 03, 01));
}

#[test]
fn test_synthesize_empty_leap_year() {
    let cal = synthesize_year(&Vec::new(), 2024);

    assert_eq!(cal.len(), 366);
    assert_eq!(cal[0].date, d(2024, 01, 01));
    assert_eq!(cal[365].date, d(2024, 12, 31));
    for (i, day) in cal.iter().enumerate() {
        assert_eq!(day.level, None);
        assert_eq!(day.comment, None);
        // January 1, 2024 is a Monday, so the weekday labels cycle from it.
        assert_eq!(day.weekday as usize, i % 7 + 1);
        assert_eq!(day.holiday, if day.weekday >= 6 { 5 } else { 0 });
    }
}

#[test]
fn test_calendar_density_common_years() {
    let cal = synthesize_year(&Vec::new(), 2025);
    assert_eq!(cal.len(), 365);
    assert_eq!(cal[0].date, d(2025, 01, 01));
    assert_eq!(cal[364].date, d(2025, 12, 31));

    // A century year is not a leap year unless divisible by 400.
    assert_eq!(synthesize_year(&Vec::new(), 1900).len(), 365);
    assert_eq!(synthesize_year(&Vec::new(), 2000).len(), 366);
}

#[test]
fn test_calendar_left_join() {
    let series = vec![rec(2025, 06, 15, Some(4), Some("good"))];
    let cal = synthesize_year(&series, 2025);

    // June 15 is day 31+28+31+30+31+14 of the year.
    let idx = 31 + 28 + 31 + 30 + 31 + 14;
    assert_eq!(cal[idx].date, d(2025, 06, 15));
    assert_eq!(cal[idx].level, Some(4));
    assert_eq!(cal[idx].comment.as_deref(), Some("good"));
    assert_eq!(cal[idx - 1].level, None);
    assert_eq!(cal[idx + 1].level, None);
}

#[test]
fn test_single_record_aggregation() {
    let series = vec![rec(2025, 06, 15, Some(3), None)];
    let cal = synthesize_year(&series, 2025);
    let agg = aggregate(&cal);

    assert_eq!(agg.len(), 6);
    for (r, row) in agg.iter().enumerate() {
        assert_eq!(row.level as usize, 5 - r);
        assert_eq!(row.monthly.len(), 12);
        if row.level == 3 {
            assert_eq!(row.annual, 1);
            for (m0, &c) in row.monthly.iter().enumerate() {
                assert_eq!(c, if m0 == 5 { 1 } else { 0 });
            }
        } else {
            assert_eq!(row.annual, 0);
            for &c in row.monthly.iter() {
                assert_eq!(c, 0);
            }
        }
    }
}

#[test]
fn test_aggregation_closure_sums() {
    let series = vec![
        rec(2025, 01, 10, Some(5), None),
        rec(2025, 01, 11, Some(3), None),
        rec(2025, 02, 01, Some(3), None),
        rec(2025, 02, 02, Some(0), None),
        rec(2025, 03, 03, None, Some("no level")),
    ];
    let cal = synthesize_year(&series, 2025);
    let agg = aggregate(&cal);

    let annual_sum: u32 = agg.iter().map(|r| r.annual).sum();
    assert_eq!(annual_sum, 4);

    let jan_sum: u32 = agg.iter().map(|r| r.monthly[0]).sum();
    let feb_sum: u32 = agg.iter().map(|r| r.monthly[1]).sum();
    let mar_sum: u32 = agg.iter().map(|r| r.monthly[2]).sum();
    assert_eq!(jan_sum, 2);
    assert_eq!(feb_sum, 2);
    assert_eq!(mar_sum, 0);
}

#[test]
fn test_aggregation_cells_present() {
    let cal = synthesize_year(&Vec::new(), 2025);
    let agg = aggregate(&cal);

    assert_eq!(agg.len(), 6);
    let glyphs = ["↑", "↗", "→", "↘", "↓", "⇓"];
    for (r, row) in agg.iter().enumerate() {
        assert_eq!(row.level as usize, 5 - r);
        assert_eq!(row.glyph, glyphs[r]);
        assert_eq!(row.annual, 0);
        assert_eq!(row.monthly.len(), 12);
        for &c in row.monthly.iter() {
            assert_eq!(c, 0);
        }
    }
}

#[test]
fn test_chart_grid_positions() {
    assert_eq!(chart_anchor(0), (8, 5));
    assert_eq!(chart_anchor(1), (8, 16));
    assert_eq!(chart_anchor(2), (16, 5));
    assert_eq!(chart_anchor(3), (16, 16));
    assert_eq!(chart_anchor(10), (48, 5));
    assert_eq!(chart_anchor(11), (48, 16));
}

#[test]
fn test_month_chart_ranges() {
    let c = build_month_chart(2024, 3, 2);

    assert_eq!(c.month, 3);
    assert_eq!(c.title, "3月");
    assert_eq!(c.sheet, "2024");
    // 31 + 29 days come before March 2024; one header row sits above the table.
    assert_eq!(c.first_row, 61);
    assert_eq!(c.last_row, 91);
    assert_eq!(c.days, 31);
    assert_eq!(c.anchor_row, 16);
    assert_eq!(c.anchor_col, 5);
    assert_eq!(CHART_WIDTH, 620);
    assert_eq!(CHART_HEIGHT, 155);
}

#[test]
fn test_date_validity() {
    assert!(Date::new(2024, 2, 29).is_some());
    assert!(Date::new(2025, 2, 29).is_none());
    assert!(Date::new(2025, 4, 31).is_none());
    assert!(Date::new(2025, 13, 1).is_none());
    assert!(Date::new(2025, 0, 1).is_none());
    assert!(Date::new(0, 1, 1).is_none());
    assert!(Date::new(10000, 1, 1).is_none());
}

#[test]
fn test_weekday_numbers() {
    assert_eq!(weekday_number(d(2024, 01, 01)), 1); // Monday
    assert_eq!(weekday_number(d(2025, 01, 26)), 7); // Sunday
    assert_eq!(weekday_number(d(2025, 01, 25)), 6); // Saturday
    assert_eq!(weekday_number(d(2000, 02, 29)), 2); // Tuesday
}

#[test]
fn test_parse_date_fields() {
    assert_eq!(parse_date_field(&chars("2025/01/27")), Some(d(2025, 01, 27)));
    assert_eq!(parse_date_field(&chars("2024/2/29")), Some(d(2024, 02, 29)));
    assert_eq!(parse_date_field(&chars("2025/02/29")), None);
    assert_eq!(parse_date_field(&chars("2025-01-27")), None);
    assert_eq!(parse_date_field(&chars("x/1/2")), None);
    assert_eq!(parse_date_field(&chars("")), None);
    assert_eq!(parse_date_field(&chars("2025/01")), None);
}

#[test]
fn test_parse_levels() {
    assert_eq!(parse_level(&chars("3")), Some(3));
    assert_eq!(parse_level(&chars("0")), Some(0));
    assert_eq!(parse_level(&chars("-2")), Some(-2));
    assert_eq!(parse_level(&chars("2147483647")), Some(2147483647));
    assert_eq!(parse_level(&chars("2147483648")), None);
    assert_eq!(parse_level(&chars("99999999999")), None);
    assert_eq!(parse_level(&chars("")), None);
    assert_eq!(parse_level(&chars("abc")), None);
}

#[test]
fn test_labels() {
    assert_eq!(decimal_string(2025), "2025");
    assert_eq!(decimal_string(0), "0");
    assert_eq!(month_label_string(3), "3月");
    assert_eq!(month_label_string(12), "12月");
    assert_eq!(level_glyph_string(5), "↑");
    assert_eq!(level_glyph_string(0), "⇓");
    assert_eq!(weekday_label_string(1), "月");
    assert_eq!(weekday_label_string(6), "土");
    assert_eq!(weekday_label_string(7), "日");
}

#[test]
fn test_distinct_years_ascending() {
    let series = vec![
        rec(2023, 12, 31, None, None),
        rec(2024, 01, 01, Some(1), None),
        rec(2024, 06, 01, Some(2), None),
        rec(2025, 01, 01, Some(3), None),
    ];
    assert_eq!(distinct_years(&series), vec![2023, 2024, 2025]);
    assert!(distinct_years(&Vec::new()).is_empty());
}

#[test]
fn test_report_layout_details() {
    let series = vec![rec(2025, 01, 26, Some(2), Some("c"))];
    let doc = build_report(&series);

    assert_eq!(doc.sheets.len(), 3);

    // The raw-data sheet: header row then the record's cells.
    let data = &doc.sheets[0];
    assert_eq!(data.cells[0].row, 0);
    assert_eq!(data.cells[0].col, 0);
    match &data.cells[0].value {
        CellValue::Text(s) => assert_eq!(s, "日付"),
        _ => panic!("header cell is not text"),
    }
    match &data.cells[3].value {
        CellValue::Day(dd) => assert_eq!(*dd, d(2025, 01, 26)),
        _ => panic!("record cell is not a date"),
    }
    assert!(data.bars.is_empty());
    assert!(data.charts.is_empty());

    // The year sheet: two data bars over the aggregation table, and twelve
    // charts on the grid.
    let year = &doc.sheets[2];
    assert_eq!(year.name, "2025");
    assert_eq!(year.bars.len(), 2);
    assert_eq!(
        (year.bars[0].first_row, year.bars[0].first_col, year.bars[0].last_row, year.bars[0].last_col),
        (1, 8, 6, 8)
    );
    assert_eq!(year.bars[0].color, BarColor::Orange);
    assert_eq!(
        (year.bars[1].first_row, year.bars[1].first_col, year.bars[1].last_row, year.bars[1].last_col),
        (1, 9, 6, 20)
    );
    assert_eq!(year.bars[1].color, BarColor::Green);
    assert_eq!(year.charts.len(), 12);
    assert_eq!(year.charts[0].month, 1);
    assert_eq!(year.charts[0].anchor_row, 8);
    assert_eq!(year.charts[0].anchor_col, 5);

    // The comparison sheet: the year label on the block's first row, the
    // aggregation block below, and the block's two data bars.
    let comp = &doc.sheets[1];
    assert_eq!(comp.name, "年間体調比較");
    assert_eq!(comp.cells.len(), 106);
    assert_eq!(comp.cells[0].row, 0);
    assert_eq!(comp.cells[0].col, 0);
    match &comp.cells[0].value {
        CellValue::Text(s) => assert_eq!(s, "2025"),
        _ => panic!("year label is not text"),
    }
    assert_eq!(comp.bars.len(), 2);
    assert_eq!(
        (comp.bars[0].first_row, comp.bars[0].first_col, comp.bars[0].last_row, comp.bars[0].last_col),
        (2, 2, 7, 2)
    );
    assert_eq!(comp.bars[0].color, BarColor::Orange);
    assert_eq!(
        (comp.bars[1].first_row, comp.bars[1].first_col, comp.bars[1].last_row, comp.bars[1].last_col),
        (2, 3, 7, 14)
    );
    assert_eq!(comp.bars[1].color, BarColor::Green);
}

#[test]
fn test_comparison_blocks_stack() {
    let series = vec![rec(2024, 05, 01, Some(1), None), rec(2025, 05, 01, Some(2), None)];
    let doc = build_report(&series);

    assert_eq!(doc.sheets.len(), 4);
    let comp = &doc.sheets[1];
    assert_eq!(comp.cells.len(), 212);
    assert_eq!(comp.bars.len(), 4);

    // The second block's label sits eight rows below the first.
    let label2 = &comp.cells[106];
    assert_eq!(label2.row, 8);
    assert_eq!(label2.col, 0);
    match &label2.value {
        CellValue::Text(s) => assert_eq!(s, "2025"),
        _ => panic!("year label is not text"),
    }
    assert_eq!(comp.bars[2].first_row, 10);
    assert_eq!(comp.bars[2].last_row, 15);
}

#[test]
fn test_rows_last_wins() {
    let rows = vec![
        InputRow { date: Date::new(2025, 01, 26), level: Some(2), comment: None },
        InputRow { date: None, level: Some(4), comment: Some("dropped".to_string()) },
        InputRow { date: Date::new(2025, 01, 25), level: None, comment: None },
        InputRow { date: Date::new(2025, 01, 26), level: Some(9), comment: Some("kept".to_string()) },
    ];
    let series = series_from_rows(&rows);

    assert_eq!(series.len(), 2);
    assert_eq!(series[0].date, d(2025, 01, 25));
    assert_eq!(series[0].level, None);
    assert_eq!(series[1].date, d(2025, 01, 26));
    assert_eq!(series[1].level, Some(9));
    assert_eq!(series[1].comment.as_deref(), Some("kept"));
}
