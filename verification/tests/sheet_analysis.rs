use bank_data::analysis::{
    classify_file_name, is_skipped_sheet, read_cell_as_timestamp, AnalysisError, Cell,
    CellAsTimestamp, CellInspector, FileKind, SheetAnalyzer, SheetGrid,
};
use bank_data::common::{FrequencyClass, Year, YearlyTimestamp};
use bank_data::merge::MergeXL;

fn text(s: &str) -> Cell {
    Cell::Text(String::from(s))
}

fn number(n: i64) -> Cell {
    Cell::Number { rounded: n, text: n.to_string() }
}

fn analyzer_for(rows: Vec<Vec<Cell>>) -> SheetAnalyzer {
    SheetAnalyzer {
        source: String::from("test.xlsx"),
        name: String::from("Sheet1"),
        sheet: SheetGrid::from_rows(rows).expect("rectangular grid"),
    }
}

const CY: u16 = 2024;

#[test]
fn numeric_cells_outside_range_are_not_timestamps() {
    let inspector = CellInspector::no_op();
    // below 1971 and above the current year: never a timestamp
    for bad in [0i64, 1900, 1970, 2025, 67507, -5] {
        let r = read_cell_as_timestamp(&number(bad), &inspector, CY);
        assert!(matches!(r, Ok(CellAsTimestamp::NoTimestamp)), "value {}", bad);
    }
    // the bounds themselves are accepted
    for good in [1971i64, 2000, 2024] {
        let r = read_cell_as_timestamp(&number(good), &inspector, CY);
        match r {
            Ok(CellAsTimestamp::YearlyTimestamp(YearlyTimestamp::Calendar(Year(y)))) => {
                assert_eq!(good as u16, y);
            }
            other => panic!("value {} gave {:?}", good, debug_of(&other)),
        }
    }
}

fn debug_of(r: &Result<CellAsTimestamp, AnalysisError>) -> String {
    match r {
        Ok(CellAsTimestamp::NoTimestamp) => String::from("NoTimestamp"),
        Ok(CellAsTimestamp::MayNeedContext(s)) => format!("MayNeedContext({})", s),
        Ok(CellAsTimestamp::YearlyTimestamp(_)) => String::from("YearlyTimestamp"),
        Ok(CellAsTimestamp::TimestampIsProvisional) => String::from("Provisional"),
        Err(e) => e.message(),
    }
}

#[test]
fn provisional_cells_detected() {
    let inspector = CellInspector::no_op();
    for marked in ["2022P", "Decp", "2009-10P", "December(P)"] {
        let r = read_cell_as_timestamp(&text(marked), &inspector, CY);
        assert!(
            matches!(r, Ok(CellAsTimestamp::TimestampIsProvisional)),
            "cell {}",
            marked
        );
    }
    // a plain year is not provisional
    let r = read_cell_as_timestamp(&text("2022"), &inspector, CY);
    assert!(matches!(
        r,
        Ok(CellAsTimestamp::YearlyTimestamp(YearlyTimestamp::Calendar(Year(2022))))
    ));
}

#[test]
fn annotation_and_base_markers() {
    let inspector = CellInspector::no_op();
    // a trailing asterisk is dropped before parsing
    let r = read_cell_as_timestamp(&text("2009*"), &inspector, CY);
    assert!(matches!(
        r,
        Ok(CellAsTimestamp::YearlyTimestamp(YearlyTimestamp::Calendar(Year(2009))))
    ));
    // old-base data is explicitly discarded
    let r = read_cell_as_timestamp(&text("January(OB)"), &inspector, CY);
    assert!(matches!(r, Ok(CellAsTimestamp::NoTimestamp)));
    // new-base data keeps its value with the marker dropped
    let r = read_cell_as_timestamp(&text("2009(NB)"), &inspector, CY);
    assert!(matches!(
        r,
        Ok(CellAsTimestamp::YearlyTimestamp(YearlyTimestamp::Calendar(Year(2009))))
    ));
    let r = read_cell_as_timestamp(&text("January"), &inspector, CY);
    assert!(matches!(r, Ok(CellAsTimestamp::MayNeedContext(s)) if s == "January"));
}

#[test]
fn banned_content_rejects_sheet() {
    let inspector = CellInspector::sheet_support();
    let r = read_cell_as_timestamp(
        &text("BD(Govt) Treasury Bond auction results"),
        &inspector,
        CY,
    );
    match r {
        Err(AnalysisError::Unsupported { reason }) => {
            assert_eq!("Government securities/bonds sheet unsupported", reason);
        }
        other => panic!("unexpected: {}", debug_of(&other)),
    }
}

#[test]
fn provisional_before_any_timestamp_yields_no_data() {
    let analyzer = analyzer_for(vec![vec![text("2022P")]]);
    let mut store = MergeXL::default();
    let r = analyzer.merge_data_with_year(&mut store, CY);
    assert!(matches!(r, Err(AnalysisError::NoData)));
    assert!(store.sheets().is_empty());
}

#[test]
fn provisional_mid_table_ends_reading_without_error() {
    let analyzer = analyzer_for(vec![
        vec![text("Period"), text("Total")],
        vec![text("2009"), number(10)],
        vec![text("2009-10P"), number(11)],
        vec![text("2010"), number(12)],
    ]);
    let mut store = MergeXL::default();
    let r = analyzer.merge_data_with_year(&mut store, CY);
    assert!(r.is_ok());
    let sheets = store.sheets();
    assert_eq!(1, sheets.len());
    let records = sheets[0].1.export_records();
    // only the row before the provisional marker was read
    assert_eq!(2, records.len());
    assert_eq!(vec![String::from("2009"), String::from("10")], records[1]);
}

#[test]
fn empty_grid_has_no_data() {
    let analyzer = analyzer_for(vec![]);
    let mut store = MergeXL::default();
    let r = analyzer.merge_data_with_year(&mut store, CY);
    assert!(matches!(r, Err(AnalysisError::NoData)));
}

#[test]
fn sheet_without_timestamp_is_unsupported() {
    let analyzer = analyzer_for(vec![vec![text("hello"), text("world")]]);
    let mut store = MergeXL::default();
    let r = analyzer.merge_data_with_year(&mut store, CY);
    match r {
        Err(AnalysisError::Unsupported { reason }) => {
            assert_eq!("No timestamp found", reason);
        }
        _ => panic!("expected unsupported"),
    }
}

#[test]
fn missing_period_header_is_unsupported() {
    let analyzer = analyzer_for(vec![
        vec![text("something"), text("Total")],
        vec![text("2009"), number(10)],
    ]);
    let mut store = MergeXL::default();
    let r = analyzer.merge_data_with_year(&mut store, CY);
    match r {
        Err(AnalysisError::Unsupported { reason }) => {
            assert_eq!("Unable to find label start index", reason);
        }
        _ => panic!("expected unsupported"),
    }
}

#[test]
fn invalid_timestamp_mid_table_fails_sheet() {
    let analyzer = analyzer_for(vec![
        vec![text("Period"), text("Total")],
        vec![text("2009"), number(10)],
        vec![text("garbage"), number(11)],
    ]);
    let mut store = MergeXL::default();
    let r = analyzer.merge_data_with_year(&mut store, CY);
    match r {
        Err(AnalysisError::Unsupported { reason }) => {
            assert!(reason.contains("non-parsable"), "reason: {}", reason);
        }
        _ => panic!("expected unsupported"),
    }
    // the failure is atomic: nothing landed in the store
    assert!(store.sheets().is_empty());
}

#[test]
fn look_behind_inheritance_accepted_and_rejected() {
    // column B has "Group" on the top row and an empty cell below it: it
    // inherits "X" from column A, giving both the same path
    let analyzer = analyzer_for(vec![
        vec![text("Period"), text("Group"), text("Group")],
        vec![text(""), text("X"), Cell::Empty],
        vec![text("2009"), number(1), number(2)],
    ]);
    let mut store = MergeXL::default();
    analyzer.merge_data_with_year(&mut store, CY).unwrap();
    let sheets = store.sheets();
    assert_eq!(1, sheets.len());
    let records = sheets[0].1.export_records();
    assert_eq!(
        vec![String::from("timestamp-primary-key"), String::from("Group.X")],
        records[0]
    );
    // the second column's value won under the shared path
    assert_eq!(vec![String::from("2009"), String::from("2")], records[1]);

    // with a different top category, inheritance is rejected
    let analyzer = analyzer_for(vec![
        vec![text("Period"), text("Group"), text("OtherGroup")],
        vec![text(""), text("X"), Cell::Empty],
        vec![text("2009"), number(1), number(2)],
    ]);
    let mut store = MergeXL::default();
    analyzer.merge_data_with_year(&mut store, CY).unwrap();
    let sheets = store.sheets();
    let records = sheets[0].1.export_records();
    assert_eq!(
        vec![
            String::from("timestamp-primary-key"),
            String::from("Group.X"),
            String::from("OtherGroup"),
        ],
        records[0]
    );
}

#[test]
fn sparse_rows_are_dropped_and_full_rows_kept() {
    // eight expected columns: a row filling one of them (12.5%) is
    // dropped; a fully populated row is kept
    let header: Vec<Cell> = vec![
        text("Period"),
        text("c1"),
        text("c2"),
        text("c3"),
        text("c4"),
        text("c5"),
        text("c6"),
        text("c7"),
        text("c8"),
    ];
    let mut sparse: Vec<Cell> = vec![text("2009"), number(1)];
    for _ in 0..7 {
        sparse.push(Cell::Empty);
    }
    let mut full: Vec<Cell> = vec![text("2010")];
    for i in 0..8 {
        full.push(number(i));
    }
    let analyzer = analyzer_for(vec![header, sparse, full]);
    let mut store = MergeXL::default();
    analyzer.merge_data_with_year(&mut store, CY).unwrap();
    let sheets = store.sheets();
    assert_eq!(1, sheets.len());
    let records = sheets[0].1.export_records();
    assert_eq!(2, records.len(), "only the full row is kept");
    assert_eq!("2010", records[1][0]);
}

#[test]
fn end_to_end_two_frequency_classes() {
    let mut rows: Vec<Vec<Cell>> = vec![
        vec![text("Period"), text("Branches")],
        vec![Cell::Empty, text("Total")],
        vec![text("2009"), number(100)],
        vec![text("2010"), number(200)],
    ];
    let months = [
        "January", "February", "March", "April", "May", "June", "July", "August", "September",
        "October", "November", "December",
    ];
    for (i, m) in months.iter().enumerate() {
        rows.push(vec![text(m), number(300 + i as i64)]);
    }
    let analyzer = analyzer_for(rows);
    let mut store = MergeXL::default();
    analyzer.merge_data_with_year(&mut store, CY).unwrap();

    let sheets = store.sheets();
    assert_eq!(2, sheets.len(), "yearly and monthly buckets");
    assert_eq!(FrequencyClass::CalendarYearly, sheets[0].0);
    assert_eq!(FrequencyClass::MonthOfYear, sheets[1].0);

    let yearly = sheets[0].1.export_records();
    assert_eq!(
        vec![String::from("timestamp-primary-key"), String::from("Branches.Total")],
        yearly[0]
    );
    assert_eq!(3, yearly.len());
    assert_eq!(vec![String::from("2009"), String::from("100")], yearly[1]);
    assert_eq!(vec![String::from("2010"), String::from("200")], yearly[2]);

    let monthly = sheets[1].1.export_records();
    assert_eq!(13, monthly.len());
    assert_eq!(
        vec![String::from("timestamp-primary-key"), String::from("Branches.Total")],
        monthly[0]
    );
    for m in 1..=12 {
        assert_eq!(format!("2010-{:02}", m), monthly[m][0]);
        assert_eq!(format!("{}", 299 + m), monthly[m][1]);
    }
}

#[test]
fn file_and_sheet_name_filters() {
    assert_eq!(FileKind::Hidden, classify_file_name(".hidden.xlsx"));
    assert_eq!(FileKind::Workbook, classify_file_name("2013-7.xlsx"));
    assert_eq!(FileKind::LegacyWorkbook, classify_file_name("2013-7.xls"));
    assert_eq!(FileKind::UnknownExtension, classify_file_name("notes.txt"));
    assert!(is_skipped_sheet("Cover Page"));
    assert!(is_skipped_sheet("Contents"));
    assert!(is_skipped_sheet("Appendix 3"));
    assert!(!is_skipped_sheet("Sheet1"));
    assert!(!is_skipped_sheet("Monetary Survey"));
}
