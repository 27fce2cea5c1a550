use bank_data::common::{FrequencyClass, Month, MonthlyReport, Timestamp, Year};
use bank_data::merge::{Column, ColumnLabel, MergeXL, RowData};

fn column(name: &str) -> Column {
    Column::new(vec![ColumnLabel::create(name).expect("label")]).expect("non-empty path")
}

#[test]
fn combine_keeps_both_and_prefers_new() {
    let col_a = column("colA");
    let col_b = column("colB");

    // disjoint columns are both kept
    let mut row1 = RowData::default();
    row1.populate(&col_a, String::from("1"));
    let mut row2 = RowData::default();
    row2.populate(&col_b, String::from("2"));
    let merged = row1.combine(row2);
    assert_eq!(Some(&String::from("1")), merged.get(&col_a));
    assert_eq!(Some(&String::from("2")), merged.get(&col_b));
    assert_eq!(2, merged.len());

    // a shared column takes the newly arriving value
    let mut row1 = RowData::default();
    row1.populate(&col_a, String::from("1"));
    let mut row2 = RowData::default();
    row2.populate(&col_a, String::from("9"));
    let merged = row1.combine(row2);
    assert_eq!(Some(&String::from("9")), merged.get(&col_a));
    assert_eq!(1, merged.len());
}

#[test]
fn add_row_merges_under_shared_timestamp() {
    let col_a = column("colA");
    let col_b = column("colB");
    let ts = Timestamp::CalendarYear(Year(2009));

    let mut store = MergeXL::default();
    let mut row1 = RowData::default();
    row1.populate(&col_a, String::from("1"));
    store.add_row(ts, row1);
    let mut row2 = RowData::default();
    row2.populate(&col_b, String::from("2"));
    store.add_row(ts, row2);

    let sheets = store.sheets();
    assert_eq!(1, sheets.len());
    let records = sheets[0].1.export_records();
    assert_eq!(
        vec![
            String::from("timestamp-primary-key"),
            String::from("colA"),
            String::from("colB"),
        ],
        records[0]
    );
    assert_eq!(
        vec![String::from("2009"), String::from("1"), String::from("2")],
        records[1]
    );
}

#[test]
fn buckets_created_once_per_frequency_class() {
    let mut store = MergeXL::default();
    let yearly1 = Timestamp::CalendarYear(Year(2009));
    let yearly2 = Timestamp::CalendarYear(Year(2010));
    let monthly = Timestamp::Monthly(MonthlyReport::new(Year(2010), Month::May));

    let i = store.get_or_create_sheet(&yearly1);
    let j = store.get_or_create_sheet(&yearly2);
    let k = store.get_or_create_sheet(&monthly);
    assert_eq!(i, j, "one bucket for all calendar years");
    assert_ne!(i, k);
    assert_eq!(2, store.sheets().len());
    assert_eq!(FrequencyClass::CalendarYearly, store.sheets()[i].0);
    assert_eq!(FrequencyClass::MonthOfYear, store.sheets()[k].0);
}

#[test]
fn missing_values_export_as_na() {
    let col_a = column("colA");
    let col_b = column("colB");
    let mut store = MergeXL::default();

    let mut row1 = RowData::default();
    row1.populate(&col_a, String::from("1"));
    store.add_row(Timestamp::CalendarYear(Year(2009)), row1);
    let mut row2 = RowData::default();
    row2.populate(&col_b, String::from("2"));
    store.add_row(Timestamp::CalendarYear(Year(2010)), row2);

    let records = store.sheets()[0].1.export_records();
    assert_eq!(3, records.len());
    assert_eq!(
        vec![String::from("2009"), String::from("1"), String::from("NA")],
        records[1]
    );
    assert_eq!(
        vec![String::from("2010"), String::from("NA"), String::from("2")],
        records[2]
    );
}

#[test]
fn numeric_labels_are_rejected() {
    assert!(ColumnLabel::create("12").is_none());
    assert!(ColumnLabel::create("+12").is_none());
    assert!(ColumnLabel::create(" 007 ").is_none());
    // beyond the small-number range, or not a number at all: kept
    assert!(ColumnLabel::create("256").is_some());
    assert!(ColumnLabel::create("Total").is_some());
    let trimmed = ColumnLabel::create("  Branches  ").unwrap();
    assert_eq!("Branches", trimmed.as_str());
}

#[test]
fn empty_column_path_is_rejected() {
    assert!(Column::new(vec![]).is_err());
    let col = column("Branches");
    assert_eq!("Branches", col.display_full_labeling());
    let two = Column::new(vec![
        ColumnLabel::create("Branches").unwrap(),
        ColumnLabel::create("Total").unwrap(),
    ])
    .unwrap();
    assert_eq!("Branches.Total", two.display_full_labeling());
}
