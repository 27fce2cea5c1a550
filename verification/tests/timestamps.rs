use std::cmp::Ordering;
use std::collections::HashSet;
use bank_data::common::{HalfYear, Month, MonthBounds, MonthlyReport, Quarter, Timestamp, Year};

#[test]
fn size_of_timestamp() {
    assert!(std::mem::size_of::<Timestamp>() <= std::mem::size_of::<u64>())
}

#[test]
fn order_halfyear() {
    assert!(HalfYear::JanThruJun < HalfYear::JulThruDec);
    assert!(HalfYear::JulThruDec > HalfYear::JanThruJun);
    assert_eq!(Ordering::Equal, HalfYear::JanThruJun.cmp(&HalfYear::JanThruJun));
}

#[test]
fn order_quarter() {
    let mut quarters = vec![
        Quarter::AprMayJun,
        Quarter::OctNovDec,
        Quarter::JanFebMar,
        Quarter::JulAugSep,
    ];
    quarters.sort();
    assert_eq!(
        vec![Quarter::JanFebMar, Quarter::AprMayJun, Quarter::JulAugSep, Quarter::OctNovDec],
        quarters
    )
}

#[test]
fn trim_using_september() {
    let month = Month::September;
    assert_eq!("", month.trim_start_matches_from("Sep"));
    assert_eq!("--1", month.trim_start_matches_from("Sep--1"));
    assert_eq!("", month.trim_end_matches_from("Sep"));
    assert_eq!("1--", month.trim_end_matches_from("1--Sep"));
    assert_eq!("", month.trim_start_matches_from("Sept"));
    assert_eq!("--1", month.trim_start_matches_from("Sept--1"));
    assert_eq!("", month.trim_end_matches_from("Sept"));
    assert_eq!("1--", month.trim_end_matches_from("1--Sept"));

    assert_eq!("Dec", month.trim_end_matches_from("Dec"), "Irrelevant");
    assert_eq!("Dec", month.trim_start_matches_from("Dec"), "Irrelevant");
}

#[test]
fn trim_using_january() {
    let month = Month::January;
    assert_eq!("-Mar", month.trim_start_matches_from("Jan-Mar"));
}

#[test]
fn display_report() {
    let year_2009 = Year(2009);
    assert_eq!("2009-01", MonthlyReport::new(year_2009, Month::January).format());
    assert_eq!("2009-11", MonthlyReport::new(year_2009, Month::November).format());
}

#[test]
fn quarter_bounds() {
    for quarter in Quarter::values() {
        let (start, end) = quarter.start_and_end_month();
        assert_eq!(2, end.as_numeric() - start.as_numeric());
    }
}

#[test]
fn halfyear_bounds() {
    for halfyear in HalfYear::values() {
        let (start, end) = halfyear.start_and_end_month();
        assert_eq!(5, end.as_numeric() - start.as_numeric());
    }
}

#[test]
fn all_months_present() {
    let mut months_map = HashSet::new();
    months_map.extend(Month::values());
    assert_eq!(12, months_map.len());
}

#[test]
fn format_each_frequency() {
    assert_eq!("2009", Timestamp::CalendarYear(Year(2009)).format());
    assert_eq!("2009-10", Timestamp::FiscalYear(Year(2009)).format());
    // the two digits after the hyphen are (year + 1) mod 100, zero-padded
    assert_eq!("2000-01", Timestamp::FiscalYear(Year(2000)).format());
    assert_eq!("1999-00", Timestamp::FiscalYear(Year(1999)).format());
    assert_eq!("2009 Jan-Jun", Timestamp::BiAnnually(Year(2009), HalfYear::JanThruJun).format());
    assert_eq!("2014 Jul-Sep", Timestamp::Quarterly(Year(2014), Quarter::JulAugSep).format());
    assert_eq!(
        "2010-07",
        Timestamp::Monthly(MonthlyReport::new(Year(2010), Month::July)).format()
    );
}

#[test]
fn month_names_and_numbers() {
    assert_eq!("January", Month::January.name());
    assert_eq!(1, Month::January.as_numeric());
    assert_eq!(12, Month::December.as_numeric());
    assert_eq!(12, Month::values().len());
}

#[test]
fn total_order_groups_longer_periods_first() {
    let mut mixed = vec![
        Timestamp::Monthly(MonthlyReport::new(Year(2009), Month::January)),
        Timestamp::Quarterly(Year(2008), Quarter::OctNovDec),
        Timestamp::CalendarYear(Year(2020)),
        Timestamp::BiAnnually(Year(2007), HalfYear::JulThruDec),
        Timestamp::CalendarYear(Year(2009)),
        Timestamp::Monthly(MonthlyReport::new(Year(2009), Month::March)),
    ];
    mixed.sort_by_key(|t| t.key());
    assert_eq!(
        vec![
            Timestamp::CalendarYear(Year(2009)),
            Timestamp::CalendarYear(Year(2020)),
            Timestamp::BiAnnually(Year(2007), HalfYear::JulThruDec),
            Timestamp::Quarterly(Year(2008), Quarter::OctNovDec),
            Timestamp::Monthly(MonthlyReport::new(Year(2009), Month::January)),
            Timestamp::Monthly(MonthlyReport::new(Year(2009), Month::March)),
        ],
        mixed
    );
}
