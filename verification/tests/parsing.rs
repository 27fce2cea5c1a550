use bank_data::common::{HalfYear, Month, MonthlyReport, Quarter, Timestamp, Year, YearlyTimestamp};

#[test]
fn parse_year() {
    assert_eq!(Year(2009), Year::from_str("2009").unwrap());
    assert!(Year::from_str("20090").is_err());
    assert!(Year::from_str("02009").is_err());
    assert!(Year::from_str("hello").is_err())
}

#[test]
fn parse_fiscal_year() {
    fn is_fiscal_year(value: &str) -> bool {
        matches!(YearlyTimestamp::from_str(value), Ok(YearlyTimestamp::Fiscal(_)))
    }
    assert!(is_fiscal_year("2022-23"));
    assert!(is_fiscal_year("2009-10"));
    assert!(is_fiscal_year("2010-11"));
    assert!(is_fiscal_year("2017-18"));
    assert!(!is_fiscal_year("July"));
    assert!(!is_fiscal_year("hello"));
}

#[test]
fn parse_calendar_year() {
    fn is_calendar_year(value: &str) -> bool {
        matches!(YearlyTimestamp::from_str(value), Ok(YearlyTimestamp::Calendar(_)))
    }
    assert!(is_calendar_year("2022"));
    assert!(is_calendar_year("2009"));
    assert!(is_calendar_year("2010"));
    assert!(is_calendar_year("2017"));
    assert!(!is_calendar_year("July"));
    assert!(!is_calendar_year("hello"));
}

#[test]
fn parse_quarter() {
    fn assert_parse_quarter(expected: Quarter, from_what: &str) {
        let year = Year(2009);
        assert_eq!(Ok(expected), Quarter::from_str(from_what));
        assert_eq!(
            Ok(Timestamp::Quarterly(year, expected)),
            Timestamp::try_from(year, from_what)
        );
    }
    assert_parse_quarter(Quarter::JanFebMar, "Jan-Mar");
    assert_parse_quarter(Quarter::JanFebMar, "Jan- Mar");
    assert_parse_quarter(Quarter::JanFebMar, "Jan -Mar");
    assert_parse_quarter(Quarter::JanFebMar, "Jan  - Mar");
    assert_parse_quarter(Quarter::OctNovDec, "Oct.-Dec");
    assert_parse_quarter(Quarter::OctNovDec, "Oct-Dec.");
    assert_parse_quarter(Quarter::JulAugSep, "Jul-Sep");
    assert_parse_quarter(Quarter::JulAugSep, "Jul- Sep");
    assert_parse_quarter(Quarter::JulAugSep, "July- Sep");
}

#[test]
fn fiscal_year_checksum_rejected() {
    // "YYYY-YY" parses only when YY is (YYYY + 1) mod 100
    assert!(matches!(
        YearlyTimestamp::from_str("2009-10"),
        Ok(YearlyTimestamp::Fiscal(Year(2009)))
    ));
    assert!(YearlyTimestamp::from_str("2009-15").is_err());
    assert!(YearlyTimestamp::from_str("2009-09").is_err());
    // interior whitespace around the hyphen is tolerated
    assert!(matches!(
        YearlyTimestamp::from_str("2009 - 10"),
        Ok(YearlyTimestamp::Fiscal(Year(2009)))
    ));
    // padded renderings of years around a century boundary parse back
    assert!(matches!(
        YearlyTimestamp::from_str("1999-00"),
        Ok(YearlyTimestamp::Fiscal(Year(1999)))
    ));
    assert!(matches!(
        YearlyTimestamp::from_str("2000-01"),
        Ok(YearlyTimestamp::Fiscal(Year(2000)))
    ));
}

#[test]
fn displayed_round_trip() {
    let samples = vec![
        Timestamp::CalendarYear(Year(2009)),
        Timestamp::FiscalYear(Year(2013)),
        Timestamp::FiscalYear(Year(1999)),
        Timestamp::FiscalYear(Year(2000)),
        Timestamp::FiscalYear(Year(2008)),
        Timestamp::BiAnnually(Year(2009), HalfYear::JanThruJun),
        Timestamp::BiAnnually(Year(2009), HalfYear::JulThruDec),
        Timestamp::Quarterly(Year(2014), Quarter::JanFebMar),
        Timestamp::Quarterly(Year(2014), Quarter::AprMayJun),
        Timestamp::Quarterly(Year(2014), Quarter::JulAugSep),
        Timestamp::Quarterly(Year(2014), Quarter::OctNovDec),
        Timestamp::Monthly(MonthlyReport::new(Year(2010), Month::January)),
        Timestamp::Monthly(MonthlyReport::new(Year(2010), Month::December)),
    ];
    for t in samples {
        let text = t.format();
        assert_eq!(Ok(t), Timestamp::from_displayed_value(&text), "failed on {}", text);
    }
}

#[test]
fn parse_month_names() {
    assert_eq!(Ok(Month::July), Month::from_str("July"));
    assert_eq!(Ok(Month::July), Month::from_str("Jul"));
    assert_eq!(Ok(Month::July), Month::from_str("july"));
    assert_eq!(Ok(Month::September), Month::from_str("Sep"));
    assert_eq!(Ok(Month::December), Month::from_str("Dec."));
    assert_eq!(Ok(Month::February), Month::from_str("Fabruary"));
    assert!(Month::from_str("Sept").is_err());
    assert!(Month::from_str("Jan-Mar").is_err());
    assert!(Month::from_str("hello").is_err());
}

#[test]
fn parse_half_year_tokens() {
    assert_eq!(Ok(HalfYear::JanThruJun), HalfYear::from_str("Jan-Jun"));
    assert_eq!(Ok(HalfYear::JulThruDec), HalfYear::from_str("Jul-Dec"));
    assert_eq!(
        Ok(Timestamp::BiAnnually(Year(2009), HalfYear::JanThruJun)),
        Timestamp::try_from(Year(2009), "Jan-Jun")
    );
    assert!(HalfYear::from_str("Jan-Mar").is_err());
}

#[test]
fn parse_monthly_report_text() {
    assert_eq!(
        Ok(MonthlyReport::new(Year(2009), Month::January)),
        MonthlyReport::from_str("2009-01")
    );
    assert_eq!(
        Ok(MonthlyReport::new(Year(2009), Month::January)),
        MonthlyReport::from_str("2009-1")
    );
    assert!(MonthlyReport::from_str("2009-13").is_err());
    assert!(MonthlyReport::from_str("2009-00").is_err());
    assert!(MonthlyReport::from_str("0000-01").is_err());
}
