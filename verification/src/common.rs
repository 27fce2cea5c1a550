//! The timestamp data model: years, months, quarters, half-years, and the
//! `Timestamp` union over them, together with their text renderings and the
//! total order used when mixed-frequency collections are sorted.
use vstd::prelude::*;
use crate::chars::{dec_rep, two_digit_rep, dec_string, two_digit_string};

verus! {

/// A calendar year. Every timestamp carries a positive year; years read from
/// numeric cells are additionally bounded by the current calendar year.
#[derive(Clone, Copy, Debug, Eq, Hash, PartialEq, Structural, PartialOrd, Ord)]
pub struct Year(pub u16);

impl Year {
    /// Validity: the year is positive.
    pub open spec fn wf(self) -> bool {
        0 < self.0
    }

    /// The year of either kind of yearly timestamp.
    pub fn from_yearly(value: YearlyTimestamp) -> (r: Year)
        ensures
            r == value.year_of(),
    {
        match value {
            YearlyTimestamp::Calendar(y) => y,
            YearlyTimestamp::Fiscal(y) => y,
        }
    }

    /// Decimal rendering without padding, e.g. "2009".
    pub fn format(&self) -> (r: String)
        ensures
            r@ == year_text(*self),
    {
        dec_string(self.0 as u64)
    }
}

/// Decimal text of a year, no padding.
pub open spec fn year_text(y: Year) -> Seq<char> {
    dec_rep(y.0 as int)
}

/// A month of the year.
#[derive(Clone, Copy, Debug, Eq, Hash, PartialEq, Structural, PartialOrd, Ord)]
pub enum Month {
    January,
    February,
    March,
    April,
    May,
    June,
    July,
    August,
    September,
    October,
    November,
    December,
}

/// Full English month name.
pub open spec fn month_name(m: Month) -> Seq<char> {
    match m {
        Month::January => "January"@,
        Month::February => "February"@,
        Month::March => "March"@,
        Month::April => "April"@,
        Month::May => "May"@,
        Month::June => "June"@,
        Month::July => "July"@,
        Month::August => "August"@,
        Month::September => "September"@,
        Month::October => "October"@,
        Month::November => "November"@,
        Month::December => "December"@,
    }
}

/// Month number, January = 1 through December = 12.
pub open spec fn month_num(m: Month) -> int {
    match m {
        Month::January => 1,
        Month::February => 2,
        Month::March => 3,
        Month::April => 4,
        Month::May => 5,
        Month::June => 6,
        Month::July => 7,
        Month::August => 8,
        Month::September => 9,
        Month::October => 10,
        Month::November => 11,
        Month::December => 12,
    }
}

/// The month whose number is `n`, for `n` in 1..=12.
pub open spec fn month_from_num(n: int) -> Month {
    if n == 1 {
        Month::January
    } else if n == 2 {
        Month::February
    } else if n == 3 {
        Month::March
    } else if n == 4 {
        Month::April
    } else if n == 5 {
        Month::May
    } else if n == 6 {
        Month::June
    } else if n == 7 {
        Month::July
    } else if n == 8 {
        Month::August
    } else if n == 9 {
        Month::September
    } else if n == 10 {
        Month::October
    } else if n == 11 {
        Month::November
    } else {
        Month::December
    }
}

pub proof fn lemma_month_num_round_trip(m: Month)
    ensures
        month_from_num(month_num(m)) == m,
{
}

impl Month {
    pub fn name(&self) -> (r: &'static str)
        ensures
            r@ == month_name(*self),
    {
        match *self {
            Month::January => "January",
            Month::February => "February",
            Month::March => "March",
            Month::April => "April",
            Month::May => "May",
            Month::June => "June",
            Month::July => "July",
            Month::August => "August",
            Month::September => "September",
            Month::October => "October",
            Month::November => "November",
            Month::December => "December",
        }
    }

    pub fn as_numeric(&self) -> (r: u8)
        ensures
            r as int == month_num(*self),
    {
        match *self {
            Month::January => 1,
            Month::February => 2,
            Month::March => 3,
            Month::April => 4,
            Month::May => 5,
            Month::June => 6,
            Month::July => 7,
            Month::August => 8,
            Month::September => 9,
            Month::October => 10,
            Month::November => 11,
            Month::December => 12,
        }
    }

    /// All twelve months, in calendar order.
    pub fn values() -> (r: Vec<Month>)
        ensures
            r@ =~= seq![
                Month::January, Month::February, Month::March, Month::April, Month::May,
                Month::June, Month::July, Month::August, Month::September, Month::October,
                Month::November, Month::December,
            ],
    {
        let mut v: Vec<Month> = Vec::new();
        v.push(Month::January);
        v.push(Month::February);
        v.push(Month::March);
        v.push(Month::April);
        v.push(Month::May);
        v.push(Month::June);
        v.push(Month::July);
        v.push(Month::August);
        v.push(Month::September);
        v.push(Month::October);
        v.push(Month::November);
        v.push(Month::December);
        v
    }
}

/// A yearly period as read from a single cell: either a calendar year
/// ("2009") or a fiscal year ("2009-10").
#[derive(Clone, Copy, Debug, Eq, Hash, PartialEq, Structural, PartialOrd)]
pub enum YearlyTimestamp {
    Calendar(Year),
    Fiscal(Year),
}

impl YearlyTimestamp {
    pub open spec fn year_of(self) -> Year {
        match self {
            YearlyTimestamp::Calendar(y) => y,
            YearlyTimestamp::Fiscal(y) => y,
        }
    }

    pub open spec fn timestamp_of(self) -> Timestamp {
        match self {
            YearlyTimestamp::Calendar(y) => Timestamp::CalendarYear(y),
            YearlyTimestamp::Fiscal(y) => Timestamp::FiscalYear(y),
        }
    }
}

/// First or second half of a year.
#[derive(Clone, Copy, Debug, Eq, Hash, Ord, PartialEq, PartialOrd, Structural)]
pub enum HalfYear {
    JanThruJun,
    JulThruDec,
}

/// A quarter of a year.
#[derive(Clone, Copy, Debug, Eq, Hash, Ord, PartialEq, PartialOrd, Structural)]
pub enum Quarter {
    JanFebMar,
    AprMayJun,
    JulAugSep,
    OctNovDec,
}

/// One month of one year.
#[derive(Clone, Copy, Debug, Eq, Hash, PartialEq, Structural, PartialOrd, Ord)]
pub struct MonthlyReport {
    pub year: Year,
    pub month: Month,
}

impl MonthlyReport {
    pub fn new(year: Year, month: Month) -> (r: Self)
        ensures
            r == (MonthlyReport { year, month }),
    {
        Self { year, month }
    }

    /// Rendering such as "2009-01".
    pub fn format(&self) -> (r: String)
        ensures
            r@ == report_text(*self),
    {
        let mut s = dec_string(self.year.0 as u64);
        s.append("-");
        let mm = two_digit_string(self.month.as_numeric() as u64);
        s.append(mm.as_str());
        proof {
            reveal_strlit("-");
            assert(s@ =~= report_text(*self));
        }
        s
    }
}

/// Text of a monthly report: year, '-', two-digit month.
pub open spec fn report_text(r: MonthlyReport) -> Seq<char> {
    year_text(r.year) + seq!['-'] + two_digit_rep(month_num(r.month))
}

/// One observation period of any supported frequency.
#[derive(Clone, Copy, Debug, Eq, Hash, PartialEq, Structural, PartialOrd)]
pub enum Timestamp {
    CalendarYear(Year),
    FiscalYear(Year),
    BiAnnually(Year, HalfYear),
    Quarterly(Year, Quarter),
    Monthly(MonthlyReport),
}

/// The coarse period-type tag of a timestamp, used as the aggregation key:
/// all observations with the same tag land in the same bucket, whatever
/// their year or sub-period.
#[derive(Clone, Copy, Debug, Eq, Hash, PartialEq, Structural)]
pub enum FrequencyClass {
    CalendarYearly,
    FiscalYearly,
    BiAnnual,
    QuarterOfYear,
    MonthOfYear,
}

pub open spec fn class_of(t: Timestamp) -> FrequencyClass {
    match t {
        Timestamp::CalendarYear(_) => FrequencyClass::CalendarYearly,
        Timestamp::FiscalYear(_) => FrequencyClass::FiscalYearly,
        Timestamp::BiAnnually(..) => FrequencyClass::BiAnnual,
        Timestamp::Quarterly(..) => FrequencyClass::QuarterOfYear,
        Timestamp::Monthly(_) => FrequencyClass::MonthOfYear,
    }
}

impl FrequencyClass {
    /// Stable text tag, used to derive one output file name per class.
    pub fn tag(&self) -> (r: &'static str)
        ensures
            r@ == class_tag(*self),
    {
        match *self {
            FrequencyClass::CalendarYearly => "CalendarYear",
            FrequencyClass::FiscalYearly => "FiscalYear",
            FrequencyClass::BiAnnual => "BiAnnually",
            FrequencyClass::QuarterOfYear => "Quarterly",
            FrequencyClass::MonthOfYear => "Monthly",
        }
    }
}

pub open spec fn class_tag(c: FrequencyClass) -> Seq<char> {
    match c {
        FrequencyClass::CalendarYearly => "CalendarYear"@,
        FrequencyClass::FiscalYearly => "FiscalYear"@,
        FrequencyClass::BiAnnual => "BiAnnually"@,
        FrequencyClass::QuarterOfYear => "Quarterly"@,
        FrequencyClass::MonthOfYear => "Monthly"@,
    }
}

/// How long a period a timestamp covers, in months.
pub open spec fn period_months(t: Timestamp) -> int {
    match t {
        Timestamp::CalendarYear(_) => 12,
        Timestamp::FiscalYear(_) => 12,
        Timestamp::BiAnnually(..) => 6,
        Timestamp::Quarterly(..) => 3,
        Timestamp::Monthly(_) => 1,
    }
}

/// Rank of the frequency class in the total order: longer periods first.
pub open spec fn class_rank(t: Timestamp) -> int {
    match t {
        Timestamp::CalendarYear(_) => 0,
        Timestamp::FiscalYear(_) => 1,
        Timestamp::BiAnnually(..) => 2,
        Timestamp::Quarterly(..) => 3,
        Timestamp::Monthly(_) => 4,
    }
}

pub open spec fn year_of_timestamp(t: Timestamp) -> int {
    match t {
        Timestamp::CalendarYear(y) => y.0 as int,
        Timestamp::FiscalYear(y) => y.0 as int,
        Timestamp::BiAnnually(y, _) => y.0 as int,
        Timestamp::Quarterly(y, _) => y.0 as int,
        Timestamp::Monthly(r) => r.year.0 as int,
    }
}

pub open spec fn sub_index(t: Timestamp) -> int {
    match t {
        Timestamp::CalendarYear(_) => 0,
        Timestamp::FiscalYear(_) => 0,
        Timestamp::BiAnnually(_, h) => match h {
            HalfYear::JanThruJun => 0,
            HalfYear::JulThruDec => 1,
        },
        Timestamp::Quarterly(_, q) => match q {
            Quarter::JanFebMar => 0,
            Quarter::AprMayJun => 1,
            Quarter::JulAugSep => 2,
            Quarter::OctNovDec => 3,
        },
        Timestamp::Monthly(r) => month_num(r.month) - 1,
    }
}

/// One integer key realising the total order: period length descending
/// (via the class rank), then year ascending, then sub-period ascending.
pub open spec fn sort_key(t: Timestamp) -> int {
    class_rank(t) * 0x100000000 + year_of_timestamp(t) * 0x10000 + sub_index(t)
}

/// Law (total order): sorting by `sort_key` puts longer periods first,
/// then years ascending, then sub-periods ascending within one
/// frequency class.
pub proof fn lemma_sort_key_order(a: Timestamp, b: Timestamp)
    ensures
        period_months(a) > period_months(b) ==> sort_key(a) < sort_key(b),
        class_of(a) == class_of(b) ==> (sort_key(a) < sort_key(b) <==> (year_of_timestamp(a)
            < year_of_timestamp(b) || (year_of_timestamp(a) == year_of_timestamp(b) && sub_index(a)
            < sub_index(b)))),
{
    assert(0 <= year_of_timestamp(a) < 0x10000);
    assert(0 <= year_of_timestamp(b) < 0x10000);
    assert(0 <= sub_index(a) < 0x10000);
    assert(0 <= sub_index(b) < 0x10000);
}

impl Timestamp {
    pub open spec fn wf(self) -> bool {
        match self {
            Timestamp::CalendarYear(y) => y.wf(),
            Timestamp::FiscalYear(y) => y.wf(),
            Timestamp::BiAnnually(y, _) => y.wf(),
            Timestamp::Quarterly(y, _) => y.wf(),
            Timestamp::Monthly(r) => r.year.wf(),
        }
    }

    /// The yearly timestamp as a general timestamp.
    pub fn from_yearly(value: YearlyTimestamp) -> (r: Timestamp)
        ensures
            r == value.timestamp_of(),
    {
        match value {
            YearlyTimestamp::Calendar(y) => Timestamp::CalendarYear(y),
            YearlyTimestamp::Fiscal(y) => Timestamp::FiscalYear(y),
        }
    }

    pub fn frequency_class(&self) -> (r: FrequencyClass)
        ensures
            r == class_of(*self),
    {
        match *self {
            Timestamp::CalendarYear(_) => FrequencyClass::CalendarYearly,
            Timestamp::FiscalYear(_) => FrequencyClass::FiscalYearly,
            Timestamp::BiAnnually(..) => FrequencyClass::BiAnnual,
            Timestamp::Quarterly(..) => FrequencyClass::QuarterOfYear,
            Timestamp::Monthly(_) => FrequencyClass::MonthOfYear,
        }
    }

    /// The sort key as an executable value.
    pub fn key(&self) -> (r: u64)
        ensures
            r as int == sort_key(*self),
    {
        let rank: u64 = match *self {
            Timestamp::CalendarYear(_) => 0,
            Timestamp::FiscalYear(_) => 1,
            Timestamp::BiAnnually(..) => 2,
            Timestamp::Quarterly(..) => 3,
            Timestamp::Monthly(_) => 4,
        };
        let year: u64 = match *self {
            Timestamp::CalendarYear(y) => y.0 as u64,
            Timestamp::FiscalYear(y) => y.0 as u64,
            Timestamp::BiAnnually(y, _) => y.0 as u64,
            Timestamp::Quarterly(y, _) => y.0 as u64,
            Timestamp::Monthly(r) => r.year.0 as u64,
        };
        let sub: u64 = match *self {
            Timestamp::CalendarYear(_) => 0,
            Timestamp::FiscalYear(_) => 0,
            Timestamp::BiAnnually(_, h) => match h {
                HalfYear::JanThruJun => 0,
                HalfYear::JulThruDec => 1,
            },
            Timestamp::Quarterly(_, q) => match q {
                Quarter::JanFebMar => 0,
                Quarter::AprMayJun => 1,
                Quarter::JulAugSep => 2,
                Quarter::OctNovDec => 3,
            },
            Timestamp::Monthly(r) => (r.month.as_numeric() - 1) as u64,
        };
        rank * 0x100000000 + year * 0x10000 + sub
    }

    /// Renders the timestamp in its canonical text form: "2009" for a
    /// calendar year, "2009-10" for a fiscal year (the two digits are
    /// (year + 1) mod 100, zero-padded), "2009 Jan-Jun" for a half year,
    /// "2014 Jul-Sep" for a quarter, "2009-01" for a month.
    pub fn format(&self) -> (r: String)
        ensures
            r@ == timestamp_text(*self),
    {
        match *self {
            Timestamp::CalendarYear(y) => y.format(),
            Timestamp::FiscalYear(y) => {
                let mut s = y.format();
                s.append("-");
                let next = two_digit_string((y.0 as u64 + 1) % 100);
                s.append(next.as_str());
                proof {
                    reveal_strlit("-");
                    assert(s@ =~= timestamp_text(*self));
                }
                s
            },
            Timestamp::BiAnnually(y, h) => {
                let mut s = y.format();
                s.append(" ");
                s.append(h.as_str());
                proof {
                    reveal_strlit(" ");
                    assert(s@ =~= timestamp_text(*self));
                }
                s
            },
            Timestamp::Quarterly(y, q) => {
                let mut s = y.format();
                s.append(" ");
                s.append(q.as_str());
                proof {
                    reveal_strlit(" ");
                    assert(s@ =~= timestamp_text(*self));
                }
                s
            },
            Timestamp::Monthly(report) => report.format(),
        }
    }
}

/// Canonical text of a timestamp; the inverse of parsing, up to the
/// ambiguities named by `round_trippable`.
pub open spec fn timestamp_text(t: Timestamp) -> Seq<char> {
    match t {
        Timestamp::CalendarYear(y) => year_text(y),
        Timestamp::FiscalYear(y) => year_text(y) + seq!['-'] + two_digit_rep((y.0 as int + 1) % 100),
        Timestamp::BiAnnually(y, h) => year_text(y) + seq![' '] + half_text(h),
        Timestamp::Quarterly(y, q) => year_text(y) + seq![' '] + quarter_text(q),
        Timestamp::Monthly(r) => report_text(r),
    }
}

pub open spec fn quarter_text(q: Quarter) -> Seq<char> {
    match q {
        Quarter::JanFebMar => "Jan-Mar"@,
        Quarter::AprMayJun => "Apr-Jun"@,
        Quarter::JulAugSep => "Jul-Sep"@,
        Quarter::OctNovDec => "Oct-Dec"@,
    }
}

pub open spec fn half_text(h: HalfYear) -> Seq<char> {
    match h {
        HalfYear::JanThruJun => "Jan-Jun"@,
        HalfYear::JulThruDec => "Jul-Dec"@,
    }
}

/// Anything spanning a run of whole months names its first and last month.
pub trait MonthBounds {
    spec fn bounds_spec(&self) -> (Month, Month);

    fn start_and_end_month(&self) -> (r: (Month, Month))
        ensures
            r == self.bounds_spec(),
    ;
}

impl Quarter {
    pub fn as_str(&self) -> (r: &'static str)
        ensures
            r@ == quarter_text(*self),
    {
        match *self {
            Quarter::JanFebMar => "Jan-Mar",
            Quarter::AprMayJun => "Apr-Jun",
            Quarter::JulAugSep => "Jul-Sep",
            Quarter::OctNovDec => "Oct-Dec",
        }
    }

    /// All four quarters, in calendar order.
    pub fn values() -> (r: Vec<Quarter>)
        ensures
            r@ =~= seq![Quarter::JanFebMar, Quarter::AprMayJun, Quarter::JulAugSep, Quarter::OctNovDec],
    {
        let mut v: Vec<Quarter> = Vec::new();
        v.push(Quarter::JanFebMar);
        v.push(Quarter::AprMayJun);
        v.push(Quarter::JulAugSep);
        v.push(Quarter::OctNovDec);
        v
    }
}

impl MonthBounds for Quarter {
    open spec fn bounds_spec(&self) -> (Month, Month) {
        match *self {
            Quarter::JanFebMar => (Month::January, Month::March),
            Quarter::AprMayJun => (Month::April, Month::June),
            Quarter::JulAugSep => (Month::July, Month::September),
            Quarter::OctNovDec => (Month::October, Month::December),
        }
    }

    fn start_and_end_month(&self) -> (r: (Month, Month)) {
        match *self {
            Quarter::JanFebMar => (Month::January, Month::March),
            Quarter::AprMayJun => (Month::April, Month::June),
            Quarter::JulAugSep => (Month::July, Month::September),
            Quarter::OctNovDec => (Month::October, Month::December),
        }
    }
}

impl HalfYear {
    pub fn as_str(&self) -> (r: &'static str)
        ensures
            r@ == half_text(*self),
    {
        match *self {
            HalfYear::JanThruJun => "Jan-Jun",
            HalfYear::JulThruDec => "Jul-Dec",
        }
    }

    /// Both half-years, in calendar order.
    pub fn values() -> (r: Vec<HalfYear>)
        ensures
            r@ =~= seq![HalfYear::JanThruJun, HalfYear::JulThruDec],
    {
        let mut v: Vec<HalfYear> = Vec::new();
        v.push(HalfYear::JanThruJun);
        v.push(HalfYear::JulThruDec);
        v
    }
}

impl MonthBounds for HalfYear {
    open spec fn bounds_spec(&self) -> (Month, Month) {
        match *self {
            HalfYear::JanThruJun => (Month::January, Month::June),
            HalfYear::JulThruDec => (Month::July, Month::December),
        }
    }

    fn start_and_end_month(&self) -> (r: (Month, Month)) {
        match *self {
            HalfYear::JanThruJun => (Month::January, Month::June),
            HalfYear::JulThruDec => (Month::July, Month::December),
        }
    }
}

/// Relies on `chrono::Utc::now` and `chrono::Datelike::year`: the current
/// calendar year by the system clock. Nothing is promised of the result,
/// which depends on the time of the call; the analysis functions take the
/// year as an argument and are verified for every value of it.
#[verifier::external_body]
pub fn current_year() -> u16 {
    let now = chrono::Utc::now();
    chrono::Datelike::year(&now) as u16
}

} // verus!
