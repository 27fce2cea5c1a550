//! The timestamp grammar: how period texts found in the sheets are parsed
//! back into `Timestamp` values. Every parser's contract states exactly
//! which texts are accepted and what they denote.
use vstd::prelude::*;
use crate::chars::{
    all_digits, digits_val, trim_end_ws_s, trim_ws_s, is_prefix, is_suffix, ci_eq_seq,
    lemma_digits_val_bound, check_all_digits, digits_value, trim_end_ws, trim_ws, starts_with,
    ends_with, str_eq, str_eq_ci, is_ws_char, is_digit_char, two_digit_rep, lemma_dec_rep,
    lemma_two_digit_rep,
};
use crate::common::{
    Year, Month, Quarter, HalfYear, MonthlyReport, YearlyTimestamp, Timestamp, month_name,
    month_from_num, month_num, year_text, quarter_text, half_text, timestamp_text,
    lemma_month_num_round_trip,
};

verus! {

/// The single parse-failure value: the input does not belong to the grammar.
#[derive(Debug, PartialEq, Eq, Structural)]
pub struct CannotParse;

impl CannotParse {
    pub fn simply() -> (r: Self)
        ensures
            r == CannotParse,
    {
        Self
    }
}

/// Wraps an optional parse result as a `Result`.
pub open spec fn ok_or_cp<T>(o: Option<T>) -> Result<T, CannotParse> {
    match o {
        Some(t) => Ok(t),
        None => Err(CannotParse),
    }
}

/// Exactly four decimal digits with a non-zero value.
pub open spec fn is_year_text(s: Seq<char>) -> bool {
    s.len() == 4 && all_digits(s) && digits_val(s) != 0
}

pub open spec fn year_of_text(s: Seq<char>) -> Year {
    Year(digits_val(s) as u16)
}

/// The yearly-timestamp grammar. After trailing whitespace is dropped,
/// either a bare year ("2009"), or a year, a hyphen possibly padded by
/// whitespace, and the last two digits of the following year ("2009-10",
/// "2009 - 10"): the two digits must equal (year + 1) mod 100, else the
/// text does not parse.
pub open spec fn yearly_of(s0: Seq<char>) -> Option<YearlyTimestamp> {
    let s = trim_end_ws_s(s0);
    if s.len() == 4 {
        if is_year_text(s) {
            Some(YearlyTimestamp::Calendar(year_of_text(s)))
        } else {
            None
        }
    } else if s.len() >= 7 {
        let ys = s.subrange(0, 4);
        let last2 = s.subrange(s.len() - 2, s.len() as int);
        let interior = trim_ws_s(s.subrange(4, s.len() - 2));
        if is_year_text(ys) && all_digits(last2) && interior.len() == 1 && interior[0] == '-'
            && (digits_val(ys) + 1) % 100 == digits_val(last2) {
            Some(YearlyTimestamp::Fiscal(year_of_text(ys)))
        } else {
            None
        }
    } else {
        None
    }
}

/// The monthly-report grammar: four digits, '-', then one or two digits
/// naming a month in 1..=12, e.g. "2009-01" or "2009-1".
pub open spec fn report_of(s: Seq<char>) -> Option<MonthlyReport> {
    if (s.len() == 6 || s.len() == 7) && all_digits(s.subrange(0, 4)) && s[4] == '-'
        && all_digits(s.subrange(5, s.len() as int)) && digits_val(s.subrange(0, 4)) != 0
        && 1 <= digits_val(s.subrange(5, s.len() as int)) <= 12 {
        Some(MonthlyReport {
            year: year_of_text(s.subrange(0, 4)),
            month: month_from_num(digits_val(s.subrange(5, s.len() as int))),
        })
    } else {
        None
    }
}

/// A token names a month when it equals the full English name or its
/// three-letter abbreviation, ignoring ASCII case.
pub open spec fn month_token_is(s: Seq<char>, m: Month) -> bool {
    ci_eq_seq(s, month_name(m)) || ci_eq_seq(s, month_name(m).take(3))
}

pub open spec fn month_of_token(s: Seq<char>) -> Option<Month> {
    if month_token_is(s, Month::January) {
        Some(Month::January)
    } else if month_token_is(s, Month::February) {
        Some(Month::February)
    } else if month_token_is(s, Month::March) {
        Some(Month::March)
    } else if month_token_is(s, Month::April) {
        Some(Month::April)
    } else if month_token_is(s, Month::May) {
        Some(Month::May)
    } else if month_token_is(s, Month::June) {
        Some(Month::June)
    } else if month_token_is(s, Month::July) {
        Some(Month::July)
    } else if month_token_is(s, Month::August) {
        Some(Month::August)
    } else if month_token_is(s, Month::September) {
        Some(Month::September)
    } else if month_token_is(s, Month::October) {
        Some(Month::October)
    } else if month_token_is(s, Month::November) {
        Some(Month::November)
    } else if month_token_is(s, Month::December) {
        Some(Month::December)
    } else if s == "Fabruary"@ {
        // A misspelling that the source tables are known to contain.
        Some(Month::February)
    } else {
        None
    }
}

/// The month grammar: trailing whitespace dropped, at most one trailing
/// period dropped, then a month token.
pub open spec fn month_of(s0: Seq<char>) -> Option<Month> {
    let s1 = trim_end_ws_s(s0);
    let s2 = if s1.len() > 0 && s1.last() == '.' {
        s1.drop_last()
    } else {
        s1
    };
    month_of_token(s2)
}

/// Drops a leading month name: the three-letter abbreviation, extended by
/// one more character when it continues the full name (so both "Jul" and
/// "July" are dropped).
pub open spec fn trim_start_month(m: Month, v: Seq<char>) -> Seq<char> {
    let name = month_name(m);
    if is_prefix(v, name.take(3)) {
        if v.len() >= 4 && name.len() >= 4 && v[3] == name[3] {
            v.subrange(4, v.len() as int)
        } else {
            v.subrange(3, v.len() as int)
        }
    } else {
        v
    }
}

/// Drops a trailing month name: the four-letter prefix of the full name
/// when it fits, else the three-letter abbreviation.
pub open spec fn trim_end_month(m: Month, v: Seq<char>) -> Seq<char> {
    let name = month_name(m);
    if name.len() >= 4 && is_suffix(v, name.take(4)) {
        v.subrange(0, v.len() - 4)
    } else if is_suffix(v, name.take(3)) {
        v.subrange(0, v.len() - 3)
    } else {
        v
    }
}

pub open spec fn strip_leading_dots(s: Seq<char>) -> Seq<char>
    decreases s.len(),
{
    if s.len() > 0 && s[0] == '.' {
        strip_leading_dots(s.subrange(1, s.len() as int))
    } else {
        s
    }
}

pub open spec fn strip_trailing_dots(s: Seq<char>) -> Seq<char>
    decreases s.len(),
{
    if s.len() > 0 && s.last() == '.' {
        strip_trailing_dots(s.drop_last())
    } else {
        s
    }
}

/// Whether a token denotes the period running from month `start` to month
/// `end`: after the two month names, any leading dots, and surrounding
/// whitespace are dropped, a single hyphen must remain.
pub open spec fn bounded_token_match(s: Seq<char>, start: Month, end: Month) -> bool {
    let v1 = trim_start_month(start, s);
    let v2 = trim_end_month(end, v1);
    let t = trim_ws_s(strip_leading_dots(v2));
    t.len() == 1 && t[0] == '-'
}

pub proof fn lemma_trim_end_ws_le(s: Seq<char>)
    ensures
        trim_end_ws_s(s).len() <= s.len(),
    decreases s.len(),
{
    if s.len() > 0 && is_ws_char(s.last()) {
        lemma_trim_end_ws_le(s.drop_last());
    }
}

pub proof fn lemma_trim_start_ws_le(s: Seq<char>)
    ensures
        crate::chars::trim_start_ws_s(s).len() <= s.len(),
    decreases s.len(),
{
    if s.len() > 0 && is_ws_char(s[0]) {
        lemma_trim_start_ws_le(s.subrange(1, s.len() as int));
    }
}

pub proof fn lemma_trim_ws_le(s: Seq<char>)
    ensures
        trim_ws_s(s).len() <= s.len(),
{
    lemma_trim_end_ws_le(s);
    lemma_trim_start_ws_le(trim_end_ws_s(s));
}

pub proof fn lemma_strip_trailing_le(s: Seq<char>)
    ensures
        strip_trailing_dots(s).len() <= s.len(),
        s.len() > 0 && s.last() == '.' ==> strip_trailing_dots(s).len() < s.len(),
    decreases s.len(),
{
    if s.len() > 0 && s.last() == '.' {
        lemma_strip_trailing_le(s.drop_last());
    }
}

/// The quarter grammar: trimmed, trailing periods recursively dropped,
/// then the first quarter whose bounding months match.
pub open spec fn quarter_of(s0: Seq<char>) -> Option<Quarter>
    decreases s0.len(),
    via quarter_of_dec
{
    let s = trim_ws_s(s0);
    if s.len() > 0 && s.last() == '.' {
        quarter_of(strip_trailing_dots(s))
    } else if bounded_token_match(s, Month::January, Month::March) {
        Some(Quarter::JanFebMar)
    } else if bounded_token_match(s, Month::April, Month::June) {
        Some(Quarter::AprMayJun)
    } else if bounded_token_match(s, Month::July, Month::September) {
        Some(Quarter::JulAugSep)
    } else if bounded_token_match(s, Month::October, Month::December) {
        Some(Quarter::OctNovDec)
    } else {
        None
    }
}

#[via_fn]
proof fn quarter_of_dec(s0: Seq<char>) {
    lemma_trim_ws_le(s0);
    lemma_strip_trailing_le(trim_ws_s(s0));
}

/// The half-year grammar, built like the quarter grammar.
pub open spec fn half_of(s0: Seq<char>) -> Option<HalfYear>
    decreases s0.len(),
    via half_of_dec
{
    let s = trim_ws_s(s0);
    if s.len() > 0 && s.last() == '.' {
        half_of(strip_trailing_dots(s))
    } else if bounded_token_match(s, Month::January, Month::June) {
        Some(HalfYear::JanThruJun)
    } else if bounded_token_match(s, Month::July, Month::December) {
        Some(HalfYear::JulThruDec)
    } else {
        None
    }
}

#[via_fn]
proof fn half_of_dec(s0: Seq<char>) {
    lemma_trim_ws_le(s0);
    lemma_strip_trailing_le(trim_ws_s(s0));
}

/// The grammar of displayed timestamps: yearly first (calendar or fiscal),
/// then monthly reports, then "YYYY " followed by a quarter or half-year
/// token.
pub open spec fn displayed_of(s: Seq<char>) -> Option<Timestamp> {
    match yearly_of(s) {
        Some(t) => Some(t.timestamp_of()),
        None => match report_of(s) {
            Some(r) => Some(Timestamp::Monthly(r)),
            None => {
                if s.len() == 12 && is_year_text(s.subrange(0, 4)) {
                    let y = year_of_text(s.subrange(0, 4));
                    let rem = s.subrange(5, 12);
                    match quarter_of(rem) {
                        Some(q) => Some(Timestamp::Quarterly(y, q)),
                        None => match half_of(rem) {
                            Some(h) => Some(Timestamp::BiAnnually(y, h)),
                            None => None,
                        },
                    }
                } else {
                    None
                }
            },
        },
    }
}

/// The grammar of a sub-period token interpreted under an inherited year:
/// a month, else a quarter, else a half-year.
pub open spec fn under_year_of(year: Year, rem: Seq<char>) -> Option<Timestamp> {
    match month_of(rem) {
        Some(m) => Some(Timestamp::Monthly(MonthlyReport { year, month: m })),
        None => match quarter_of(rem) {
            Some(q) => Some(Timestamp::Quarterly(year, q)),
            None => match half_of(rem) {
                Some(h) => Some(Timestamp::BiAnnually(year, h)),
                None => None,
            },
        },
    }
}

// ----- executable parsers -----

proof fn lemma_month_name_len(m: Month)
    ensures
        3 <= month_name(m).len() <= 9,
{
    reveal_strlit("January");
    reveal_strlit("February");
    reveal_strlit("March");
    reveal_strlit("April");
    reveal_strlit("May");
    reveal_strlit("June");
    reveal_strlit("July");
    reveal_strlit("August");
    reveal_strlit("September");
    reveal_strlit("October");
    reveal_strlit("November");
    reveal_strlit("December");
}

impl Year {
    /// Parses a bare year: accepted exactly when the text is four decimal
    /// digits with a non-zero value.
    pub fn from_str(value: &str) -> (r: Result<Year, CannotParse>)
        ensures
            r == ok_or_cp(if is_year_text(value@) {
                Some(year_of_text(value@))
            } else {
                None::<Year>
            }),
            r is Ok ==> r->Ok_0.wf() && r->Ok_0.0 < 10000,
    {
        let len = value.unicode_len();
        if len != 4 {
            return Err(CannotParse::simply());
        }
        if !check_all_digits(value) {
            return Err(CannotParse::simply());
        }
        proof {
            lemma_digits_val_bound(value@);
        }
        let v = digits_value(value);
        if v == 0 {
            return Err(CannotParse::simply());
        }
        Ok(Year(v as u16))
    }
}

impl Month {
    /// The month with the given number, January = 1 through December = 12.
    pub fn try_from(value: u8) -> (r: Result<Month, CannotParse>)
        ensures
            r == ok_or_cp(if 1 <= value <= 12 {
                Some(month_from_num(value as int))
            } else {
                None::<Month>
            }),
    {
        match value {
            1 => Ok(Month::January),
            2 => Ok(Month::February),
            3 => Ok(Month::March),
            4 => Ok(Month::April),
            5 => Ok(Month::May),
            6 => Ok(Month::June),
            7 => Ok(Month::July),
            8 => Ok(Month::August),
            9 => Ok(Month::September),
            10 => Ok(Month::October),
            11 => Ok(Month::November),
            12 => Ok(Month::December),
            _ => Err(CannotParse::simply()),
        }
    }

    fn token_matches(&self, s: &str) -> (r: bool)
        ensures
            r == month_token_is(s@, *self),
    {
        let name = self.name();
        if str_eq_ci(s, name) {
            return true;
        }
        proof {
            lemma_month_name_len(*self);
        }
        let name3 = name.substring_char(0, 3);
        assert(name3@ =~= month_name(*self).take(3));
        str_eq_ci(s, name3)
    }

    fn parse_token(s: &str) -> (r: Option<Month>)
        ensures
            r == month_of_token(s@),
    {
        if Month::January.token_matches(s) {
            Some(Month::January)
        } else if Month::February.token_matches(s) {
            Some(Month::February)
        } else if Month::March.token_matches(s) {
            Some(Month::March)
        } else if Month::April.token_matches(s) {
            Some(Month::April)
        } else if Month::May.token_matches(s) {
            Some(Month::May)
        } else if Month::June.token_matches(s) {
            Some(Month::June)
        } else if Month::July.token_matches(s) {
            Some(Month::July)
        } else if Month::August.token_matches(s) {
            Some(Month::August)
        } else if Month::September.token_matches(s) {
            Some(Month::September)
        } else if Month::October.token_matches(s) {
            Some(Month::October)
        } else if Month::November.token_matches(s) {
            Some(Month::November)
        } else if Month::December.token_matches(s) {
            Some(Month::December)
        } else if str_eq(s, "Fabruary") {
            Some(Month::February)
        } else {
            None
        }
    }

    /// Parses a month name: the full English name or its three-letter
    /// abbreviation, ignoring ASCII case, after trailing whitespace and at
    /// most one trailing period are dropped.
    pub fn from_str(value: &str) -> (r: Result<Month, CannotParse>)
        ensures
            r == ok_or_cp(month_of(value@)),
    {
        let v1 = trim_end_ws(value);
        let len = v1.unicode_len();
        let v2 = if len > 0 && v1.get_char(len - 1) == '.' {
            let w = v1.substring_char(0, len - 1);
            assert(w@ =~= v1@.drop_last());
            w
        } else {
            v1
        };
        match Month::parse_token(v2) {
            Some(m) => Ok(m),
            None => Err(CannotParse::simply()),
        }
    }

    /// Drops a leading occurrence of this month's name from `value`.
    pub fn trim_start_matches_from<'v>(&self, value: &'v str) -> (r: &'v str)
        ensures
            r@ == trim_start_month(*self, value@),
    {
        let name = self.name();
        proof {
            lemma_month_name_len(*self);
        }
        let name_len = name.unicode_len();
        let short = name.substring_char(0, 3);
        assert(short@ =~= month_name(*self).take(3));
        if starts_with(value, short) {
            let vlen = value.unicode_len();
            if vlen >= 4 && name_len >= 4 && value.get_char(3) == name.get_char(3) {
                value.substring_char(4, vlen)
            } else {
                value.substring_char(3, vlen)
            }
        } else {
            value
        }
    }

    /// Drops a trailing occurrence of this month's name from `value`.
    pub fn trim_end_matches_from<'v>(&self, value: &'v str) -> (r: &'v str)
        ensures
            r@ == trim_end_month(*self, value@),
    {
        let name = self.name();
        proof {
            lemma_month_name_len(*self);
        }
        let name_len = name.unicode_len();
        let vlen = value.unicode_len();
        if name_len >= 4 {
            let name4 = name.substring_char(0, 4);
            assert(name4@ =~= month_name(*self).take(4));
            if ends_with(value, name4) {
                return value.substring_char(0, vlen - 4);
            }
        }
        let name3 = name.substring_char(0, 3);
        assert(name3@ =~= month_name(*self).take(3));
        if ends_with(value, name3) {
            return value.substring_char(0, vlen - 3);
        }
        value
    }
}

impl MonthlyReport {
    /// Parses a monthly report such as "2009-01": four digits, a hyphen,
    /// then one or two digits naming a month.
    pub fn from_str(value: &str) -> (r: Result<MonthlyReport, CannotParse>)
        ensures
            r == ok_or_cp(report_of(value@)),
    {
        let len = value.unicode_len();
        if len != 6 && len != 7 {
            return Err(CannotParse::simply());
        }
        let ys = value.substring_char(0, 4);
        if !check_all_digits(ys) {
            return Err(CannotParse::simply());
        }
        if value.get_char(4) != '-' {
            return Err(CannotParse::simply());
        }
        let ms = value.substring_char(5, len);
        if !check_all_digits(ms) {
            return Err(CannotParse::simply());
        }
        proof {
            lemma_digits_val_bound(ys@);
            lemma_digits_val_bound(ms@);
        }
        let yv = digits_value(ys);
        let mv = digits_value(ms);
        if yv == 0 || mv < 1 || mv > 12 {
            return Err(CannotParse::simply());
        }
        match Month::try_from(mv as u8) {
            Ok(month) => Ok(MonthlyReport { year: Year(yv as u16), month }),
            Err(e) => Err(e),
        }
    }
}

impl YearlyTimestamp {
    /// Parses a yearly timestamp. A fiscal text "YYYY-YY" is accepted if
    /// and only if YY equals (YYYY + 1) mod 100.
    pub fn from_str(value: &str) -> (r: Result<YearlyTimestamp, CannotParse>)
        ensures
            r == ok_or_cp(yearly_of(value@)),
            r is Ok ==> r->Ok_0.year_of().wf(),
    {
        let trimmed = trim_end_ws(value);
        let len = trimmed.unicode_len();
        if len == 4 {
            match Year::from_str(trimmed) {
                Ok(y) => Ok(YearlyTimestamp::Calendar(y)),
                Err(_) => Err(CannotParse::simply()),
            }
        } else if len >= 7 {
            let ys = trimmed.substring_char(0, 4);
            assert(ys@ =~= trim_end_ws_s(value@).subrange(0, 4));
            let year = match Year::from_str(ys) {
                Ok(y) => y,
                Err(_) => {
                    return Err(CannotParse::simply());
                },
            };
            let last2 = trimmed.substring_char(len - 2, len);
            assert(last2@ =~= trim_end_ws_s(value@).subrange(trim_end_ws_s(value@).len() - 2, trim_end_ws_s(value@).len() as int));
            if !check_all_digits(last2) {
                return Err(CannotParse::simply());
            }
            let inner = trimmed.substring_char(4, len - 2);
            assert(inner@ =~= trim_end_ws_s(value@).subrange(4, trim_end_ws_s(value@).len() - 2));
            let interior = trim_ws(inner);
            let ilen = interior.unicode_len();
            if !(ilen == 1 && interior.get_char(0) == '-') {
                return Err(CannotParse::simply());
            }
            proof {
                lemma_digits_val_bound(last2@);
                lemma_digits_val_bound(ys@);
            }
            let nv = digits_value(last2);
            if (year.0 as u32 + 1) % 100 == nv {
                Ok(YearlyTimestamp::Fiscal(year))
            } else {
                Err(CannotParse::simply())
            }
        } else {
            Err(CannotParse::simply())
        }
    }
}

impl Quarter {
    /// Parses a quarter token such as "Jan-Mar", "July- Sep" or "Oct.-Dec".
    pub fn from_str(value: &str) -> (r: Result<Quarter, CannotParse>)
        ensures
            r == ok_or_cp(quarter_of(value@)),
        decreases value@.len(),
    {
        let s = trim_ws(value);
        let slen = s.unicode_len();
        if slen > 0 && s.get_char(slen - 1) == '.' {
            let stripped = strip_trailing_dots_exec(s);
            proof {
                lemma_trim_ws_le(value@);
                lemma_strip_trailing_le(s@);
            }
            return Quarter::from_str(stripped);
        }
        if bounded_match_exec(s, Month::January, Month::March) {
            Ok(Quarter::JanFebMar)
        } else if bounded_match_exec(s, Month::April, Month::June) {
            Ok(Quarter::AprMayJun)
        } else if bounded_match_exec(s, Month::July, Month::September) {
            Ok(Quarter::JulAugSep)
        } else if bounded_match_exec(s, Month::October, Month::December) {
            Ok(Quarter::OctNovDec)
        } else {
            Err(CannotParse::simply())
        }
    }
}

impl HalfYear {
    /// Parses a half-year token such as "Jan-Jun" or "Jul-Dec".
    pub fn from_str(value: &str) -> (r: Result<HalfYear, CannotParse>)
        ensures
            r == ok_or_cp(half_of(value@)),
        decreases value@.len(),
    {
        let s = trim_ws(value);
        let slen = s.unicode_len();
        if slen > 0 && s.get_char(slen - 1) == '.' {
            let stripped = strip_trailing_dots_exec(s);
            proof {
                lemma_trim_ws_le(value@);
                lemma_strip_trailing_le(s@);
            }
            return HalfYear::from_str(stripped);
        }
        if bounded_match_exec(s, Month::January, Month::June) {
            Ok(HalfYear::JanThruJun)
        } else if bounded_match_exec(s, Month::July, Month::December) {
            Ok(HalfYear::JulThruDec)
        } else {
            Err(CannotParse::simply())
        }
    }
}

fn strip_trailing_dots_exec(s: &str) -> (r: &str)
    ensures
        r@ == strip_trailing_dots(s@),
{
    let mut end = s.unicode_len();
    proof {
        assert(s@.subrange(0, end as int) =~= s@);
    }
    while end > 0 && s.get_char(end - 1) == '.'
        invariant
            end <= s@.len(),
            strip_trailing_dots(s@) == strip_trailing_dots(s@.subrange(0, end as int)),
        decreases end,
    {
        proof {
            let cur = s@.subrange(0, end as int);
            assert(cur.drop_last() =~= s@.subrange(0, end - 1));
        }
        end = end - 1;
    }
    s.substring_char(0, end)
}

fn strip_leading_dots_exec(s: &str) -> (r: &str)
    ensures
        r@ == strip_leading_dots(s@),
{
    let len = s.unicode_len();
    let mut start: usize = 0;
    proof {
        assert(s@.subrange(0, s@.len() as int) =~= s@);
    }
    while start < len && s.get_char(start) == '.'
        invariant
            start <= len,
            len == s@.len(),
            strip_leading_dots(s@) == strip_leading_dots(s@.subrange(start as int, s@.len() as int)),
        decreases len - start,
    {
        proof {
            let cur = s@.subrange(start as int, s@.len() as int);
            assert(cur.subrange(1, cur.len() as int) =~= s@.subrange(start + 1, s@.len() as int));
        }
        start = start + 1;
    }
    s.substring_char(start, len)
}

fn bounded_match_exec(s: &str, start: Month, end: Month) -> (r: bool)
    ensures
        r == bounded_token_match(s@, start, end),
{
    let v1 = start.trim_start_matches_from(s);
    let v2 = end.trim_end_matches_from(v1);
    let v3 = strip_leading_dots_exec(v2);
    let t = trim_ws(v3);
    let tlen = t.unicode_len();
    tlen == 1 && t.get_char(0) == '-'
}

impl Timestamp {
    /// Reparses a timestamp from a value in the canonical displayed form.
    pub fn from_displayed_value(value: &str) -> (r: Result<Timestamp, CannotParse>)
        ensures
            r == ok_or_cp(displayed_of(value@)),
    {
        match YearlyTimestamp::from_str(value) {
            Ok(t) => {
                return Ok(Timestamp::from_yearly(t));
            },
            Err(_) => {},
        }
        match MonthlyReport::from_str(value) {
            Ok(rep) => {
                return Ok(Timestamp::Monthly(rep));
            },
            Err(_) => {},
        }
        let len = value.unicode_len();
        if len == 12 {
            let ys = value.substring_char(0, 4);
            match Year::from_str(ys) {
                Ok(year) => {
                    let rem = value.substring_char(5, 12);
                    match Quarter::from_str(rem) {
                        Ok(q) => {
                            return Ok(Timestamp::Quarterly(year, q));
                        },
                        Err(_) => {},
                    }
                    match HalfYear::from_str(rem) {
                        Ok(h) => {
                            return Ok(Timestamp::BiAnnually(year, h));
                        },
                        Err(_) => {},
                    }
                },
                Err(_) => {},
            }
        }
        Err(CannotParse::simply())
    }

    /// Interprets a sub-period token under an inherited year: a month name
    /// first, then a quarter token, then a half-year token.
    pub fn try_from(year: Year, remainder: &str) -> (r: Result<Timestamp, CannotParse>)
        ensures
            r == ok_or_cp(under_year_of(year, remainder@)),
    {
        match Month::from_str(remainder) {
            Ok(m) => {
                return Ok(Timestamp::Monthly(MonthlyReport { year, month: m }));
            },
            Err(_) => {},
        }
        match Quarter::from_str(remainder) {
            Ok(q) => {
                return Ok(Timestamp::Quarterly(year, q));
            },
            Err(_) => {},
        }
        match HalfYear::from_str(remainder) {
            Ok(h) => {
                return Ok(Timestamp::BiAnnually(year, h));
            },
            Err(_) => {},
        }
        Err(CannotParse::simply())
    }
}


/// The timestamps whose canonical text denotes them unambiguously. A year
/// outside four digits cannot be re-read, and a monthly text like
/// "1900-01" collides with the fiscal rendering when the month number
/// equals (year + 1) mod 100: fiscal is read first, so such a monthly
/// stamp reparses as the fiscal year.
pub open spec fn round_trippable(t: Timestamp) -> bool {
    match t {
        Timestamp::CalendarYear(y) => 1000 <= y.0 <= 9999,
        Timestamp::FiscalYear(y) => 1000 <= y.0 <= 9999,
        Timestamp::BiAnnually(y, _) => 1000 <= y.0 <= 9999,
        Timestamp::Quarterly(y, _) => 1000 <= y.0 <= 9999,
        Timestamp::Monthly(r) => 1000 <= r.year.0 <= 9999
            && month_num(r.month) != (r.year.0 + 1) % 100,
    }
}

proof fn lemma_year_text_facts(y: Year)
    requires
        1000 <= y.0 <= 9999,
    ensures
        year_text(y).len() == 4,
        all_digits(year_text(y)),
        digits_val(year_text(y)) == y.0,
        is_year_text(year_text(y)),
        year_of_text(year_text(y)) == y,
{
    lemma_dec_rep(y.0 as int);
}

proof fn lemma_digit_not_ws(s: Seq<char>)
    requires
        all_digits(s),
    ensures
        forall|i: int| 0 <= i < s.len() ==> !is_ws_char(#[trigger] s[i]),
{
    assert forall|i: int| 0 <= i < s.len() implies !is_ws_char(#[trigger] s[i]) by {
        assert(is_digit_char(s[i]));
    }
}

pub proof fn lemma_trim_ws_noop(s: Seq<char>)
    requires
        s.len() == 0 || (!is_ws_char(s[0]) && !is_ws_char(s.last())),
    ensures
        trim_ws_s(s) == s,
{
    assert(trim_end_ws_s(s) == s);
    assert(crate::chars::trim_start_ws_s(s) == s);
}

/// Evaluates `bounded_token_match` on the well-formed seven-character
/// tokens "Xxx-Yyy" built from two month abbreviations.
proof fn lemma_token_match_std(s: Seq<char>, start: Month, end: Month)
    requires
        s.len() == 7,
        s.subrange(0, 3) == month_name(start).take(3),
        s[3] == '-',
        month_name(start).len() >= 4,
        month_name(start)[3] != '-',
        s.subrange(4, 7) == month_name(end).take(3),
        month_name(end).len() >= 4,
        month_name(end)[0] != '-',
    ensures
        bounded_token_match(s, start, end),
{
    assert(is_prefix(s, month_name(start).take(3)));
    assert(s[3] != month_name(start)[3]) by {
        assert(month_name(start)[3] != '-');
    }
    let v1 = s.subrange(3, 7);
    assert(trim_start_month(start, s) == v1);
    assert(v1[0] == '-');
    assert(!is_suffix(v1, month_name(end).take(4))) by {
        if is_suffix(v1, month_name(end).take(4)) {
            assert(v1.subrange(0, 4) =~= v1);
            assert(v1[0] == month_name(end).take(4)[0]);
            assert(month_name(end)[0] == '-');
        }
    }
    assert(is_suffix(v1, month_name(end).take(3))) by {
        assert(v1.subrange(1, 4) =~= s.subrange(4, 7));
    }
    let v2 = v1.subrange(0, 1);
    assert(trim_end_month(end, v1) == v2);
    assert(v2[0] == '-');
    assert(strip_leading_dots(v2) == v2);
    assert(!is_ws_char('-'));
    lemma_trim_ws_noop(v2);
}


/// Refutes a three-letter month prefix from one differing character.
proof fn lemma_not_prefix3(s: Seq<char>, m: Month, i: int)
    requires
        0 <= i < 3,
        3 <= month_name(m).len(),
        i < s.len(),
        s[i] != month_name(m)[i],
    ensures
        !is_prefix(s, month_name(m).take(3)),
{
    if is_prefix(s, month_name(m).take(3)) {
        assert(s.subrange(0, 3)[i] == month_name(m).take(3)[i]);
    }
}

/// Refutes a suffix from one differing character.
proof fn lemma_not_suffix(s: Seq<char>, p: Seq<char>, i: int)
    requires
        p.len() <= s.len(),
        0 <= i < p.len(),
        s[s.len() - p.len() + i] != p[i],
    ensures
        !is_suffix(s, p),
{
    if is_suffix(s, p) {
        assert(s.subrange(s.len() - p.len(), s.len() as int)[i] == p[i]);
    }
}

/// Evaluates `bounded_token_match` to false when neither month name
/// occurs and the token itself is not a bare hyphen.
proof fn lemma_no_token_match(s: Seq<char>, start: Month, end: Month)
    requires
        !is_prefix(s, month_name(start).take(3)),
        !is_suffix(s, month_name(end).take(3)),
        !is_suffix(s, month_name(end).take(4)),
        s.len() == 0 || (!is_ws_char(s[0]) && !is_ws_char(s.last())),
        s.len() == 0 || s[0] != '.',
        !(s.len() == 1 && s[0] == '-'),
    ensures
        !bounded_token_match(s, start, end),
{
    assert(trim_start_month(start, s) == s);
    assert(trim_end_month(end, s) == s);
    assert(strip_leading_dots(s) == s);
    lemma_trim_ws_noop(s);
}

/// Evaluates `bounded_token_match` to false on a seven-character token
/// in which neither month name occurs, by the given differing indexes.
proof fn lemma_no_token_match7(s: Seq<char>, start: Month, end: Month, ip: int, i3: int, i4: int)
    requires
        s.len() == 7,
        month_name(start).len() >= 3,
        month_name(end).len() >= 4,
        0 <= ip < 3 && s[ip] != month_name(start)[ip],
        0 <= i3 < 3 && s[4 + i3] != month_name(end)[i3],
        0 <= i4 < 4 && s[3 + i4] != month_name(end)[i4],
        !is_ws_char(s[0]) && !is_ws_char(s[6]),
        s[0] != '.',
    ensures
        !bounded_token_match(s, start, end),
{
    lemma_not_prefix3(s, start, ip);
    lemma_not_suffix(s, month_name(end).take(3), i3);
    lemma_not_suffix(s, month_name(end).take(4), i4);
    lemma_no_token_match(s, start, end);
}

/// Evaluates `bounded_token_match` to false when the start month strips
/// but what remains carries no end month and is longer than a hyphen.
proof fn lemma_no_token_match_start_only(s: Seq<char>, start: Month, end: Month)
    requires
        s.len() == 7,
        s.subrange(0, 3) == month_name(start).take(3),
        s[3] == '-',
        month_name(start).len() >= 4,
        month_name(start)[3] != '-',
        month_name(end).len() >= 4,
        s[4] != month_name(end)[0],
        month_name(end)[0] != '-',
        !is_ws_char(s[3]) && !is_ws_char(s[6]),
    ensures
        !bounded_token_match(s, start, end),
{
    assert(is_prefix(s, month_name(start).take(3)));
    let v1 = s.subrange(3, 7);
    assert(trim_start_month(start, s) == v1);
    lemma_not_suffix(v1, month_name(end).take(4), 0);
    lemma_not_suffix(v1, month_name(end).take(3), 0);
    assert(trim_end_month(end, v1) == v1);
    assert(v1[0] == '-');
    assert(strip_leading_dots(v1) == v1);
    lemma_trim_ws_noop(v1);
}

/// Evaluates `bounded_token_match` to false when only the end month
/// strips and more than a hyphen remains in front of it.
proof fn lemma_no_token_match_end_only(s: Seq<char>, start: Month, end: Month, ip: int)
    requires
        s.len() == 7,
        0 <= ip < 3 && s[ip] != month_name(start)[ip],
        month_name(start).len() >= 3,
        month_name(end).len() >= 4,
        s.subrange(4, 7) == month_name(end).take(3),
        s[3] == '-',
        month_name(end)[0] != '-',
        !is_ws_char(s[0]) && !is_ws_char(s[3]),
        s[0] != '.',
    ensures
        !bounded_token_match(s, start, end),
{
    lemma_not_prefix3(s, start, ip);
    assert(trim_start_month(start, s) == s);
    lemma_not_suffix(s, month_name(end).take(4), 0);
    assert(is_suffix(s, month_name(end).take(3)));
    let w = s.subrange(0, 4);
    assert(trim_end_month(end, s) == w);
    assert(w[0] == s[0] && w[3] == s[3]);
    assert(strip_leading_dots(w) == w);
    lemma_trim_ws_noop(w);
}

/// The quarter tokens parse back to their quarters.
proof fn lemma_quarter_text_parses(q: Quarter)
    ensures
        quarter_of(quarter_text(q)) == Some(q),
{
    reveal_strlit("Jan-Mar");
    reveal_strlit("Apr-Jun");
    reveal_strlit("Jul-Sep");
    reveal_strlit("Oct-Dec");
    reveal_strlit("January");
    reveal_strlit("March");
    reveal_strlit("April");
    reveal_strlit("June");
    reveal_strlit("July");
    reveal_strlit("September");
    reveal_strlit("October");
    reveal_strlit("December");
    let s = quarter_text(q);
    assert(s.len() == 7);
    lemma_trim_ws_noop(s);
    assert(s.last() != '.');
    match q {
        Quarter::JanFebMar => {
            assert(s.subrange(0, 3) =~= month_name(Month::January).take(3));
            assert(s.subrange(4, 7) =~= month_name(Month::March).take(3));
            lemma_token_match_std(s, Month::January, Month::March);
        },
        Quarter::AprMayJun => {
            lemma_no_token_match7(s, Month::January, Month::March, 0, 0, 0);
            assert(s.subrange(0, 3) =~= month_name(Month::April).take(3));
            assert(s.subrange(4, 7) =~= month_name(Month::June).take(3));
            lemma_token_match_std(s, Month::April, Month::June);
        },
        Quarter::JulAugSep => {
            lemma_no_token_match7(s, Month::January, Month::March, 1, 0, 0);
            lemma_no_token_match7(s, Month::April, Month::June, 0, 0, 0);
            assert(s.subrange(0, 3) =~= month_name(Month::July).take(3));
            assert(s.subrange(4, 7) =~= month_name(Month::September).take(3));
            lemma_token_match_std(s, Month::July, Month::September);
        },
        Quarter::OctNovDec => {
            lemma_no_token_match7(s, Month::January, Month::March, 0, 0, 0);
            lemma_no_token_match7(s, Month::April, Month::June, 0, 0, 0);
            lemma_no_token_match7(s, Month::July, Month::September, 0, 0, 0);
            assert(s.subrange(0, 3) =~= month_name(Month::October).take(3));
            assert(s.subrange(4, 7) =~= month_name(Month::December).take(3));
            lemma_token_match_std(s, Month::October, Month::December);
        },
    }
}

/// The half-year tokens are no quarters, and parse back to their halves.
proof fn lemma_half_text_parses(h: HalfYear)
    ensures
        quarter_of(half_text(h)) is None,
        half_of(half_text(h)) == Some(h),
{
    reveal_strlit("Jan-Jun");
    reveal_strlit("Jul-Dec");
    reveal_strlit("January");
    reveal_strlit("March");
    reveal_strlit("April");
    reveal_strlit("June");
    reveal_strlit("July");
    reveal_strlit("September");
    reveal_strlit("October");
    reveal_strlit("December");
    let s = half_text(h);
    assert(s.len() == 7);
    lemma_trim_ws_noop(s);
    assert(s.last() != '.');
    match h {
        HalfYear::JanThruJun => {
            assert(s.subrange(0, 3) =~= month_name(Month::January).take(3));
            lemma_no_token_match_start_only(s, Month::January, Month::March);
            assert(s.subrange(4, 7) =~= month_name(Month::June).take(3));
            lemma_no_token_match_end_only(s, Month::April, Month::June, 0);
            lemma_no_token_match7(s, Month::July, Month::September, 1, 0, 0);
            lemma_no_token_match7(s, Month::October, Month::December, 0, 0, 0);
            assert(quarter_of(s) is None);
            lemma_token_match_std(s, Month::January, Month::June);
        },
        HalfYear::JulThruDec => {
            lemma_no_token_match7(s, Month::January, Month::March, 1, 0, 0);
            lemma_no_token_match7(s, Month::April, Month::June, 0, 0, 0);
            assert(s.subrange(0, 3) =~= month_name(Month::July).take(3));
            lemma_no_token_match_start_only(s, Month::July, Month::September);
            assert(s.subrange(4, 7) =~= month_name(Month::December).take(3));
            lemma_no_token_match_end_only(s, Month::October, Month::December, 0);
            assert(quarter_of(s) is None);
            lemma_no_token_match7(s, Month::January, Month::June, 1, 0, 0);
            lemma_token_match_std(s, Month::July, Month::December);
        },
    }
}

/// Law: every displayed timestamp parses back to itself, for all
/// timestamps whose rendering is unambiguous (see `round_trippable`).
pub proof fn lemma_parse_format_round_trip(t: Timestamp)
    requires
        round_trippable(t),
    ensures
        displayed_of(timestamp_text(t)) == Some(t),
{
    match t {
        Timestamp::CalendarYear(y) => {
            let s = timestamp_text(t);
            lemma_year_text_facts(y);
            lemma_digit_not_ws(s);
            crate::chars::lemma_trim_end_noop(s);
            assert(yearly_of(s) == Some(YearlyTimestamp::Calendar(y)));
        },
        Timestamp::FiscalYear(y) => {
            let nn = (y.0 as int + 1) % 100;
            assert(0 <= nn <= 99);
            let ytext = year_text(y);
            let ntext = two_digit_rep(nn);
            lemma_year_text_facts(y);
            lemma_two_digit_rep(nn);
            let s = timestamp_text(t);
            assert(s == ytext + seq!['-'] + ntext);
            assert(s.len() == 7);
            assert(s.last() == ntext.last());
            assert(!is_ws_char(s.last())) by {
                assert(is_digit_char(ntext.last()));
            }
            crate::chars::lemma_trim_end_noop(s);
            assert(s.subrange(0, 4) =~= ytext);
            assert(s.subrange(5, 7) =~= ntext);
            assert(s.subrange(4, 5) =~= seq!['-']);
            assert(trim_ws_s(seq!['-']) == seq!['-']) by {
                lemma_trim_ws_noop(seq!['-']);
            }
            assert((digits_val(ytext) + 1) % 100 == digits_val(ntext));
            assert(yearly_of(s) == Some(YearlyTimestamp::Fiscal(y)));
        },
        Timestamp::Monthly(rep) => {
            let y = rep.year;
            let m = month_num(rep.month);
            let ytext = year_text(y);
            let mtext = two_digit_rep(m);
            lemma_year_text_facts(y);
            lemma_two_digit_rep(m);
            let s = timestamp_text(t);
            assert(s == ytext + seq!['-'] + mtext);
            assert(s.len() == 7);
            assert(s.last() == mtext.last());
            assert(!is_ws_char(s.last())) by {
                assert(is_digit_char(mtext.last()));
            }
            crate::chars::lemma_trim_end_noop(s);
            assert(s.subrange(0, 4) =~= ytext);
            assert(s.subrange(5, 7) =~= mtext);
            assert(s.subrange(4, 5) =~= seq!['-']);
            assert(trim_ws_s(seq!['-']) == seq!['-']) by {
                lemma_trim_ws_noop(seq!['-']);
            }
            // the fiscal reading is ruled out by the checksum
            assert((digits_val(ytext) + 1) % 100 != digits_val(mtext));
            assert(yearly_of(s) is None);
            assert(s[4] == '-');
            assert(report_of(s) == Some(rep)) by {
                lemma_month_num_round_trip(rep.month);
            }
        },
        Timestamp::Quarterly(y, q) => {
            let ytext = year_text(y);
            let qtext = quarter_text(q);
            lemma_year_text_facts(y);
            assert(qtext.len() == 7 && !is_digit_char(qtext[5]) && !is_ws_char(qtext.last())
                && qtext[0] != '-') by {
                reveal_strlit("Jan-Mar");
                reveal_strlit("Apr-Jun");
                reveal_strlit("Jul-Sep");
                reveal_strlit("Oct-Dec");
            }
            let s = timestamp_text(t);
            assert(s == ytext + seq![' '] + qtext);
            assert(s.len() == 12);
            assert(s.last() == qtext.last());
            crate::chars::lemma_trim_end_noop(s);
            // no yearly reading: the last two characters are not digits
            assert(s.subrange(10, 12)[0] == qtext[5]);
            assert(!all_digits(s.subrange(10, 12)));
            assert(yearly_of(s) is None);
            // no monthly reading: wrong length
            assert(report_of(s) is None);
            assert(s.subrange(0, 4) =~= ytext);
            assert(s.subrange(5, 12) =~= qtext);
            lemma_quarter_text_parses(q);
            assert(displayed_of(s) == Some(Timestamp::Quarterly(y, q)));
        },
        Timestamp::BiAnnually(y, h) => {
            let ytext = year_text(y);
            let htext = half_text(h);
            lemma_year_text_facts(y);
            assert(htext.len() == 7 && !is_digit_char(htext[5]) && !is_ws_char(htext.last())
                && htext[0] != '-') by {
                reveal_strlit("Jan-Jun");
                reveal_strlit("Jul-Dec");
            }
            let s = timestamp_text(t);
            assert(s == ytext + seq![' '] + htext);
            assert(s.len() == 12);
            assert(s.last() == htext.last());
            crate::chars::lemma_trim_end_noop(s);
            assert(s.subrange(10, 12)[0] == htext[5]);
            assert(!all_digits(s.subrange(10, 12)));
            assert(yearly_of(s) is None);
            assert(report_of(s) is None);
            assert(s.subrange(0, 4) =~= ytext);
            assert(s.subrange(5, 12) =~= htext);
            lemma_half_text_parses(h);
            assert(displayed_of(s) == Some(Timestamp::BiAnnually(y, h)));
        },
    }
}

} // verus!
