//! Sheet analysis: cell classification, timestamp discovery, header-label
//! reconstruction, and row streaming into the aggregation store.
use vstd::prelude::*;
use crate::chars::{
    contains_seq, contains_sub, is_suffix, is_prefix, ends_with, starts_with, str_eq, dec_rep,
    dec_string, trim_ws_s,
};
use crate::common::{Year, Month, YearlyTimestamp, Timestamp, FrequencyClass, current_year};
use crate::parse::{yearly_of, month_of, under_year_of};
use crate::merge::{
    Column, ColumnLabel, RowData, MergeXL, SheetV, is_u8_text, upsert, unique_keys, store_fold,
    store_add,
};

verus! {

/// Why a sheet yielded nothing: a structural or policy rejection with a
/// reason, legitimately no data, or an opaque lower-level failure.
#[derive(Debug)]
pub enum AnalysisError {
    Unsupported { reason: String },
    NoData,
    OtherFailure(ErrorBox),
}

/// Carries the message of a lower-level failure (a decoding error, an I/O
/// error) through the analysis result without interpreting it.
#[derive(Debug)]
pub struct ErrorBox {
    pub message: String,
}

impl ErrorBox {
    pub fn new(message: String) -> (r: Self)
        ensures
            r.message@ == message@,
    {
        Self { message }
    }

    pub fn message(&self) -> (r: &str)
        ensures
            r@ == self.message@,
    {
        self.message.as_str()
    }
}

pub type AnalysisResult<T> = Result<T, AnalysisError>;

impl AnalysisError {
    pub fn unsupported(reason: &str) -> (r: Self)
        ensures
            r matches AnalysisError::Unsupported { reason: m } && m@ == reason@,
    {
        AnalysisError::Unsupported { reason: String::from_str(reason) }
    }

    /// A short description of the failure, for reports.
    pub fn message(&self) -> (r: String)
        ensures
            self matches AnalysisError::Unsupported { reason } ==> r@ == "Format unsupported: "@
                + reason@,
            self is NoData ==> r@ == "No non-provisional data"@,
            self matches AnalysisError::OtherFailure(b) ==> r@ == "Other: "@ + b.message@,
    {
        match self {
            AnalysisError::Unsupported { reason } => {
                let mut s = String::from_str("Format unsupported: ");
                s.append(reason.as_str());
                s
            },
            AnalysisError::NoData => String::from_str("No non-provisional data"),
            AnalysisError::OtherFailure(b) => {
                let mut s = String::from_str("Other: ");
                s.append(b.message.as_str());
                s
            },
        }
    }
}


// ----- cells -----

/// Model of one spreadsheet cell as the analysis reads it: empty, numeric
/// (already rounded to an integer, with its display text), text, or a
/// value of some other kind that can only serve as display text.
pub enum CellV {
    Empty,
    Number(int, Seq<char>),
    Text(Seq<char>),
    Other(Seq<char>),
}

/// One typed cell of a decoded sheet. Numeric cells carry their value
/// rounded to an integer beside their rendering; date, duration, error
/// and boolean cells carry only their rendering.
#[derive(Clone, Debug)]
pub enum Cell {
    Empty,
    Number { rounded: i64, text: String },
    Text(String),
    Other(String),
}

impl View for Cell {
    type V = CellV;

    open spec fn view(&self) -> CellV {
        match self {
            Cell::Empty => CellV::Empty,
            Cell::Number { rounded, text } => CellV::Number(*rounded as int, text@),
            Cell::Text(s) => CellV::Text(s@),
            Cell::Other(s) => CellV::Other(s@),
        }
    }
}

/// A cell's rendering when it stands in a data column.
pub open spec fn cell_text_v(c: CellV) -> Seq<char> {
    match c {
        CellV::Empty => Seq::empty(),
        CellV::Number(_, t) => t,
        CellV::Text(s) => s,
        CellV::Other(t) => t,
    }
}

// ----- the inspection policy -----

/// The banned phrases that mark structurally unsupported sheets, each
/// with the reason reported for it.
pub open spec fn banned_spec() -> Seq<(Seq<char>, Seq<char>)> {
    seq![
        ("BD(Govt) Treasury Bond"@, "Government securities/bonds sheet unsupported"@),
        (
            "Fixed Deposit Account (Interest after maturity)"@,
            "Bank/interest rate sheet unsupported"@,
        ),
        ("BANK WISE ANNOUNCED INTEREST RATE STRUCTURE"@, "Bank rate announcements unsupported"@),
        ("PROFIT RATE STRUCTURE OF THE ISLAMIC BANKS"@, "Islamic banks sheet unsupported"@),
    ]
}

/// The label elements that end the header range early when they appear.
pub open spec fn skipped_spec() -> Seq<Seq<char>> {
    seq!["Weight"@]
}

/// The reason of the first banned phrase occurring in `s`, if any.
pub open spec fn first_banned(list: Seq<(Seq<char>, Seq<char>)>, s: Seq<char>) -> Option<Seq<char>>
    decreases list.len(),
{
    if list.len() == 0 {
        None
    } else if contains_seq(s, list[0].0) {
        Some(list[0].1)
    } else {
        first_banned(list.drop_first(), s)
    }
}

/// The content-inspection policy: which cell texts reject the whole sheet
/// and which header labels are skippable. The policy used during the
/// initial scan carries the configured lists; row reading uses an empty
/// one.
pub struct CellInspector {
    banned_cell_values_to_reasons: Vec<(String, String)>,
    skipped_cell_values: Vec<String>,
}

impl CellInspector {
    pub closed spec fn banned_view(&self) -> Seq<(Seq<char>, Seq<char>)> {
        self.banned_cell_values_to_reasons@.map_values(|p: (String, String)| (p.0@, p.1@))
    }

    pub closed spec fn skipped_view(&self) -> Seq<Seq<char>> {
        self.skipped_cell_values@.map_values(|v: String| v@)
    }

    /// A policy that bans nothing and skips nothing.
    pub fn no_op() -> (r: CellInspector)
        ensures
            r.banned_view() == Seq::<(Seq<char>, Seq<char>)>::empty(),
            r.skipped_view() == Seq::<Seq<char>>::empty(),
    {
        let r = CellInspector {
            banned_cell_values_to_reasons: Vec::new(),
            skipped_cell_values: Vec::new(),
        };
        proof {
            assert(r.banned_view() =~= Seq::<(Seq<char>, Seq<char>)>::empty());
            assert(r.skipped_view() =~= Seq::<Seq<char>>::empty());
        }
        r
    }

    /// The configured policy: four banned phrases naming sheet layouts
    /// that cannot be read, and the stray "Weight" label element.
    pub fn sheet_support() -> (r: CellInspector)
        ensures
            r.banned_view() == banned_spec(),
            r.skipped_view() == skipped_spec(),
    {
        let mut banned: Vec<(String, String)> = Vec::new();
        banned.push(
            (
                String::from_str("BD(Govt) Treasury Bond"),
                String::from_str("Government securities/bonds sheet unsupported"),
            ),
        );
        banned.push(
            (
                String::from_str("Fixed Deposit Account (Interest after maturity)"),
                String::from_str("Bank/interest rate sheet unsupported"),
            ),
        );
        banned.push(
            (
                String::from_str("BANK WISE ANNOUNCED INTEREST RATE STRUCTURE"),
                String::from_str("Bank rate announcements unsupported"),
            ),
        );
        banned.push(
            (
                String::from_str("PROFIT RATE STRUCTURE OF THE ISLAMIC BANKS"),
                String::from_str("Islamic banks sheet unsupported"),
            ),
        );
        let mut skipped: Vec<String> = Vec::new();
        skipped.push(String::from_str("Weight"));
        let r = CellInspector {
            banned_cell_values_to_reasons: banned,
            skipped_cell_values: skipped,
        };
        proof {
            assert(r.banned_view() =~= banned_spec());
            assert(r.skipped_view() =~= skipped_spec());
        }
        r
    }

    /// Rejects the sheet when the text holds a banned phrase, with the
    /// phrase's configured reason.
    #[verifier::loop_isolation(false)]
    fn inspect_if_unsupported(&self, value: &str) -> (r: Result<(), AnalysisError>)
        ensures
            match first_banned(self.banned_view(), value@) {
                Some(reason) => r matches Err(AnalysisError::Unsupported { reason: m }) && m@
                    == reason,
                None => r is Ok,
            },
    {
        let n = self.banned_cell_values_to_reasons.len();
        let mut i: usize = 0;
        proof {
            assert(self.banned_view().subrange(0, n as int) =~= self.banned_view());
        }
        while i < n
            invariant
                n == self.banned_view().len(),
                i <= n,
                first_banned(self.banned_view(), value@) == first_banned(
                    self.banned_view().subrange(i as int, n as int),
                    value@,
                ),
            decreases n - i,
        {
            let ghost rest = self.banned_view().subrange(i as int, n as int);
            proof {
                assert(rest[0] == self.banned_view()[i as int]);
                assert(rest.drop_first() =~= self.banned_view().subrange(i + 1, n as int));
            }
            let pair = &self.banned_cell_values_to_reasons[i];
            if contains_sub(value, pair.0.as_str()) {
                return Err(AnalysisError::unsupported(pair.1.as_str()));
            }
            i = i + 1;
        }
        proof {
            assert(self.banned_view().subrange(n as int, n as int) =~= Seq::<(
                Seq<char>,
                Seq<char>,
            )>::empty());
        }
        Ok(())
    }

    /// Whether the text exactly matches a configured skippable label.
    #[verifier::loop_isolation(false)]
    fn inspect_if_skippable(&self, value: &str) -> (r: bool)
        ensures
            r == self.skipped_view().contains(value@),
    {
        let n = self.skipped_cell_values.len();
        let mut i: usize = 0;
        while i < n
            invariant
                n == self.skipped_view().len(),
                i <= n,
                forall|j: int| 0 <= j < i ==> self.skipped_view()[j] != value@,
            decreases n - i,
        {
            proof {
                assert(self.skipped_view()[i as int] == self.skipped_cell_values@[i as int]@);
            }
            if str_eq(self.skipped_cell_values[i].as_str(), value) {
                assert(self.skipped_view().contains(value@));
                return true;
            }
            i = i + 1;
        }
        assert(!self.skipped_view().contains(value@));
        false
    }
}

// ----- cell classification -----

/// What inspecting one cell during the timestamp scan means.
pub enum CellClassification {
    Banned(Seq<char>),
    NotTimestamp,
    Context(Seq<char>),
    Yearly(YearlyTimestamp),
    Provisional,
}

pub open spec fn marker_text(m: int) -> Seq<char> {
    if m == 0 {
        "P"@
    } else if m == 1 {
        "p"@
    } else if m == 2 {
        "(P)"@
    } else {
        "(p)"@
    }
}

/// A text is provisional-marked when it ends with one of the four markers
/// and the prefix before the marker names a yearly timestamp or a month.
pub open spec fn provisional_text(s: Seq<char>) -> bool {
    exists|m: int|
        0 <= m < 4 && is_suffix(s, marker_text(m)) && ({
            let prior = s.take(s.len() - marker_text(m).len());
            yearly_of(prior) is Some || month_of(prior) is Some
        })
}

/// The annotation characters dropped from the end of a cell: asterisk,
/// revision marker, registered-mark glyph.
pub open spec fn annotation_char(c: char) -> bool {
    c == '*' || c == 'R' || c == '®'
}

/// Classification of a text cell, in rule order: banned content rejects
/// the sheet; a provisional marker; one trailing annotation character is
/// dropped; an old-base suffix discards the cell and a new-base suffix is
/// dropped; what remains is a yearly timestamp or is kept for context.
pub open spec fn classify_text(s: Seq<char>, banned: Seq<(Seq<char>, Seq<char>)>) -> CellClassification {
    match first_banned(banned, s) {
        Some(reason) => CellClassification::Banned(reason),
        None => {
            if provisional_text(s) {
                CellClassification::Provisional
            } else {
                let s1 = if s.len() > 0 && annotation_char(s.last()) {
                    s.drop_last()
                } else {
                    s
                };
                if is_suffix(s1, "(OB)"@) {
                    CellClassification::NotTimestamp
                } else {
                    let s2 = if is_suffix(s1, "(NB)"@) {
                        s1.take(s1.len() - 4)
                    } else {
                        s1
                    };
                    match yearly_of(s2) {
                        Some(t) => CellClassification::Yearly(t),
                        None => CellClassification::Context(s2),
                    }
                }
            }
        },
    }
}

/// Classification of any cell: numeric cells are calendar years exactly
/// when their rounded value lies in 1971..=current_year; text cells
/// follow the text rules; all others are no timestamp.
pub open spec fn classify_cell(
    c: CellV,
    banned: Seq<(Seq<char>, Seq<char>)>,
    current_year: int,
) -> CellClassification {
    match c {
        CellV::Empty => CellClassification::NotTimestamp,
        CellV::Number(n, _) => if 1971 <= n <= current_year {
            CellClassification::Yearly(YearlyTimestamp::Calendar(Year(n as u16)))
        } else {
            CellClassification::NotTimestamp
        },
        CellV::Text(s) => classify_text(s, banned),
        CellV::Other(_) => CellClassification::NotTimestamp,
    }
}

/// Law: a numeric cell value outside 1971..=current_year never
/// classifies as a timestamp.
pub proof fn lemma_numeric_out_of_range_is_no_timestamp(
    n: int,
    text: Seq<char>,
    banned: Seq<(Seq<char>, Seq<char>)>,
    current_year: int,
)
    requires
        n < 1971 || n > current_year,
    ensures
        classify_cell(CellV::Number(n, text), banned, current_year)
            == CellClassification::NotTimestamp,
{
}

/// What reading one cell as a timestamp yielded.
pub enum CellAsTimestamp {
    NoTimestamp,
    MayNeedContext(String),
    YearlyTimestamp(YearlyTimestamp),
    TimestampIsProvisional,
}

/// Attempts to read a cell as a timestamp, checking along the way for
/// signs that the sheet is unsupported via the provided inspector. If a
/// yearly timestamp comes back, it is guaranteed to be one.
pub fn read_cell_as_timestamp(cell: &Cell, inspector: &CellInspector, current_year: u16) -> (r:
    AnalysisResult<CellAsTimestamp>)
    ensures
        match classify_cell(cell@, inspector.banned_view(), current_year as int) {
            CellClassification::Banned(reason) => r matches Err(AnalysisError::Unsupported {
                reason: m,
            }) && m@ == reason,
            CellClassification::NotTimestamp => r matches Ok(CellAsTimestamp::NoTimestamp),
            CellClassification::Context(s) => r matches Ok(CellAsTimestamp::MayNeedContext(v)) && v@
                == s,
            CellClassification::Yearly(t) => r matches Ok(CellAsTimestamp::YearlyTimestamp(t2))
                && t2 == t,
            CellClassification::Provisional => r matches Ok(
                CellAsTimestamp::TimestampIsProvisional,
            ),
        },
{
    match cell {
        Cell::Empty => Ok(CellAsTimestamp::NoTimestamp),
        Cell::Other(_) => Ok(CellAsTimestamp::NoTimestamp),
        Cell::Number { rounded, text: _ } => {
            let n = *rounded;
            if 1971 <= n && n <= current_year as i64 {
                Ok(
                    CellAsTimestamp::YearlyTimestamp(
                        YearlyTimestamp::Calendar(Year(n as u16)),
                    ),
                )
            } else {
                Ok(CellAsTimestamp::NoTimestamp)
            }
        },
        Cell::Text(value) => read_text_cell(value.as_str(), inspector),
    }
}

/// Whether the text ends with the given provisional marker and its prefix
/// before the marker names a yearly timestamp or a month.
fn provisional_with(s: &str, marker: &str) -> (r: bool)
    ensures
        r == (is_suffix(s@, marker@) && (yearly_of(s@.take(s@.len() - marker@.len())) is Some
            || month_of(s@.take(s@.len() - marker@.len())) is Some)),
{
    if !ends_with(s, marker) {
        return false;
    }
    let slen = s.unicode_len();
    let mlen = marker.unicode_len();
    let prior = s.substring_char(0, slen - mlen);
    proof {
        assert(prior@ =~= s@.take(s@.len() - marker@.len()));
    }
    match YearlyTimestamp::from_str(prior) {
        Ok(_) => true,
        Err(_) => match Month::from_str(prior) {
            Ok(_) => true,
            Err(_) => false,
        },
    }
}

fn read_text_cell(value: &str, inspector: &CellInspector) -> (r: AnalysisResult<CellAsTimestamp>)
    ensures
        match classify_text(value@, inspector.banned_view()) {
            CellClassification::Banned(reason) => r matches Err(AnalysisError::Unsupported {
                reason: m,
            }) && m@ == reason,
            CellClassification::NotTimestamp => r matches Ok(CellAsTimestamp::NoTimestamp),
            CellClassification::Context(s) => r matches Ok(CellAsTimestamp::MayNeedContext(v)) && v@
                == s,
            CellClassification::Yearly(t) => r matches Ok(CellAsTimestamp::YearlyTimestamp(t2))
                && t2 == t,
            CellClassification::Provisional => r matches Ok(
                CellAsTimestamp::TimestampIsProvisional,
            ),
        },
{
    proof {
        reveal_strlit("P");
        reveal_strlit("p");
        reveal_strlit("(P)");
        reveal_strlit("(p)");
    }
    match inspector.inspect_if_unsupported(value) {
        Err(e) => {
            return Err(e);
        },
        Ok(()) => {},
    }
    // provisional years and months
    let p0 = provisional_with(value, "P");
    let p1 = provisional_with(value, "p");
    let p2 = provisional_with(value, "(P)");
    let p3 = provisional_with(value, "(p)");
    if p0 || p1 || p2 || p3 {
        proof {
            if p0 {
                assert(marker_text(0) == "P"@);
            } else if p1 {
                assert(marker_text(1) == "p"@);
            } else if p2 {
                assert(marker_text(2) == "(P)"@);
            } else {
                assert(marker_text(3) == "(p)"@);
            }
            assert(provisional_text(value@));
        }
        return Ok(CellAsTimestamp::TimestampIsProvisional);
    }
    proof {
        assert forall|m: int| 0 <= m < 4 implies !(is_suffix(value@, marker_text(m)) && ({
            let prior = value@.take(value@.len() - marker_text(m).len());
            yearly_of(prior) is Some || month_of(prior) is Some
        })) by {
            if m == 0 {
                assert(marker_text(m) == "P"@);
            } else if m == 1 {
                assert(marker_text(m) == "p"@);
            } else if m == 2 {
                assert(marker_text(m) == "(P)"@);
            } else {
                assert(marker_text(m) == "(p)"@);
            }
        }
        assert(!provisional_text(value@));
    }
    // drop one trailing annotation character
    let vlen = value.unicode_len();
    let stripped = if vlen > 0 {
        let last = value.get_char(vlen - 1);
        if last == '*' || last == 'R' || last == '®' {
            let w = value.substring_char(0, vlen - 1);
            proof {
                assert(w@ =~= value@.drop_last());
            }
            w
        } else {
            value
        }
    } else {
        value
    };
    // base-year markers
    if ends_with(stripped, "(OB)") {
        return Ok(CellAsTimestamp::NoTimestamp);
    }
    let slen = stripped.unicode_len();
    let remaining = if ends_with(stripped, "(NB)") {
        proof {
            reveal_strlit("(NB)");
        }
        let w = stripped.substring_char(0, slen - 4);
        proof {
            assert(w@ =~= stripped@.take(stripped@.len() - 4));
        }
        w
    } else {
        stripped
    };
    proof {
        reveal_strlit("(NB)");
    }
    match YearlyTimestamp::from_str(remaining) {
        Ok(t) => Ok(CellAsTimestamp::YearlyTimestamp(t)),
        Err(_) => Ok(CellAsTimestamp::MayNeedContext(String::from_str(remaining))),
    }
}


// ----- the sheet grid -----

pub open spec fn height_of(g: Seq<Seq<CellV>>) -> int {
    g.len() as int
}

pub open spec fn width_of(g: Seq<Seq<CellV>>) -> int {
    if g.len() == 0 {
        0
    } else {
        g[0].len() as int
    }
}

pub open spec fn grid_rect(g: Seq<Seq<CellV>>) -> bool {
    forall|i: int| 0 <= i < g.len() ==> (#[trigger] g[i]).len() == width_of(g)
}

/// A decoded sheet as a rectangular grid of typed cells.
pub struct SheetGrid {
    cells: Vec<Vec<Cell>>,
}

impl View for SheetGrid {
    type V = Seq<Seq<CellV>>;

    closed spec fn view(&self) -> Seq<Seq<CellV>> {
        self.cells@.map_values(|r: Vec<Cell>| r@.map_values(|c: Cell| c@))
    }
}

impl SheetGrid {
    pub open spec fn wf(self) -> bool {
        grid_rect(self@)
    }

    /// Accepts a grid whose rows all have one width.
    #[verifier::loop_isolation(false)]
    pub fn from_rows(cells: Vec<Vec<Cell>>) -> (r: Option<SheetGrid>)
        ensures
            r matches Some(g) ==> g.wf() && g@ == cells@.map_values(
                |row: Vec<Cell>| row@.map_values(|c: Cell| c@),
            ),
            r is None ==> !grid_rect(cells@.map_values(|row: Vec<Cell>| row@.map_values(|c: Cell| c@))),
    {
        let ghost gv = cells@.map_values(|row: Vec<Cell>| row@.map_values(|c: Cell| c@));
        let n = cells.len();
        if n == 0 {
            let g = SheetGrid { cells };
            proof {
                assert(grid_rect(g@));
            }
            return Some(g);
        }
        let w = cells[0].len();
        proof {
            assert(gv[0].len() == w);
        }
        let mut i: usize = 0;
        while i < n
            invariant
                n == gv.len(),
                i <= n,
                width_of(gv) == w,
                forall|j: int| 0 <= j < i ==> (#[trigger] gv[j]).len() == w,
            decreases n - i,
        {
            proof {
                assert(gv[i as int].len() == cells@[i as int]@.len());
            }
            if cells[i].len() != w {
                assert(!grid_rect(gv));
                return None;
            }
            i = i + 1;
        }
        let g = SheetGrid { cells };
        proof {
            assert(grid_rect(g@));
        }
        Some(g)
    }

    pub fn height(&self) -> (r: usize)
        ensures
            r == height_of(self@),
    {
        self.cells.len()
    }

    pub fn width(&self) -> (r: usize)
        ensures
            r == width_of(self@),
    {
        if self.cells.len() == 0 {
            0
        } else {
            proof {
                assert(self@[0].len() == self.cells@[0]@.len());
            }
            self.cells[0].len()
        }
    }

    /// Whether the grid holds no cell at all.
    pub fn is_empty(&self) -> (r: bool)
        ensures
            r == (height_of(self@) == 0 || width_of(self@) == 0),
    {
        self.height() == 0 || self.width() == 0
    }

    fn cell(&self, row: usize, col: usize) -> (r: &Cell)
        requires
            self.wf(),
            row < height_of(self@),
            col < width_of(self@),
        ensures
            r@ == self@[row as int][col as int],
    {
        proof {
            assert(self@[row as int].len() == width_of(self@));
            assert(self.cells@[row as int]@.len() == self@[row as int].len());
            assert(self@[row as int][col as int] == self.cells@[row as int]@[col as int]@);
        }
        &self.cells[row][col]
    }
}

// ----- phase A: locate the first timestamp -----

/// The outcome of the column-major scan for the first yearly timestamp.
pub enum ScanOutcome {
    Found(YearlyTimestamp, int, int),
    ProvisionalStop,
    BannedStop(Seq<char>),
    NothingFound,
}

/// Scans columns left to right, and rows top to bottom within each
/// column, for the first cell that signals anything: a yearly timestamp
/// fixes the data start; a provisional marker means there is nothing
/// final to read; banned content rejects the sheet.
pub open spec fn scan_from(
    g: Seq<Seq<CellV>>,
    banned: Seq<(Seq<char>, Seq<char>)>,
    cy: int,
    col: int,
    row: int,
) -> ScanOutcome
    decreases width_of(g) - col, height_of(g) - row,
{
    if col < 0 || row < 0 || col >= width_of(g) {
        ScanOutcome::NothingFound
    } else if row >= height_of(g) {
        scan_from(g, banned, cy, col + 1, 0)
    } else {
        match classify_cell(g[row][col], banned, cy) {
            CellClassification::Banned(r) => ScanOutcome::BannedStop(r),
            CellClassification::Yearly(t) => ScanOutcome::Found(t, row, col),
            CellClassification::Provisional => ScanOutcome::ProvisionalStop,
            CellClassification::NotTimestamp => scan_from(g, banned, cy, col, row + 1),
            CellClassification::Context(_) => scan_from(g, banned, cy, col, row + 1),
        }
    }
}

/// Where the data begins: the first yearly timestamp and its cell.
struct FirstYearlyTimestamp {
    value: YearlyTimestamp,
    cell: (usize, usize),
}

// ----- phase B: locate the header range -----

pub open spec fn period_cell(c: CellV) -> bool {
    c matches CellV::Text(s) && (contains_seq(s, "Period"@) || contains_seq(s, "period"@))
}

/// The first row before the data whose timestamp-column cell mentions
/// "Period": the top of the header block.
pub open spec fn label_start_from(g: Seq<Seq<CellV>>, ts_col: int, row: int, data_start: int) -> Option<int>
    decreases data_start - row,
{
    if row < 0 || row >= data_start {
        None
    } else if period_cell(g[row][ts_col]) {
        Some(row)
    } else {
        label_start_from(g, ts_col, row + 1, data_start)
    }
}

pub open spec fn skip_cell(c: CellV, skipped: Seq<Seq<char>>) -> bool {
    c matches CellV::Text(s) && skipped.contains(s)
}

/// Where the header block ends: at the first skippable label element
/// after its start, else at the data start.
pub open spec fn label_end_from(
    g: Seq<Seq<CellV>>,
    ts_col: int,
    row: int,
    data_start: int,
    skipped: Seq<Seq<char>>,
) -> int
    decreases data_start - row,
{
    if row < 0 || row >= data_start {
        data_start
    } else if skip_cell(g[row][ts_col], skipped) {
        row
    } else {
        label_end_from(g, ts_col, row + 1, data_start, skipped)
    }
}

// ----- phase C: reconstruct columns by look-behind inheritance -----

/// The label a non-empty cell contributes: its trimmed text, unless that
/// text is a small number.
pub open spec fn label_of_text(s: Seq<char>) -> Option<Seq<char>> {
    if is_u8_text(trim_ws_s(s)) {
        None
    } else {
        Some(trim_ws_s(s))
    }
}

/// The label collected at header-row offset `k` of a column, given the
/// previous column's labels and this column's labels collected so far.
/// An empty cell may borrow the previous column's label at the same row,
/// but only if this is the topmost header row or the broader category one
/// row up already matches.
pub open spec fn label_at(
    g: Seq<Seq<CellV>>,
    start: int,
    col: int,
    prev: Option<Seq<Option<Seq<char>>>>,
    own_before: Seq<Option<Seq<char>>>,
    k: int,
) -> Option<Seq<char>> {
    let c = g[start + k][col];
    if c is Empty {
        match prev {
            Some(pl) => {
                if 0 <= k < pl.len() && pl[k] is Some {
                    if k == 0 || pl[k - 1] == own_before[k - 1] {
                        pl[k]
                    } else {
                        None
                    }
                } else {
                    None
                }
            },
            None => None,
        }
    } else {
        label_of_text(cell_text_v(c))
    }
}

/// The labels of one column over the first `k` header rows.
pub open spec fn col_labels(
    g: Seq<Seq<CellV>>,
    start: int,
    col: int,
    prev: Option<Seq<Option<Seq<char>>>>,
    k: int,
) -> Seq<Option<Seq<char>>>
    decreases k,
{
    if k <= 0 {
        Seq::empty()
    } else {
        let before = col_labels(g, start, col, prev, k - 1);
        before.push(label_at(g, start, col, prev, before, k - 1))
    }
}

/// The collected labels, in row order.
pub open spec fn somes(s: Seq<Option<Seq<char>>>) -> Seq<Seq<char>>
    decreases s.len(),
{
    if s.len() == 0 {
        Seq::empty()
    } else {
        somes(s.drop_last()) + (match s.last() {
            Some(v) => seq![v],
            None => Seq::empty(),
        })
    }
}

/// The columns of the sheet from `col` rightwards: each contributes its
/// category path, and the first column with no label at all ends the run.
pub open spec fn columns_from(
    g: Seq<Seq<CellV>>,
    start: int,
    end: int,
    col: int,
    prev: Option<Seq<Option<Seq<char>>>>,
) -> Seq<(int, Seq<Seq<char>>)>
    decreases width_of(g) - col,
{
    if col < 0 || col >= width_of(g) {
        Seq::empty()
    } else {
        let labels = col_labels(g, start, col, prev, end - start);
        let path = somes(labels);
        if path.len() == 0 {
            Seq::empty()
        } else {
            seq![(col, path)] + columns_from(g, start, end, col + 1, Some(labels))
        }
    }
}

/// One reconstructed data column: its identity, its per-header-row labels
/// (for the next column's look-behind), and its position in the sheet.
struct ColumnInfo {
    column: Column,
    indexed_labels: Vec<Option<ColumnLabel>>,
    index_in_sheet: usize,
}

impl ColumnInfo {
    spec fn labels_view(&self) -> Seq<Option<Seq<char>>> {
        self.indexed_labels@.map_values(
            |o: Option<ColumnLabel>|
                match o {
                    Some(l) => Some(l@),
                    None => None,
                },
        )
    }
}

fn opt_label_eq(a: &Option<ColumnLabel>, b: &Option<ColumnLabel>) -> (r: bool)
    ensures
        r == ((match a {
            Some(l) => Some(l@),
            None => None,
        }) == (match b {
            Some(l) => Some(l@),
            None => None,
        })),
{
    match (a, b) {
        (Some(x), Some(y)) => str_eq(x.as_str(), y.as_str()),
        (None, None) => true,
        _ => false,
    }
}

fn cell_display(c: &Cell) -> (r: &str)
    ensures
        r@ == cell_text_v(c@),
{
    proof {
        reveal_strlit("");
    }
    match c {
        Cell::Empty => "",
        Cell::Number { rounded: _, text } => text.as_str(),
        Cell::Text(s) => s.as_str(),
        Cell::Other(s) => s.as_str(),
    }
}


// ----- the analyzer -----

/// Analyzes one decoded sheet and merges what it yields into the store.
pub struct SheetAnalyzer {
    pub source: String,
    pub name: String,
    pub sheet: SheetGrid,
}

impl SheetAnalyzer {
    pub open spec fn wf(self) -> bool {
        self.sheet.wf()
    }

    /// Determines the first yearly timestamp in the sheet, scanning
    /// columns before rows: period labels are reliably left-most, so this
    /// order avoids mistaking a numeric data column for a year column.
    /// A provisional cell seen first means the sheet has nothing final to
    /// offer; running out of cells means the layout is unsupported.
    #[verifier::loop_isolation(false)]
    fn find_first_timestamp(&self, inspector: &CellInspector, current_year: u16) -> (r:
        AnalysisResult<FirstYearlyTimestamp>)
        requires
            self.wf(),
        ensures
            match scan_from(self.sheet@, inspector.banned_view(), current_year as int, 0, 0) {
                ScanOutcome::Found(t, row, col) => r matches Ok(f) && f.value == t && f.cell.0
                    == row && f.cell.1 == col,
                ScanOutcome::ProvisionalStop => r matches Err(e) && e is NoData,
                ScanOutcome::BannedStop(reason) => r matches Err(AnalysisError::Unsupported {
                    reason: m,
                }) && m@ == reason,
                ScanOutcome::NothingFound => r matches Err(AnalysisError::Unsupported { reason: m })
                    && m@ == "No timestamp found"@,
            },
    {
        let ghost g = self.sheet@;
        let ghost banned = inspector.banned_view();
        let ghost cy = current_year as int;
        let width = self.sheet.width();
        let height = self.sheet.height();
        let mut cur_col: usize = 0;
        while cur_col < width
            invariant
                cur_col <= width,
                scan_from(g, banned, cy, 0, 0) == scan_from(g, banned, cy, cur_col as int, 0),
            decreases width - cur_col,
        {
            let mut cur_row: usize = 0;
            while cur_row < height
                invariant
                    cur_col < width,
                    cur_row <= height,
                    scan_from(g, banned, cy, 0, 0) == scan_from(
                        g,
                        banned,
                        cy,
                        cur_col as int,
                        cur_row as int,
                    ),
                decreases height - cur_row,
            {
                match read_cell_as_timestamp(self.sheet.cell(cur_row, cur_col), inspector, current_year) {
                    Err(e) => {
                        return Err(e);
                    },
                    Ok(CellAsTimestamp::YearlyTimestamp(timestamp)) => {
                        return Ok(
                            FirstYearlyTimestamp { value: timestamp, cell: (cur_row, cur_col) },
                        );
                    },
                    Ok(CellAsTimestamp::TimestampIsProvisional) => {
                        // Provisional data encountered: everything below
                        // will be provisional too, so there is nothing.
                        return Err(AnalysisError::NoData);
                    },
                    Ok(CellAsTimestamp::NoTimestamp) => {},
                    Ok(CellAsTimestamp::MayNeedContext(_)) => {},
                }
                cur_row = cur_row + 1;
            }
            proof {
                assert(scan_from(g, banned, cy, cur_col as int, height as int) == scan_from(
                    g,
                    banned,
                    cy,
                    cur_col as int + 1,
                    0,
                ));
            }
            cur_col = cur_col + 1;
        }
        assert(scan_from(g, banned, cy, width as int, 0) == ScanOutcome::NothingFound);
        Err(AnalysisError::unsupported("No timestamp found"))
    }

    /// Finds the header range above the data: forward from the top for a
    /// timestamp-column cell mentioning "Period", then forward from there
    /// for a configured skippable label element, which ends the range
    /// early.
    #[verifier::loop_isolation(false)]
    fn find_label_range(&self, ts_col: usize, data_start: usize, inspector: &CellInspector) -> (r:
        AnalysisResult<(usize, usize)>)
        requires
            self.wf(),
            ts_col < width_of(self.sheet@),
            data_start <= height_of(self.sheet@),
        ensures
            data_start == 0 ==> (r matches Err(AnalysisError::Unsupported { reason: m }) && m@
                == "Data starts in the first row. No labels possible"@),
            data_start > 0 ==> match label_start_from(self.sheet@, ts_col as int, 0, data_start as int) {
                None => r matches Err(AnalysisError::Unsupported { reason: m }) && m@
                    == "Unable to find label start index"@,
                Some(ls) => r matches Ok(range) && range.0 == ls && range.1 == label_end_from(
                    self.sheet@,
                    ts_col as int,
                    ls,
                    data_start as int,
                    inspector.skipped_view(),
                ),
            },
    {
        let ghost g = self.sheet@;
        if data_start == 0 {
            return Err(AnalysisError::unsupported("Data starts in the first row. No labels possible"));
        }
        proof {
            reveal_strlit("Period");
            reveal_strlit("period");
        }
        let mut row: usize = 0;
        let mut label_start: usize = 0;
        let mut found = false;
        while row < data_start
            invariant
                row <= data_start,
                !found,
                label_start_from(g, ts_col as int, 0, data_start as int) == label_start_from(
                    g,
                    ts_col as int,
                    row as int,
                    data_start as int,
                ),
            decreases data_start - row,
        {
            let cell = self.sheet.cell(row, ts_col);
            match cell {
                Cell::Text(value) => {
                    if contains_sub(value.as_str(), "Period") || contains_sub(value.as_str(), "period") {
                        label_start = row;
                        found = true;
                        break ;
                    }
                },
                _ => {},
            }
            row = row + 1;
        }
        if !found {
            proof {
                assert(label_start_from(g, ts_col as int, data_start as int, data_start as int)
                    is None);
            }
            return Err(AnalysisError::unsupported("Unable to find label start index"));
        }
        proof {
            assert(label_start_from(g, ts_col as int, 0, data_start as int) == Some(
                label_start as int,
            ));
        }
        // scan for skippable label values ending the range early
        let mut cursor: usize = label_start;
        while cursor < data_start
            invariant
                label_start <= cursor <= data_start,
                label_end_from(g, ts_col as int, label_start as int, data_start as int, inspector.skipped_view())
                    == label_end_from(
                    g,
                    ts_col as int,
                    cursor as int,
                    data_start as int,
                    inspector.skipped_view(),
                ),
            decreases data_start - cursor,
        {
            let cell = self.sheet.cell(cursor, ts_col);
            match cell {
                Cell::Text(value) => {
                    if inspector.inspect_if_skippable(value.as_str()) {
                        return Ok((label_start, cursor));
                    }
                },
                _ => {},
            }
            cursor = cursor + 1;
        }
        Ok((label_start, data_start))
    }
}


impl SheetAnalyzer {
    /// Generates one column's information from the header range. Yields
    /// nothing when the column collects no label at all, which ends the
    /// contiguous column run. Columns must be generated left to right:
    /// each may borrow labels from its immediate predecessor.
    #[verifier::loop_isolation(false)]
    fn generate_column_info(
        &self,
        label_start: usize,
        label_end: usize,
        col_index: usize,
        previous_column: Option<&ColumnInfo>,
    ) -> (r: Option<ColumnInfo>)
        requires
            self.wf(),
            label_start <= label_end <= height_of(self.sheet@),
            col_index < width_of(self.sheet@),
            previous_column matches Some(p) ==> p.labels_view().len() == label_end - label_start,
        ensures
            ({
                let labels = col_labels(
                    self.sheet@,
                    label_start as int,
                    col_index as int,
                    match previous_column {
                        Some(p) => Some(p.labels_view()),
                        None => None,
                    },
                    label_end - label_start,
                );
                &&& (r is Some <==> somes(labels).len() > 0)
                &&& (r matches Some(info) ==> info.labels_view() == labels && info.column@ == somes(
                    labels,
                ) && info.column.wf() && info.index_in_sheet == col_index
                    && info.indexed_labels@.len() == label_end - label_start)
            }),
    {
        let ghost g = self.sheet@;
        let ghost prevv: Option<Seq<Option<Seq<char>>>> = match previous_column {
            Some(p) => Some(p.labels_view()),
            None => None,
        };
        let count = label_end - label_start;
        let mut indexed_labels: Vec<Option<ColumnLabel>> = Vec::new();
        let mut label_categorization: Vec<ColumnLabel> = Vec::new();
        let mut k: usize = 0;
        proof {
            assert(indexed_labels@.map_values(
                |o: Option<ColumnLabel>|
                    match o {
                        Some(l) => Some(l@),
                        None => None,
                    },
            ) =~= col_labels(g, label_start as int, col_index as int, prevv, 0));
            assert(label_categorization@.map_values(|l: ColumnLabel| l@) =~= somes(
                col_labels(g, label_start as int, col_index as int, prevv, 0),
            ));
        }
        while k < count
            invariant
                k <= count,
                count == label_end - label_start,
                indexed_labels@.len() == k,
                indexed_labels@.map_values(
                    |o: Option<ColumnLabel>|
                        match o {
                            Some(l) => Some(l@),
                            None => None,
                        },
                ) == col_labels(g, label_start as int, col_index as int, prevv, k as int),
                label_categorization@.map_values(|l: ColumnLabel| l@) == somes(
                    col_labels(g, label_start as int, col_index as int, prevv, k as int),
                ),
            decreases count - k,
        {
            let ghost before = col_labels(g, label_start as int, col_index as int, prevv, k as int);
            let cell = self.sheet.cell(label_start + k, col_index);
            let label: Option<ColumnLabel> = match cell {
                Cell::Empty => {
                    // an empty cell borrows from the column to the left,
                    // when the nesting above already matches
                    match previous_column {
                        Some(prev) => {
                            proof {
                                assert(prev.labels_view()[k as int] == (match prev.indexed_labels@[k as int] {
                                    Some(l) => Some(l@),
                                    None => None,
                                }));
                            }
                            match &prev.indexed_labels[k] {
                                Some(candidate) => {
                                    let nested = if k == 0 {
                                        true
                                    } else {
                                        proof {
                                            assert(prev.labels_view()[k - 1] == (match prev.indexed_labels@[k - 1] {
                                                Some(l) => Some(l@),
                                                None => None,
                                            }));
                                            assert(before[k - 1] == (match indexed_labels@[k - 1] {
                                                Some(l) => Some(l@),
                                                None => None,
                                            }));
                                        }
                                        opt_label_eq(&prev.indexed_labels[k - 1], &indexed_labels[k - 1])
                                    };
                                    if nested {
                                        Some(candidate.duplicate())
                                    } else {
                                        None
                                    }
                                },
                                None => None,
                            }
                        },
                        None => None,
                    }
                },
                _ => ColumnLabel::create(cell_display(cell)),
            };
            match label {
                Some(l) => {
                    let copy = l.duplicate();
                    indexed_labels.push(Some(l));
                    label_categorization.push(copy);
                },
                None => {
                    indexed_labels.push(None);
                },
            }
            proof {
                let after = col_labels(g, label_start as int, col_index as int, prevv, k + 1);
                assert(after == before.push(
                    label_at(g, label_start as int, col_index as int, prevv, before, k as int),
                ));
                assert(after.drop_last() =~= before);
                assert(somes(after) == somes(before) + (match after.last() {
                    Some(v) => seq![v],
                    None => Seq::<Seq<char>>::empty(),
                }));
                assert(indexed_labels@.map_values(
                    |o: Option<ColumnLabel>|
                        match o {
                            Some(l) => Some(l@),
                            None => None,
                        },
                ) =~= after);
                assert(label_categorization@.map_values(|l: ColumnLabel| l@) =~= somes(after));
            }
            k = k + 1;
        }
        let ghost labels = col_labels(g, label_start as int, col_index as int, prevv, count as int);
        if label_categorization.len() == 0 {
            proof {
                assert(somes(labels).len() == 0);
            }
            None
        } else {
            match Column::new(label_categorization) {
                Ok(column) => Some(
                    ColumnInfo { column, indexed_labels, index_in_sheet: col_index },
                ),
                Err(_) => {
                    proof {
                        assert(false);
                    }
                    None
                },
            }
        }
    }

    /// Reconstructs the contiguous run of data columns to the right of
    /// the timestamp column, strictly left to right.
    #[verifier::loop_isolation(false)]
    fn load_columns(&self, label_start: usize, label_end: usize, ts_col: usize) -> (r: Vec<
        ColumnInfo,
    >)
        requires
            self.wf(),
            label_start <= label_end <= height_of(self.sheet@),
            ts_col < width_of(self.sheet@),
        ensures
            r@.map_values(|ci: ColumnInfo| (ci.index_in_sheet as int, ci.column@)) == columns_from(
                self.sheet@,
                label_start as int,
                label_end as int,
                ts_col + 1,
                None,
            ),
            forall|i: int|
                0 <= i < r@.len() ==> (#[trigger] r@[i]).index_in_sheet < width_of(self.sheet@)
                    && r@[i].column.wf(),
    {
        let ghost g = self.sheet@;
        let ghost full = columns_from(g, label_start as int, label_end as int, ts_col + 1, None);
        let width = self.sheet.width();
        let mut columns: Vec<ColumnInfo> = Vec::new();
        let ghost mut prevv: Option<Seq<Option<Seq<char>>>> = None;
        let mut col_index = ts_col + 1;
        proof {
            assert(columns@.map_values(|ci: ColumnInfo| (ci.index_in_sheet as int, ci.column@)) =~= Seq::<(
                int,
                Seq<Seq<char>>,
            )>::empty());
        }
        while col_index < width
            invariant
                ts_col + 1 <= col_index,
                full == columns@.map_values(|ci: ColumnInfo| (ci.index_in_sheet as int, ci.column@))
                    + columns_from(g, label_start as int, label_end as int, col_index as int, prevv),
                columns@.len() == 0 ==> col_index == ts_col + 1 && prevv is None,
                columns@.len() > 0 ==> prevv == Some(columns@.last().labels_view())
                    && columns@.last().labels_view().len() == label_end - label_start,
                forall|i: int|
                    0 <= i < columns@.len() ==> (#[trigger] columns@[i]).index_in_sheet < width
                        && columns@[i].column.wf(),
            decreases width - col_index,
        {
            let prev_ref: Option<&ColumnInfo> = if columns.len() > 0 {
                Some(&columns[columns.len() - 1])
            } else {
                None
            };
            proof {
                match prev_ref {
                    Some(p) => {
                        assert(columns@.last() == columns@[columns@.len() - 1]);
                    },
                    None => {},
                }
            }
            let column_info = self.generate_column_info(label_start, label_end, col_index, prev_ref);
            let ghost labels = col_labels(
                g,
                label_start as int,
                col_index as int,
                prevv,
                label_end - label_start,
            );
            let ghost old_map = columns@.map_values(
                |ci: ColumnInfo| (ci.index_in_sheet as int, ci.column@),
            );
            let ghost prev_old = prevv;
            match column_info {
                Some(info) => {
                    columns.push(info);
                    proof {
                        assert(somes(labels).len() > 0);
                        assert(columns_from(
                            g,
                            label_start as int,
                            label_end as int,
                            col_index as int,
                            prev_old,
                        ) == seq![(col_index as int, somes(labels))] + columns_from(
                            g,
                            label_start as int,
                            label_end as int,
                            col_index + 1,
                            Some(labels),
                        ));
                        prevv = Some(labels);
                        assert(columns@.last().labels_view() == labels);
                        assert(labels.len() == label_end - label_start);
                        let new_map = columns@.map_values(
                            |ci: ColumnInfo| (ci.index_in_sheet as int, ci.column@),
                        );
                        assert(new_map =~= old_map.push((col_index as int, somes(labels))));
                        assert(old_map + (seq![(col_index as int, somes(labels))] + columns_from(
                            g,
                            label_start as int,
                            label_end as int,
                            col_index + 1,
                            Some(labels),
                        )) =~= new_map + columns_from(
                            g,
                            label_start as int,
                            label_end as int,
                            col_index + 1,
                            Some(labels),
                        ));
                    }
                },
                None => {
                    proof {
                        assert(columns_from(g, label_start as int, label_end as int, col_index as int, prevv)
                            =~= Seq::<(int, Seq<Seq<char>>)>::empty());
                        assert(full =~= columns@.map_values(
                            |ci: ColumnInfo| (ci.index_in_sheet as int, ci.column@),
                        ));
                    }
                    return columns;
                },
            };
            col_index = col_index + 1;
        }
        proof {
            assert(columns_from(g, label_start as int, label_end as int, col_index as int, prevv)
                =~= Seq::<(int, Seq<Seq<char>>)>::empty());
            assert(full =~= columns@.map_values(
                |ci: ColumnInfo| (ci.index_in_sheet as int, ci.column@),
            ));
        }
        columns
    }
}


// ----- row streaming -----

/// The cells a row contributes: for each configured column in order, the
/// cell's rendering, empty cells skipped; a column path occurring twice
/// keeps the later cell's value.
pub open spec fn row_pairs_upto(
    g: Seq<Seq<CellV>>,
    r: int,
    cols: Seq<(int, Seq<Seq<char>>)>,
    n: int,
) -> Seq<(Seq<Seq<char>>, Seq<char>)>
    decreases n,
{
    if n <= 0 {
        Seq::empty()
    } else {
        let before = row_pairs_upto(g, r, cols, n - 1);
        let c = g[r][cols[n - 1].0];
        if c is Empty {
            before
        } else {
            upsert(before, cols[n - 1].1, cell_text_v(c))
        }
    }
}

pub open spec fn row_pairs(g: Seq<Seq<CellV>>, r: int, cols: Seq<(int, Seq<Seq<char>>)>) -> Seq<
    (Seq<Seq<char>>, Seq<char>),
> {
    row_pairs_upto(g, r, cols, cols.len() as int)
}

pub proof fn lemma_row_pairs_unique(g: Seq<Seq<CellV>>, r: int, cols: Seq<(int, Seq<Seq<char>>)>, n: int)
    ensures
        unique_keys(row_pairs_upto(g, r, cols, n)),
        row_pairs_upto(g, r, cols, n).len() <= (if n >= 0 {
            n
        } else {
            0
        }),
    decreases n,
{
    if n > 0 {
        lemma_row_pairs_unique(g, r, cols, n - 1);
        let before = row_pairs_upto(g, r, cols, n - 1);
        let c = g[r][cols[n - 1].0];
        if !(c is Empty) {
            crate::merge::lemma_upsert(before, cols[n - 1].1, cell_text_v(c), cols[n - 1].1);
        }
    }
}

/// The fill-ratio rule: a row is kept when it populates every expected
/// column, or at least 15 percent of them; below that it is dropped as
/// noise.
pub open spec fn keep_row(populated: int, expected: int) -> bool {
    populated == expected || 20 * populated >= 3 * expected
}

/// Law (fill ratio): a fully populated row is always kept, and below
/// the 15 percent threshold a row is dropped.
pub proof fn lemma_fill_ratio(populated: int, expected: int)
    ensures
        populated == expected ==> keep_row(populated, expected),
        20 * populated < 3 * expected ==> (keep_row(populated, expected) <==> populated
            == expected),
{
}

pub open spec fn invalid_context_reason(r: int) -> Seq<char> {
    "Found invalid timestamp (non-parsable) in row "@ + dec_rep(r)
}

pub open spec fn invalid_cell_reason(r: int) -> Seq<char> {
    "Found invalid timestamp (cell type) in row "@ + dec_rep(r)
}

/// Streams the rows from `r` to the bottom of the grid, carrying the
/// running current year. Yearly cells update the year; other period
/// tokens are read under it; a provisional cell, an empty cell, or a
/// trailing-table marker ("Source"/"Note") ends the table normally;
/// anything else is an invalid timestamp and fails the sheet.
pub open spec fn stream_from(
    g: Seq<Seq<CellV>>,
    cols: Seq<(int, Seq<Seq<char>>)>,
    ts_col: int,
    r: int,
    year: Year,
    cy: int,
) -> Result<Seq<(Timestamp, Seq<(Seq<Seq<char>>, Seq<char>)>)>, Seq<char>>
    decreases height_of(g) - r, 1int,
{
    if r < 0 || r >= height_of(g) {
        Ok(Seq::empty())
    } else {
        let c = g[r][ts_col];
        match classify_cell(c, Seq::empty(), cy) {
            CellClassification::Banned(_) => Ok(Seq::empty()),
            CellClassification::Provisional => Ok(Seq::empty()),
            CellClassification::NotTimestamp => if c is Empty {
                Ok(Seq::empty())
            } else {
                Err(invalid_cell_reason(r))
            },
            CellClassification::Yearly(t) => stream_step(
                g,
                cols,
                ts_col,
                r,
                t.year_of(),
                cy,
                t.timestamp_of(),
            ),
            CellClassification::Context(s) => match under_year_of(year, s) {
                Some(ts) => stream_step(g, cols, ts_col, r, year, cy, ts),
                None => if contains_seq(s, "Source"@) || contains_seq(s, "Note"@) {
                    Ok(Seq::empty())
                } else {
                    Err(invalid_context_reason(r))
                },
            },
        }
    }
}

/// One streamed row: its cells are collected, the fill-ratio rule is
/// applied, and streaming continues below with the updated year.
pub open spec fn stream_step(
    g: Seq<Seq<CellV>>,
    cols: Seq<(int, Seq<Seq<char>>)>,
    ts_col: int,
    r: int,
    year: Year,
    cy: int,
    ts: Timestamp,
) -> Result<Seq<(Timestamp, Seq<(Seq<Seq<char>>, Seq<char>)>)>, Seq<char>>
    decreases height_of(g) - r, 0int,
{
    if r < 0 || r >= height_of(g) {
        Ok(Seq::empty())
    } else {
        let pairs = row_pairs(g, r, cols);
        match stream_from(g, cols, ts_col, r + 1, year, cy) {
            Ok(rows) => Ok(
                (if keep_row(pairs.len() as int, cols.len() as int) {
                    seq![(ts, pairs)]
                } else {
                    Seq::empty()
                }) + rows,
            ),
            Err(e) => Err(e),
        }
    }
}

// ----- the whole analysis, as one function of the grid -----

/// Why a sheet yielded nothing, at the model level.
pub enum FailSpec {
    Unsupported(Seq<char>),
    NoData,
}

pub open spec fn matches_failure(e: AnalysisError, f: FailSpec) -> bool {
    match f {
        FailSpec::NoData => e is NoData,
        FailSpec::Unsupported(reason) => e matches AnalysisError::Unsupported { reason: m } && m@
            == reason,
    }
}

/// The three phases over one grid: locate the first timestamp, locate
/// the header range, reconstruct the columns, then stream the rows. Any
/// phase failing fails the sheet atomically, with no rows produced.
pub open spec fn analyze_spec(g: Seq<Seq<CellV>>, cy: int) -> Result<
    Seq<(Timestamp, Seq<(Seq<Seq<char>>, Seq<char>)>)>,
    FailSpec,
> {
    if height_of(g) == 0 || width_of(g) == 0 {
        Err(FailSpec::NoData)
    } else {
        match scan_from(g, banned_spec(), cy, 0, 0) {
            ScanOutcome::BannedStop(reason) => Err(FailSpec::Unsupported(reason)),
            ScanOutcome::ProvisionalStop => Err(FailSpec::NoData),
            ScanOutcome::NothingFound => Err(FailSpec::Unsupported("No timestamp found"@)),
            ScanOutcome::Found(t, row, col) => {
                if row == 0 {
                    Err(FailSpec::Unsupported("Data starts in the first row. No labels possible"@))
                } else {
                    match label_start_from(g, col, 0, row) {
                        None => Err(FailSpec::Unsupported("Unable to find label start index"@)),
                        Some(ls) => {
                            let le = label_end_from(g, col, ls, row, skipped_spec());
                            let cols = columns_from(g, ls, le, col + 1, None);
                            match stream_from(g, cols, col, row, t.year_of(), cy) {
                                Ok(rows) => Ok(rows),
                                Err(reason) => Err(FailSpec::Unsupported(reason)),
                            }
                        },
                    }
                }
            },
        }
    }
}


/// The model of a reconstructed column list: position and path of each.
spec fn cols_view(s: Seq<ColumnInfo>) -> Seq<(int, Seq<Seq<char>>)> {
    s.map_values(|ci: ColumnInfo| (ci.index_in_sheet as int, ci.column@))
}

proof fn lemma_scan_found_bounds(
    g: Seq<Seq<CellV>>,
    banned: Seq<(Seq<char>, Seq<char>)>,
    cy: int,
    col: int,
    row: int,
)
    requires
        0 <= col,
        0 <= row,
        scan_from(g, banned, cy, col, row) matches ScanOutcome::Found(t, r2, c2),
    ensures
        scan_from(g, banned, cy, col, row) matches ScanOutcome::Found(t, r2, c2) && 0 <= r2
            < height_of(g) && 0 <= c2 < width_of(g),
    decreases width_of(g) - col, height_of(g) - row,
{
    if col >= width_of(g) {
    } else if row >= height_of(g) {
        lemma_scan_found_bounds(g, banned, cy, col + 1, 0);
    } else {
        match classify_cell(g[row][col], banned, cy) {
            CellClassification::NotTimestamp => {
                lemma_scan_found_bounds(g, banned, cy, col, row + 1);
            },
            CellClassification::Context(_) => {
                lemma_scan_found_bounds(g, banned, cy, col, row + 1);
            },
            _ => {},
        }
    }
}

proof fn lemma_label_start_bounds(g: Seq<Seq<CellV>>, ts_col: int, row: int, data_start: int)
    requires
        0 <= row,
        label_start_from(g, ts_col, row, data_start) is Some,
    ensures
        row <= label_start_from(g, ts_col, row, data_start)->Some_0 < data_start,
    decreases data_start - row,
{
    if row < data_start && !period_cell(g[row][ts_col]) {
        lemma_label_start_bounds(g, ts_col, row + 1, data_start);
    }
}

proof fn lemma_label_end_bounds(
    g: Seq<Seq<CellV>>,
    ts_col: int,
    row: int,
    data_start: int,
    skipped: Seq<Seq<char>>,
)
    requires
        0 <= row <= data_start,
    ensures
        row <= label_end_from(g, ts_col, row, data_start, skipped) <= data_start,
    decreases data_start - row,
{
    if row < data_start && !skip_cell(g[row][ts_col], skipped) {
        lemma_label_end_bounds(g, ts_col, row + 1, data_start, skipped);
    }
}

impl SheetAnalyzer {
    /// Collects one row's cells against the configured columns, skipping
    /// empty cells.
    #[verifier::loop_isolation(false)]
    fn read_row(&self, cols: &Vec<ColumnInfo>, r: usize) -> (row: RowData)
        requires
            self.wf(),
            r < height_of(self.sheet@),
            forall|i: int|
                0 <= i < cols@.len() ==> (#[trigger] cols@[i]).index_in_sheet < width_of(
                    self.sheet@,
                ),
        ensures
            row.wf(),
            row@ == row_pairs(self.sheet@, r as int, cols_view(cols@)),
    {
        let ghost g = self.sheet@;
        let ghost cv = cols_view(cols@);
        let n = cols.len();
        let mut row = RowData::default();
        let mut i: usize = 0;
        proof {
            assert(row@ =~= row_pairs_upto(g, r as int, cv, 0));
        }
        while i < n
            invariant
                i <= n,
                n == cv.len(),
                row.wf(),
                row@ == row_pairs_upto(g, r as int, cv, i as int),
            decreases n - i,
        {
            proof {
                assert(cv[i as int] == (cols@[i as int].index_in_sheet as int, cols@[i as int].column@));
            }
            let info = &cols[i];
            let cell = self.sheet.cell(r, info.index_in_sheet);
            match cell {
                Cell::Empty => {},
                _ => {
                    let value = String::from_str(cell_display(cell));
                    row.populate(&info.column, value);
                },
            }
            i = i + 1;
        }
        row
    }

    /// Reads the row at `r` into the stream and continues below it.
    #[verifier::loop_isolation(false)]
    fn stream_row_and_rest(
        &self,
        cols: &Vec<ColumnInfo>,
        ts_col: usize,
        r: usize,
        year: Year,
        current_year: u16,
        ts: Timestamp,
    ) -> (res: Result<Vec<(Timestamp, RowData)>, String>)
        requires
            self.wf(),
            ts_col < width_of(self.sheet@),
            r < height_of(self.sheet@),
            forall|i: int|
                0 <= i < cols@.len() ==> (#[trigger] cols@[i]).index_in_sheet < width_of(
                    self.sheet@,
                ),
        ensures
            ({
                let spec_res = stream_step(
                    self.sheet@,
                    cols_view(cols@),
                    ts_col as int,
                    r as int,
                    year,
                    current_year as int,
                    ts,
                );
                match spec_res {
                    Ok(rows) => res matches Ok(v) && v@.map_values(
                        |e: (Timestamp, RowData)| (e.0, e.1@),
                    ) == rows && (forall|i: int|
                        0 <= i < v@.len() ==> (#[trigger] v@[i]).1.wf()),
                    Err(reason) => res matches Err(m) && m@ == reason,
                }
            }),
        decreases height_of(self.sheet@) - r, 0int,
    {
        let ghost g = self.sheet@;
        let ghost cv = cols_view(cols@);
        let height = self.sheet.height();
        let row = self.read_row(cols, r);
        let populated = row.len();
        let expected = cols.len();
        let keep = populated == expected || (populated as u128) * 20 >= (expected as u128) * 3;
        proof {
            assert(keep == keep_row(row@.len() as int, cv.len() as int));
        }
        match self.stream_rows(cols, ts_col, r + 1, year, current_year) {
            Ok(rest) => {
                let ghost rest_map = rest@.map_values(|e: (Timestamp, RowData)| (e.0, e.1@));
                if keep {
                    let mut v = rest;
                    v.insert(0, (ts, row));
                    proof {
                        assert(v@.map_values(|e: (Timestamp, RowData)| (e.0, e.1@)) =~= seq![
                            (ts, row@),
                        ] + rest_map);
                        assert(forall|i: int|
                            0 <= i < v@.len() ==> (#[trigger] v@[i]).1.wf());
                    }
                    Ok(v)
                } else {
                    proof {
                        assert(Seq::<(Timestamp, Seq<(Seq<Seq<char>>, Seq<char>)>)>::empty()
                            + rest_map =~= rest_map);
                    }
                    Ok(rest)
                }
            },
            Err(e) => Err(e),
        }
    }

    /// Streams the rows from `r` downwards, keeping a running current
    /// year, until the grid ends, an empty or provisional timestamp cell
    /// ends the table, or an invalid timestamp fails the sheet.
    #[verifier::loop_isolation(false)]
    fn stream_rows(
        &self,
        cols: &Vec<ColumnInfo>,
        ts_col: usize,
        r: usize,
        year: Year,
        current_year: u16,
    ) -> (res: Result<Vec<(Timestamp, RowData)>, String>)
        requires
            self.wf(),
            ts_col < width_of(self.sheet@),
            r <= height_of(self.sheet@),
            forall|i: int|
                0 <= i < cols@.len() ==> (#[trigger] cols@[i]).index_in_sheet < width_of(
                    self.sheet@,
                ),
        ensures
            ({
                let spec_res = stream_from(
                    self.sheet@,
                    cols_view(cols@),
                    ts_col as int,
                    r as int,
                    year,
                    current_year as int,
                );
                match spec_res {
                    Ok(rows) => res matches Ok(v) && v@.map_values(
                        |e: (Timestamp, RowData)| (e.0, e.1@),
                    ) == rows && (forall|i: int|
                        0 <= i < v@.len() ==> (#[trigger] v@[i]).1.wf()),
                    Err(reason) => res matches Err(m) && m@ == reason,
                }
            }),
        decreases height_of(self.sheet@) - r, 1int,
    {
        let ghost g = self.sheet@;
        let ghost cv = cols_view(cols@);
        let height = self.sheet.height();
        if r >= height {
            let v: Vec<(Timestamp, RowData)> = Vec::new();
            proof {
                assert(v@.map_values(|e: (Timestamp, RowData)| (e.0, e.1@)) =~= Seq::<(
                    Timestamp,
                    Seq<(Seq<Seq<char>>, Seq<char>)>,
                )>::empty());
            }
            return Ok(v);
        }
        let cell = self.sheet.cell(r, ts_col);
        let no_op = CellInspector::no_op();
        proof {
            assert(first_banned(no_op.banned_view(), cell_text_v(cell@)) is None);
        }
        match read_cell_as_timestamp(cell, &no_op, current_year) {
            Err(_) => {
                // an empty banned list never rejects a cell
                proof {
                    match cell@ {
                        CellV::Text(s) => {
                            assert(first_banned(no_op.banned_view(), s) is None);
                        },
                        _ => {},
                    }
                    assert(false);
                }
                Err(String::new())
            },
            Ok(CellAsTimestamp::YearlyTimestamp(t)) => {
                let ts = Timestamp::from_yearly(t);
                let next_year = Year::from_yearly(t);
                self.stream_row_and_rest(cols, ts_col, r, next_year, current_year, ts)
            },
            Ok(CellAsTimestamp::MayNeedContext(text)) => {
                match Timestamp::try_from(year, text.as_str()) {
                    Ok(ts) => self.stream_row_and_rest(cols, ts_col, r, year, current_year, ts),
                    Err(_) => {
                        proof {
                            reveal_strlit("Source");
                            reveal_strlit("Note");
                        }
                        if contains_sub(text.as_str(), "Source") || contains_sub(text.as_str(), "Note") {
                            // the trailing mentions at the very end of the column
                            let v: Vec<(Timestamp, RowData)> = Vec::new();
                            proof {
                                assert(v@.map_values(|e: (Timestamp, RowData)| (e.0, e.1@)) =~= Seq::<
                                    (Timestamp, Seq<(Seq<Seq<char>>, Seq<char>)>),
                                >::empty());
                            }
                            Ok(v)
                        } else {
                            let mut m = String::from_str("Found invalid timestamp (non-parsable) in row ");
                            let digits = dec_string(r as u64);
                            m.append(digits.as_str());
                            Err(m)
                        }
                    },
                }
            },
            Ok(CellAsTimestamp::NoTimestamp) => {
                match cell {
                    Cell::Empty => {
                        let v: Vec<(Timestamp, RowData)> = Vec::new();
                        proof {
                            assert(v@.map_values(|e: (Timestamp, RowData)| (e.0, e.1@)) =~= Seq::<(
                                Timestamp,
                                Seq<(Seq<Seq<char>>, Seq<char>)>,
                            )>::empty());
                        }
                        Ok(v)
                    },
                    _ => {
                        let mut m = String::from_str("Found invalid timestamp (cell type) in row ");
                        let digits = dec_string(r as u64);
                        m.append(digits.as_str());
                        Err(m)
                    },
                }
            },
            Ok(CellAsTimestamp::TimestampIsProvisional) => {
                // remaining rows are unreliable by convention; stop
                // normally without error
                let v: Vec<(Timestamp, RowData)> = Vec::new();
                proof {
                    assert(v@.map_values(|e: (Timestamp, RowData)| (e.0, e.1@)) =~= Seq::<(
                        Timestamp,
                        Seq<(Seq<Seq<char>>, Seq<char>)>,
                    )>::empty());
                }
                Ok(v)
            },
        }
    }

    /// Accepts and merges the data of this sheet into the store: the
    /// whole three-phase analysis followed by row streaming, failing
    /// atomically — on any failure the store is left untouched.
    #[verifier::loop_isolation(false)]
    pub fn merge_data_with_year(&self, output: &mut MergeXL, current_year: u16) -> (r:
        AnalysisResult<()>)
        requires
            self.wf(),
            old(output).wf(),
        ensures
            final(output).wf(),
            match analyze_spec(self.sheet@, current_year as int) {
                Ok(rows) => r is Ok && final(output)@ == store_fold(old(output)@, rows),
                Err(f) => (r matches Err(e) && matches_failure(e, f) && final(output)@ == old(
                    output,
                )@),
            },
    {
        let ghost g = self.sheet@;
        let ghost cy = current_year as int;
        if self.sheet.is_empty() {
            return Err(AnalysisError::NoData);
        }
        let inspector = CellInspector::sheet_support();
        let first = match self.find_first_timestamp(&inspector, current_year) {
            Ok(f) => f,
            Err(e) => {
                return Err(e);
            },
        };
        proof {
            lemma_scan_found_bounds(g, banned_spec(), cy, 0, 0);
        }
        let (data_start_row, timestamp_col) = first.cell;
        let range = match self.find_label_range(timestamp_col, data_start_row, &inspector) {
            Ok(x) => x,
            Err(e) => {
                return Err(e);
            },
        };
        proof {
            lemma_label_start_bounds(g, timestamp_col as int, 0, data_start_row as int);
            lemma_label_end_bounds(
                g,
                timestamp_col as int,
                range.0 as int,
                data_start_row as int,
                skipped_spec(),
            );
        }
        let columns = self.load_columns(range.0, range.1, timestamp_col);
        let year0 = Year::from_yearly(first.value);
        match self.stream_rows(&columns, timestamp_col, data_start_row, year0, current_year) {
            Err(m) => Err(AnalysisError::Unsupported { reason: m }),
            Ok(rows) => {
                let ghost all = rows@.map_values(|e: (Timestamp, RowData)| (e.0, e.1@));
                let ghost st0 = output@;
                let mut remaining = rows;
                proof {
                    assert(remaining@.map_values(|e: (Timestamp, RowData)| (e.0, e.1@)) == all);
                }
                while remaining.len() > 0
                    invariant
                        output.wf(),
                        store_fold(st0, all) == store_fold(
                            output@,
                            remaining@.map_values(|e: (Timestamp, RowData)| (e.0, e.1@)),
                        ),
                        forall|i: int|
                            0 <= i < remaining@.len() ==> (#[trigger] remaining@[i]).1.wf(),
                    decreases remaining@.len(),
                {
                    let ghost rem_map = remaining@.map_values(|e: (Timestamp, RowData)| (e.0, e.1@));
                    let ghost cur = output@;
                    let (t, row) = remaining.remove(0);
                    output.add_row(t, row);
                    proof {
                        assert(remaining@.map_values(|e: (Timestamp, RowData)| (e.0, e.1@)) =~= rem_map.drop_first());
                        assert(rem_map[0] == (t, row@));
                        assert(store_fold(cur, rem_map) == store_fold(
                            store_add(cur, t, row@),
                            rem_map.drop_first(),
                        ));
                    }
                }
                proof {
                    assert(remaining@.map_values(|e: (Timestamp, RowData)| (e.0, e.1@)) =~= Seq::<(
                        Timestamp,
                        Seq<(Seq<Seq<char>>, Seq<char>)>,
                    )>::empty());
                }
                Ok(())
            },
        }
    }

    /// How one analysis run relates the store before and after to its
    /// result, for the calendar year the clock gave.
    pub open spec fn merge_outcome(
        g: Seq<Seq<CellV>>,
        st0: Seq<(FrequencyClass, SheetV)>,
        st1: Seq<(FrequencyClass, SheetV)>,
        r: AnalysisResult<()>,
        cy: u16,
    ) -> bool {
        match analyze_spec(g, cy as int) {
            Ok(rows) => r is Ok && st1 == store_fold(st0, rows),
            Err(f) => (r matches Err(e) && matches_failure(e, f) && st1 == st0),
        }
    }

    /// As `merge_data_with_year`, with the current calendar year taken
    /// from the system clock. Whatever year the clock gives, the merge
    /// behaves as the analysis of this sheet under that year.
    pub fn merge_data(&self, output: &mut MergeXL) -> (r: AnalysisResult<()>)
        requires
            self.wf(),
            old(output).wf(),
        ensures
            final(output).wf(),
            exists|cy: u16|
                #[trigger] Self::merge_outcome(self.sheet@, old(output)@, final(output)@, r, cy),
    {
        let cy = current_year();
        let r = self.merge_data_with_year(output, cy);
        proof {
            assert(Self::merge_outcome(self.sheet@, old(output)@, output@, r, cy));
        }
        r
    }
}


// ----- laws of the scan and of the stream -----

/// Whether a cell lets the timestamp scan pass over it: it is neither a
/// yearly timestamp, nor provisional-marked, nor banned content.
pub open spec fn quiet_cell(c: CellV, banned: Seq<(Seq<char>, Seq<char>)>, cy: int) -> bool {
    match classify_cell(c, banned, cy) {
        CellClassification::NotTimestamp => true,
        CellClassification::Context(_) => true,
        _ => false,
    }
}

/// The column-major order of the scan: whole columns first, rows within.
pub open spec fn scan_before(c1: int, r1: int, c2: int, r2: int) -> bool {
    c1 < c2 || (c1 == c2 && r1 < r2)
}

proof fn lemma_scan_advance(
    g: Seq<Seq<CellV>>,
    banned: Seq<(Seq<char>, Seq<char>)>,
    cy: int,
    col: int,
    row: int,
    tcol: int,
    trow: int,
)
    requires
        0 <= col,
        0 <= row <= height_of(g),
        0 <= tcol < width_of(g),
        0 <= trow < height_of(g),
        col < tcol || (col == tcol && row <= trow),
        forall|c: int, r: int|
            0 <= c < width_of(g) && 0 <= r < height_of(g) && !scan_before(c, r, col, row)
                && scan_before(c, r, tcol, trow) ==> quiet_cell(#[trigger] g[r][c], banned, cy),
    ensures
        scan_from(g, banned, cy, col, row) == scan_from(g, banned, cy, tcol, trow),
    decreases width_of(g) - col, height_of(g) + 1 - row,
{
    if col == tcol && row == trow {
    } else if row >= height_of(g) {
        assert(col < tcol);
        assert(scan_from(g, banned, cy, col, row) == scan_from(g, banned, cy, col + 1, 0));
        lemma_scan_advance(g, banned, cy, col + 1, 0, tcol, trow);
    } else {
        assert(scan_before(col, row, tcol, trow));
        assert(quiet_cell(g[row][col], banned, cy));
        assert(scan_from(g, banned, cy, col, row) == scan_from(g, banned, cy, col, row + 1));
        lemma_scan_advance(g, banned, cy, col, row + 1, tcol, trow);
    }
}

/// Law (provisional before any confirmed timestamp): when the column-major
/// scan meets a provisional-marked cell and every cell before it is quiet,
/// the scan stops provisionally, and the analysis of the sheet yields the
/// no-data outcome.
pub proof fn lemma_provisional_first_is_no_data(
    g: Seq<Seq<CellV>>,
    banned: Seq<(Seq<char>, Seq<char>)>,
    cy: int,
    col: int,
    row: int,
)
    requires
        0 <= col < width_of(g),
        0 <= row < height_of(g),
        classify_cell(g[row][col], banned, cy) is Provisional,
        forall|c: int, r: int|
            0 <= c < width_of(g) && 0 <= r < height_of(g) && scan_before(c, r, col, row)
                ==> quiet_cell(#[trigger] g[r][c], banned, cy),
    ensures
        scan_from(g, banned, cy, 0, 0) == ScanOutcome::ProvisionalStop,
        banned == banned_spec() ==> analyze_spec(g, cy) == Err::<
            Seq<(Timestamp, Seq<(Seq<Seq<char>>, Seq<char>)>)>,
            FailSpec,
        >(FailSpec::NoData),
{
    lemma_scan_advance(g, banned, cy, 0, 0, col, row);
    assert(scan_from(g, banned, cy, col, row) == ScanOutcome::ProvisionalStop);
}

/// Law (provisional mid-table): a provisional-marked timestamp cell ends
/// row-reading normally, with no error and no further rows.
pub proof fn lemma_provisional_mid_table_stops_stream(
    g: Seq<Seq<CellV>>,
    cols: Seq<(int, Seq<Seq<char>>)>,
    ts_col: int,
    r: int,
    year: Year,
    cy: int,
)
    requires
        0 <= r < height_of(g),
        classify_cell(g[r][ts_col], Seq::empty(), cy) is Provisional,
    ensures
        stream_from(g, cols, ts_col, r, year, cy) == Ok::<
            Seq<(Timestamp, Seq<(Seq<Seq<char>>, Seq<char>)>)>,
            Seq<char>,
        >(Seq::empty()),
{
}

// ----- name filters for loading -----

/// How a directory entry's name classifies for loading: hidden entries
/// are skipped, the supported spreadsheet extension is processed, the
/// legacy extension is rejected as unsupported, anything else is unknown.
#[derive(Clone, Copy, Debug, Eq, PartialEq, Structural)]
pub enum FileKind {
    Hidden,
    Workbook,
    LegacyWorkbook,
    UnknownExtension,
}

pub open spec fn file_kind_of(name: Seq<char>) -> FileKind {
    if name.len() > 0 && name[0] == '.' {
        FileKind::Hidden
    } else if is_suffix(name, ".xlsx"@) {
        FileKind::Workbook
    } else if is_suffix(name, ".xls"@) {
        FileKind::LegacyWorkbook
    } else {
        FileKind::UnknownExtension
    }
}

pub fn classify_file_name(name: &str) -> (r: FileKind)
    ensures
        r == file_kind_of(name@),
{
    let len = name.unicode_len();
    if len > 0 && name.get_char(0) == '.' {
        FileKind::Hidden
    } else if ends_with(name, ".xlsx") {
        FileKind::Workbook
    } else if ends_with(name, ".xls") {
        FileKind::LegacyWorkbook
    } else {
        FileKind::UnknownExtension
    }
}

/// Whether a sheet is skipped before analysis: the cover page, the table
/// of contents, and the appendices.
pub open spec fn sheet_skipped(name: Seq<char>) -> bool {
    name == "Cover Page"@ || name == "Contents"@ || is_prefix(name, "Appendix"@)
}

pub fn is_skipped_sheet(name: &str) -> (r: bool)
    ensures
        r == sheet_skipped(name@),
{
    str_eq(name, "Cover Page") || str_eq(name, "Contents") || starts_with(name, "Appendix")
}

} // verus!
