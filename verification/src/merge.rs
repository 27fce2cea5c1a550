//! The aggregation store: column identities, per-timestamp rows, per
//! frequency-class buckets, and the merge rules that combine observations
//! contributed by many files under the same period.
use vstd::prelude::*;
use crate::chars::{all_digits, digits_val, trim_ws_s, check_all_digits, trim_ws, str_eq};
use crate::common::{Timestamp, FrequencyClass, class_of, timestamp_text};
use crate::analysis::{AnalysisError, AnalysisResult};

verus! {

// ----- keyed sequences -----
//
// Every mapping of the store is held as a sequence of key-value pairs with
// pairwise distinct keys, so that both the contents and the order in which
// entries first appeared are part of the model.

pub open spec fn unique_keys<K, V>(s: Seq<(K, V)>) -> bool {
    forall|i: int, j: int| 0 <= i < j < s.len() ==> (#[trigger] s[i]).0 != (#[trigger] s[j]).0
}

pub open spec fn has_key<K, V>(s: Seq<(K, V)>, k: K) -> bool {
    exists|i: int| 0 <= i < s.len() && (#[trigger] s[i]).0 == k
}

pub open spec fn index_of_key<K, V>(s: Seq<(K, V)>, k: K) -> int {
    choose|i: int| 0 <= i < s.len() && (#[trigger] s[i]).0 == k
}

/// The value stored under `k`, if any.
pub open spec fn lookup<K, V>(s: Seq<(K, V)>, k: K) -> Option<V> {
    if has_key(s, k) {
        Some(s[index_of_key(s, k)].1)
    } else {
        None
    }
}

/// Stores `v` under `k`: overwrites in place when the key is present,
/// else appends the new entry.
pub open spec fn upsert<K, V>(s: Seq<(K, V)>, k: K, v: V) -> Seq<(K, V)> {
    if has_key(s, k) {
        s.update(index_of_key(s, k), (k, v))
    } else {
        s.push((k, v))
    }
}

/// Merges `b` into `a`: keys unique to either side are kept, keys present
/// in both take `b`'s value.
pub open spec fn combine_s<K, V>(a: Seq<(K, V)>, b: Seq<(K, V)>) -> Seq<(K, V)>
    decreases b.len(),
{
    if b.len() == 0 {
        a
    } else {
        combine_s(upsert(a, b[0].0, b[0].1), b.drop_first())
    }
}

pub proof fn lemma_index_of_key<K, V>(s: Seq<(K, V)>, k: K)
    requires
        unique_keys(s),
        has_key(s, k),
    ensures
        0 <= index_of_key(s, k) < s.len(),
        s[index_of_key(s, k)].0 == k,
        forall|j: int| 0 <= j < s.len() && (#[trigger] s[j]).0 == k ==> j == index_of_key(s, k),
{
    let i = index_of_key(s, k);
    assert(0 <= i < s.len() && s[i].0 == k);
}

/// How `upsert` changes the contents: the new key maps to the new value,
/// every other key is untouched, and keys stay unique.
pub proof fn lemma_upsert<K, V>(s: Seq<(K, V)>, k: K, v: V, k2: K)
    requires
        unique_keys(s),
    ensures
        unique_keys(upsert(s, k, v)),
        lookup(upsert(s, k, v), k2) == (if k2 == k {
            Some(v)
        } else {
            lookup(s, k2)
        }),
        upsert(s, k, v).len() == (if has_key(s, k) {
            s.len()
        } else {
            s.len() + 1
        }),
{
    let t = upsert(s, k, v);
    if has_key(s, k) {
        lemma_index_of_key(s, k);
        let i = index_of_key(s, k);
        assert(forall|j: int| 0 <= j < t.len() ==> (#[trigger] t[j]).0 == s[j].0);
        assert(unique_keys(t));
        if k2 == k {
            assert(t[i].0 == k);
            assert(has_key(t, k));
            lemma_index_of_key(t, k);
            assert(index_of_key(t, k) == i);
        } else {
            if has_key(t, k2) {
                lemma_index_of_key(t, k2);
                let j = index_of_key(t, k2);
                assert(s[j].0 == k2);
                assert(has_key(s, k2));
                lemma_index_of_key(s, k2);
                assert(index_of_key(s, k2) == j);
                assert(j != i);
                assert(t[j].1 == s[j].1);
            } else {
                if has_key(s, k2) {
                    lemma_index_of_key(s, k2);
                    let j = index_of_key(s, k2);
                    assert(t[j].0 == k2);
                }
            }
        }
    } else {
        assert(t == s.push((k, v)));
        assert(forall|j: int| 0 <= j < s.len() ==> (#[trigger] s[j]).0 != k);
        assert(forall|j: int| 0 <= j < t.len() - 1 ==> (#[trigger] t[j]).0 == s[j].0);
        assert(t[t.len() - 1].0 == k);
        assert(unique_keys(t));
        if k2 == k {
            assert(has_key(t, k));
            lemma_index_of_key(t, k);
            assert(index_of_key(t, k) == t.len() - 1);
        } else {
            if has_key(t, k2) {
                lemma_index_of_key(t, k2);
                let j = index_of_key(t, k2);
                assert(j < t.len() - 1);
                assert(s[j].0 == k2);
                lemma_index_of_key(s, k2);
                assert(index_of_key(s, k2) == j);
            } else {
                if has_key(s, k2) {
                    lemma_index_of_key(s, k2);
                    let j = index_of_key(s, k2);
                    assert(t[j].0 == k2);
                }
            }
        }
    }
}

/// Law (combine): keys unique to either row are kept, keys present in
/// both take the newly arriving row's value.
pub proof fn lemma_combine_lookup<K, V>(a: Seq<(K, V)>, b: Seq<(K, V)>, k: K)
    requires
        unique_keys(a),
        unique_keys(b),
    ensures
        unique_keys(combine_s(a, b)),
        lookup(combine_s(a, b), k) == (if has_key(b, k) {
            lookup(b, k)
        } else {
            lookup(a, k)
        }),
    decreases b.len(),
{
    if b.len() == 0 {
        assert(!has_key(b, k));
    } else {
        let k0 = b[0].0;
        let v0 = b[0].1;
        let a2 = upsert(a, k0, v0);
        let b2 = b.drop_first();
        lemma_upsert(a, k0, v0, k);
        assert(unique_keys(b2)) by {
            assert(forall|i: int, j: int|
                0 <= i < j < b2.len() ==> (#[trigger] b2[i]).0 == b[i + 1].0 && (#[trigger] b2[j]).0
                    == b[j + 1].0);
        }
        lemma_combine_lookup(a2, b2, k);
        // relate lookups in b and b2
        if k == k0 {
            assert(!has_key(b2, k)) by {
                assert(forall|i: int| 0 <= i < b2.len() ==> (#[trigger] b2[i]).0 == b[i + 1].0);
            }
            assert(has_key(b, k));
            lemma_index_of_key(b, k);
            assert(index_of_key(b, k) == 0);
            assert(lookup(b, k) == Some(v0));
        } else {
            if has_key(b2, k) {
                lemma_index_of_key(b2, k);
                let j = index_of_key(b2, k);
                assert(b[j + 1].0 == k);
                assert(has_key(b, k));
                lemma_index_of_key(b, k);
                assert(index_of_key(b, k) == j + 1);
                assert(lookup(b, k) == lookup(b2, k));
            } else {
                if has_key(b, k) {
                    lemma_index_of_key(b, k);
                    let j = index_of_key(b, k);
                    assert(j != 0);
                    assert(b2[j - 1].0 == k);
                }
                assert(!has_key(b, k));
            }
        }
    }
}

// ----- column labels -----

/// Whether the text would parse as a small column number: an optional
/// leading plus sign, then at least one digit, with a value of at most 255.
pub open spec fn is_u8_text(s: Seq<char>) -> bool {
    let ds = if s.len() > 0 && s[0] == '+' {
        s.subrange(1, s.len() as int)
    } else {
        s
    };
    ds.len() > 0 && all_digits(ds) && digits_val(ds) <= 255
}

/// A trimmed, immutable text token forming one step of a column's
/// category path.
#[derive(Clone, Debug, Eq, Hash, PartialEq)]
pub struct ColumnLabel {
    text: String,
}

impl View for ColumnLabel {
    type V = Seq<char>;

    closed spec fn view(&self) -> Seq<char> {
        self.text@
    }
}

impl ColumnLabel {
    /// Trims the text and takes it as a label, unless it would parse as a
    /// small integer: publishers often stamp raw column numbers above the
    /// real headers, and those are rejected.
    pub fn create(label: &str) -> (r: Option<ColumnLabel>)
        ensures
            r is Some <==> !is_u8_text(trim_ws_s(label@)),
            r matches Some(l) ==> l@ == trim_ws_s(label@),
    {
        let trimmed = trim_ws(label);
        if Self::is_small_number(trimmed) {
            None
        } else {
            Some(ColumnLabel { text: String::from_str(trimmed) })
        }
    }

    fn is_small_number(s: &str) -> (r: bool)
        ensures
            r == is_u8_text(s@),
    {
        let len = s.unicode_len();
        let start: usize = if len > 0 && s.get_char(0) == '+' {
            1
        } else {
            0
        };
        let ghost ds = if s@.len() > 0 && s@[0] == '+' {
            s@.subrange(1, s@.len() as int)
        } else {
            s@
        };
        if len == start {
            return false;
        }
        let digits = s.substring_char(start, len);
        proof {
            assert(digits@ =~= ds);
        }
        if !check_all_digits(digits) {
            return false;
        }
        // compute the value, noting once it exceeds the u8 range
        let dlen = digits.unicode_len();
        let mut i: usize = 0;
        let mut acc: u32 = 0;
        let mut big = false;
        proof {
            assert(ds.subrange(0, 0) =~= Seq::<char>::empty());
        }
        while i < dlen
            invariant
                dlen == ds.len(),
                all_digits(ds),
                digits@ == ds,
                i <= dlen,
                big <==> digits_val(ds.subrange(0, i as int)) > 255,
                !big ==> acc == digits_val(ds.subrange(0, i as int)),
                acc <= 255,
            decreases dlen - i,
        {
            let c = digits.get_char(i);
            proof {
                let pre = ds.subrange(0, i + 1);
                assert(pre.drop_last() =~= ds.subrange(0, i as int));
                assert(crate::chars::is_digit_char(ds[i as int]));
            }
            let d = c as u32 - 48;
            if big {
                proof {
                    let pre = ds.subrange(0, i + 1);
                    assert(digits_val(pre) == digits_val(ds.subrange(0, i as int)) * 10 + (
                    ds[i as int] as int - 48));
                }
            } else {
                let next = acc * 10 + d;
                if next > 255 {
                    big = true;
                } else {
                    acc = next;
                }
            }
            i = i + 1;
        }
        proof {
            assert(ds.subrange(0, ds.len() as int) =~= ds);
        }
        !big
    }

    pub fn as_str(&self) -> (r: &str)
        ensures
            r@ == self@,
    {
        self.text.as_str()
    }

    /// An owned copy of the label.
    pub fn duplicate(&self) -> (r: ColumnLabel)
        ensures
            r@ == self@,
    {
        ColumnLabel { text: String::from_str(self.text.as_str()) }
    }
}

// ----- columns -----

/// The dotted rendering of a category path.
pub open spec fn dotted(path: Seq<Seq<char>>) -> Seq<char>
    decreases path.len(),
{
    if path.len() == 0 {
        Seq::empty()
    } else if path.len() == 1 {
        path[0]
    } else {
        dotted(path.drop_last()) + seq!['.'] + path.last()
    }
}

/// A column identity: a non-empty top-to-bottom category path. Equality is
/// over the full path, which makes it a stable cross-file identity.
#[derive(Clone, Debug, Eq, Hash, PartialEq)]
pub struct Column {
    label_categorization: Vec<ColumnLabel>,
}

impl View for Column {
    type V = Seq<Seq<char>>;

    closed spec fn view(&self) -> Seq<Seq<char>> {
        self.label_categorization@.map_values(|l: ColumnLabel| l@)
    }
}

impl Column {
    pub open spec fn wf(self) -> bool {
        self@.len() > 0
    }

    /// Accepts a non-empty category path; an empty one is a structural
    /// rejection.
    pub fn new(label_categorization: Vec<ColumnLabel>) -> (r: AnalysisResult<Column>)
        ensures
            r is Ok <==> label_categorization@.len() > 0,
            r matches Ok(c) ==> c@ == label_categorization@.map_values(|l: ColumnLabel| l@)
                && c.wf(),
            r matches Err(e) ==> e matches AnalysisError::Unsupported { reason } && reason@
                == "Label categorization is empty"@,
    {
        if label_categorization.len() == 0 {
            Err(AnalysisError::unsupported("Label categorization is empty"))
        } else {
            Ok(Column { label_categorization })
        }
    }

    /// Content equality of two paths.
    pub fn path_eq(&self, other: &Column) -> (r: bool)
        ensures
            r == (self@ == other@),
    {
        let n = self.label_categorization.len();
        if n != other.label_categorization.len() {
            assert(self@ != other@);
            return false;
        }
        let mut i: usize = 0;
        while i < n
            invariant
                n == self@.len() == other@.len(),
                i <= n,
                forall|j: int| 0 <= j < i ==> self@[j] == other@[j],
            decreases n - i,
        {
            let a = &self.label_categorization[i];
            let b = &other.label_categorization[i];
            if !str_eq(a.text.as_str(), b.text.as_str()) {
                assert(self@[i as int] != other@[i as int]);
                return false;
            }
            i = i + 1;
        }
        assert(self@ =~= other@);
        true
    }

    /// The dotted path, e.g. "Branches.Total".
    pub fn display_full_labeling(&self) -> (r: String)
        ensures
            r@ == dotted(self@),
    {
        let n = self.label_categorization.len();
        let mut out = String::new();
        let mut i: usize = 0;
        proof {
            assert(self@.subrange(0, 0) =~= Seq::<Seq<char>>::empty());
        }
        while i < n
            invariant
                n == self@.len(),
                i <= n,
                out@ == dotted(self@.subrange(0, i as int)),
        decreases n - i,
        {
            if i > 0 {
                out.append(".");
                proof {
                    reveal_strlit(".");
                }
            }
            out.append(self.label_categorization[i].text.as_str());
            proof {
                let pre = self@.subrange(0, i + 1);
                assert(pre.drop_last() =~= self@.subrange(0, i as int));
                assert(pre.last() == self@[i as int]);
                if i > 0 {
                    assert(out@ == dotted(pre.drop_last()) + seq!['.'] + pre.last());
                } else {
                    assert(pre.len() == 1);
                    assert(out@ =~= pre[0]);
                }
            }
            i = i + 1;
        }
        proof {
            assert(self@.subrange(0, n as int) =~= self@);
        }
        out
    }
}

// ----- row data -----

/// The cells of one row, keyed by column identity.
#[derive(Clone, Debug)]
pub struct RowData {
    data: Vec<(Column, String)>,
}

impl View for RowData {
    type V = Seq<(Seq<Seq<char>>, Seq<char>)>;

    closed spec fn view(&self) -> Seq<(Seq<Seq<char>>, Seq<char>)> {
        self.data@.map_values(|p: (Column, String)| (p.0@, p.1@))
    }
}

impl Default for RowData {
    fn default() -> (r: Self)
        ensures
            r@ == Seq::<(Seq<Seq<char>>, Seq<char>)>::empty(),
            r.wf(),
    {
        let r = RowData { data: Vec::new() };
        proof {
            assert(r@ =~= Seq::<(Seq<Seq<char>>, Seq<char>)>::empty());
        }
        r
    }
}

impl RowData {
    pub open spec fn wf(self) -> bool {
        unique_keys(self@)
    }

    fn find_index(&self, column: &Column) -> (r: Option<usize>)
        ensures
            r matches Some(i) ==> 0 <= i < self@.len() && self@[i as int].0 == column@,
            r is None ==> !has_key(self@, column@),
    {
        let n = self.data.len();
        let mut i: usize = 0;
        while i < n
            invariant
                n == self@.len(),
                i <= n,
                forall|j: int| 0 <= j < i ==> (#[trigger] self@[j]).0 != column@,
            decreases n - i,
        {
            if self.data[i].0.path_eq(column) {
                return Some(i);
            }
            i = i + 1;
        }
        None
    }

    /// Records `value` for `column`, overwriting any earlier value of the
    /// same column and keeping its position; a new column is appended.
    pub fn populate(&mut self, column: &Column, value: String)
        requires
            old(self).wf(),
        ensures
            final(self).wf(),
            final(self)@ == upsert(old(self)@, column@, value@),
    {
        proof {
            lemma_upsert(self@, column@, value@, column@);
        }
        match self.find_index(column) {
            Some(i) => {
                proof {
                    lemma_index_of_key(self@, column@);
                }
                let _ = self.data.remove(i);
                self.data.insert(i, (column.clone_column(), value));
                assert(self@ =~= upsert(old(self)@, column@, value@));
            },
            None => {
                self.data.push((column.clone_column(), value));
                assert(self@ =~= upsert(old(self)@, column@, value@));
            },
        }
    }

    /// How many columns the row populates.
    pub fn len(&self) -> (r: usize)
        ensures
            r == self@.len(),
    {
        self.data.len()
    }

    /// The value recorded for `column`, if any.
    pub fn get(&self, column: &Column) -> (r: Option<&String>)
        requires
            self.wf(),
        ensures
            r matches Some(v) ==> lookup(self@, column@) == Some(v@),
            r is None ==> lookup(self@, column@) is None,
    {
        match self.find_index(column) {
            Some(i) => {
                proof {
                    assert(has_key(self@, column@));
                    lemma_index_of_key(self@, column@);
                }
                Some(&self.data[i].1)
            },
            None => None,
        }
    }

    /// Merges `other` into this row: columns unique to either row are
    /// kept, columns present in both take `other`'s value.
    pub fn combine(self, other: Self) -> (r: Self)
        requires
            self.wf(),
            other.wf(),
        ensures
            r.wf(),
            r@ == combine_s(self@, other@),
    {
        let ghost a0 = self@;
        let mut out = self;
        let n = other.data.len();
        let mut i: usize = 0;
        proof {
            assert(other@.subrange(0, n as int) =~= other@);
        }
        while i < n
            invariant
                n == other@.len(),
                i <= n,
                out.wf(),
                combine_s(a0, other@) == combine_s(out@, other@.subrange(i as int, n as int)),
            decreases n - i,
        {
            let ghost pre = out@;
            let ghost rest = other@.subrange(i as int, n as int);
            proof {
                assert(other@[i as int] == (other.data@[i as int].0@, other.data@[i as int].1@));
            }
            let col = other.data[i].0.clone_column();
            let val = other.data[i].1.clone();
            out.populate(&col, val);
            proof {
                assert(rest[0] == other@[i as int]);
                assert(rest.drop_first() =~= other@.subrange(i + 1, n as int));
                assert(out@ == upsert(pre, other@[i as int].0, other@[i as int].1));
                assert(combine_s(pre, rest) == combine_s(out@, rest.drop_first()));
            }
            i = i + 1;
        }
        proof {
            assert(other@.subrange(n as int, n as int) =~= Seq::<(Seq<Seq<char>>, Seq<char>)>::empty());
        }
        out
    }
}

impl Column {
    /// An owned copy of the column identity.
    pub fn clone_column(&self) -> (r: Column)
        ensures
            r@ == self@,
    {
        let mut labels: Vec<ColumnLabel> = Vec::new();
        let n = self.label_categorization.len();
        let mut i: usize = 0;
        while i < n
            invariant
                n == self@.len(),
                i <= n,
                labels@.len() == i,
                forall|j: int| 0 <= j < i ==> (#[trigger] labels@[j])@ == self@[j],
            decreases n - i,
        {
            proof {
                assert(self@[i as int] == self.label_categorization@[i as int]@);
            }
            labels.push(ColumnLabel { text: String::from_str(self.label_categorization[i].text.as_str()) });
            i = i + 1;
        }
        let r = Column { label_categorization: labels };
        proof {
            assert(forall|j: int| 0 <= j < n ==> (#[trigger] r@[j]) == labels@[j]@);
            assert(r@ =~= self@);
        }
        r
    }
}


// ----- sheets (buckets) and the store -----

/// Model of one frequency-class bucket: the columns ever observed, in
/// first-seen order, and the rows keyed by timestamp, in arrival order.
pub struct SheetV {
    pub columns: Seq<Seq<Seq<char>>>,
    pub rows: Seq<(Timestamp, Seq<(Seq<Seq<char>>, Seq<char>)>)>,
}

pub open spec fn empty_sheet() -> SheetV {
    SheetV { columns: Seq::empty(), rows: Seq::empty() }
}

pub open spec fn unique_paths(cols: Seq<Seq<Seq<char>>>) -> bool {
    forall|i: int, j: int| 0 <= i < j < cols.len() ==> cols[i] != cols[j]
}

pub open spec fn sheet_wf(s: SheetV) -> bool {
    &&& unique_paths(s.columns)
    &&& unique_keys(s.rows)
    &&& forall|i: int| 0 <= i < s.rows.len() ==> unique_keys((#[trigger] s.rows[i]).1)
}

/// Registers the row's columns, in row order, appending the unseen ones.
pub open spec fn register_cols(
    cols: Seq<Seq<Seq<char>>>,
    row: Seq<(Seq<Seq<char>>, Seq<char>)>,
) -> Seq<Seq<Seq<char>>>
    decreases row.len(),
{
    if row.len() == 0 {
        cols
    } else {
        register_cols(
            if cols.contains(row[0].0) {
                cols
            } else {
                cols.push(row[0].0)
            },
            row.drop_first(),
        )
    }
}

proof fn lemma_register_cols_unique(cols: Seq<Seq<Seq<char>>>, row: Seq<(Seq<Seq<char>>, Seq<char>)>)
    requires
        unique_paths(cols),
    ensures
        unique_paths(register_cols(cols, row)),
    decreases row.len(),
{
    if row.len() > 0 {
        let step = if cols.contains(row[0].0) {
            cols
        } else {
            cols.push(row[0].0)
        };
        assert(unique_paths(step)) by {
            if !cols.contains(row[0].0) {
                assert(forall|i: int| 0 <= i < cols.len() ==> cols[i] != row[0].0);
                assert(forall|i: int| 0 <= i < step.len() - 1 ==> step[i] == cols[i]);
            }
        }
        lemma_register_cols_unique(step, row.drop_first());
    }
}

/// One row arriving in a bucket: its columns are registered; a first row
/// at a timestamp is inserted; a second one is combined into the first,
/// the newly arriving value winning per column.
pub open spec fn sheet_add(s: SheetV, t: Timestamp, row: Seq<(Seq<Seq<char>>, Seq<char>)>) -> SheetV {
    SheetV {
        columns: register_cols(s.columns, row),
        rows: upsert(
            s.rows,
            t,
            match lookup(s.rows, t) {
                Some(existing) => combine_s(existing, row),
                None => row,
            },
        ),
    }
}

pub proof fn lemma_sheet_add_wf(s: SheetV, t: Timestamp, row: Seq<(Seq<Seq<char>>, Seq<char>)>)
    requires
        sheet_wf(s),
        unique_keys(row),
    ensures
        sheet_wf(sheet_add(s, t, row)),
{
    lemma_register_cols_unique(s.columns, row);
    let v = match lookup(s.rows, t) {
        Some(existing) => combine_s(existing, row),
        None => row,
    };
    assert(unique_keys(v)) by {
        if has_key(s.rows, t) {
            lemma_index_of_key(s.rows, t);
            lemma_combine_lookup(s.rows[index_of_key(s.rows, t)].1, row, Seq::<Seq<char>>::empty());
        }
    }
    lemma_upsert(s.rows, t, v, t);
    let out = sheet_add(s, t, row);
    assert(forall|i: int| 0 <= i < out.rows.len() ==> unique_keys((#[trigger] out.rows[i]).1)) by {
        if has_key(s.rows, t) {
            lemma_index_of_key(s.rows, t);
            let ix = index_of_key(s.rows, t);
            assert(forall|i: int|
                0 <= i < out.rows.len() && i != ix ==> (#[trigger] out.rows[i]) == s.rows[i]);
        } else {
            assert(forall|i: int|
                0 <= i < out.rows.len() - 1 ==> (#[trigger] out.rows[i]) == s.rows[i]);
        }
    }
}

/// Law (per-timestamp merge): within a bucket, an arriving row is stored
/// under its timestamp — combined into an earlier row there, the arriving
/// values winning — and rows under every other timestamp are untouched.
pub proof fn lemma_sheet_add_holds_row(
    s: SheetV,
    t: Timestamp,
    row: Seq<(Seq<Seq<char>>, Seq<char>)>,
    other: Timestamp,
)
    requires
        sheet_wf(s),
    ensures
        lookup(sheet_add(s, t, row).rows, t) == Some(
            match lookup(s.rows, t) {
                Some(existing) => combine_s(existing, row),
                None => row,
            },
        ),
        other != t ==> lookup(sheet_add(s, t, row).rows, other) == lookup(s.rows, other),
{
    let v = match lookup(s.rows, t) {
        Some(existing) => combine_s(existing, row),
        None => row,
    };
    lemma_upsert(s.rows, t, v, t);
    lemma_upsert(s.rows, t, v, other);
}

/// A growing per-frequency-class bucket of columns and timestamp-keyed rows.
pub struct Sheet {
    columns: Vec<Column>,
    rows: Vec<(Timestamp, RowData)>,
}

impl View for Sheet {
    type V = SheetV;

    closed spec fn view(&self) -> SheetV {
        SheetV {
            columns: self.columns@.map_values(|c: Column| c@),
            rows: self.rows@.map_values(|e: (Timestamp, RowData)| (e.0, e.1@)),
        }
    }
}

impl Default for Sheet {
    fn default() -> (r: Self)
        ensures
            r@ == empty_sheet(),
            r.wf(),
    {
        let r = Sheet { columns: Vec::new(), rows: Vec::new() };
        proof {
            assert(r@.columns =~= empty_sheet().columns);
            assert(r@.rows =~= empty_sheet().rows);
        }
        r
    }
}

impl Sheet {
    pub open spec fn wf(self) -> bool {
        sheet_wf(self@)
    }

    /// Adds the column to the set if it is new; order of first appearance
    /// is kept.
    #[verifier::loop_isolation(false)]
    fn ensure_column(&mut self, column: &Column)
        requires
            old(self).wf(),
        ensures
            final(self).wf(),
            final(self)@.rows == old(self)@.rows,
            final(self)@.columns == (if old(self)@.columns.contains(column@) {
                old(self)@.columns
            } else {
                old(self)@.columns.push(column@)
            }),
    {
        let n = self.columns.len();
        let mut i: usize = 0;
        while i < n
            invariant
                self@ == old(self)@,
                n == self@.columns.len(),
                i <= n,
                forall|j: int| 0 <= j < i ==> self@.columns[j] != column@,
            decreases n - i,
        {
            proof {
                assert(self@.columns[i as int] == self.columns@[i as int]@);
            }
            if self.columns[i].path_eq(column) {
                assert(self@.columns.contains(column@));
                return ;
            }
            i = i + 1;
        }
        assert(!self@.columns.contains(column@));
        self.columns.push(column.clone_column());
        proof {
            assert(self@.columns =~= old(self)@.columns.push(column@));
            assert(self@.rows =~= old(self)@.rows);
        }
    }

    /// Law (merge): registers the row's new columns, inserts the row when
    /// its timestamp is new, and otherwise combines it into the existing
    /// row with the arriving values winning.
    #[verifier::loop_isolation(false)]
    pub fn add_row(&mut self, timestamp: Timestamp, row: RowData)
        requires
            old(self).wf(),
            row.wf(),
        ensures
            final(self).wf(),
            final(self)@ == sheet_add(old(self)@, timestamp, row@),
    {
        proof {
            lemma_sheet_add_wf(self@, timestamp, row@);
        }
        let ghost s0 = self@;
        // register the row's columns, in row order
        let n = row.len();
        let mut i: usize = 0;
        proof {
            assert(row@.subrange(0, n as int) =~= row@);
        }
        while i < n
            invariant
                n == row@.len(),
                i <= n,
                self.wf(),
                self@.rows == s0.rows,
                register_cols(s0.columns, row@) == register_cols(
                    self@.columns,
                    row@.subrange(i as int, n as int),
                ),
            decreases n - i,
        {
            let ghost pre = self@.columns;
            let ghost rest = row@.subrange(i as int, n as int);
            proof {
                assert(row@[i as int] == (row.data@[i as int].0@, row.data@[i as int].1@));
            }
            let col = row.data[i].0.clone_column();
            self.ensure_column(&col);
            proof {
                assert(rest[0] == row@[i as int]);
                assert(rest.drop_first() =~= row@.subrange(i + 1, n as int));
                assert(register_cols(pre, rest) == register_cols(
                    if pre.contains(rest[0].0) {
                        pre
                    } else {
                        pre.push(rest[0].0)
                    },
                    rest.drop_first(),
                ));
            }
            i = i + 1;
        }
        proof {
            assert(row@.subrange(n as int, n as int) =~= Seq::<(Seq<Seq<char>>, Seq<char>)>::empty());
            assert(self@.columns == register_cols(s0.columns, row@));
        }
        // insert or combine the row under its timestamp
        let ghost s1 = self@;
        let m = self.rows.len();
        let mut j: usize = 0;
        while j < m
            invariant
                self@ == s1,
                m == self@.rows.len(),
                j <= m,
                forall|k: int| 0 <= k < j ==> (#[trigger] self@.rows[k]).0 != timestamp,
            decreases m - j,
        {
            proof {
                assert(self@.rows[j as int] == (self.rows@[j as int].0, self.rows@[j as int].1@));
            }
            if self.rows[j].0 == timestamp {
                proof {
                    assert(self@.rows[j as int].0 == timestamp);
                    assert(has_key(s1.rows, timestamp));
                    lemma_index_of_key(s1.rows, timestamp);
                    assert(index_of_key(s1.rows, timestamp) == j);
                }
                let (t0, existing) = self.rows.remove(j);
                let merged = existing.combine(row);
                self.rows.insert(j, (t0, merged));
                proof {
                    assert(self@.rows =~= upsert(
                        s1.rows,
                        timestamp,
                        combine_s(s1.rows[j as int].1, row@),
                    ));
                    assert(self@ == sheet_add(s0, timestamp, row@));
                }
                return ;
            }
            j = j + 1;
        }
        proof {
            assert(!has_key(s1.rows, timestamp));
        }
        self.rows.push((timestamp, row));
        proof {
            let newrows = self@.rows;
            assert(newrows.len() == s1.rows.len() + 1);
            assert(forall|q: int| 0 <= q < s1.rows.len() ==> newrows[q] == s1.rows[q]);
            assert(newrows[s1.rows.len() as int] == (timestamp, row@));
            assert(newrows =~= upsert(s1.rows, timestamp, row@));
            assert(self@ == sheet_add(s0, timestamp, row@));
        }
    }

    /// The dotted header cell of each column, after the timestamp key.
    #[verifier::loop_isolation(false)]
    pub fn export_records(&self) -> (r: Vec<Vec<String>>)
        requires
            self.wf(),
        ensures
            r@.len() == 1 + self@.rows.len(),
            r@[0]@.map_values(|s: String| s@) == header_of(self@.columns),
            forall|i: int|
                0 <= i < self@.rows.len() ==> (#[trigger] r@[i + 1])@.map_values(|s: String| s@)
                    == record_of(self@.columns, self@.rows[i].0, self@.rows[i].1),
    {
        let ncols = self.columns.len();
        let mut out: Vec<Vec<String>> = Vec::new();
        let mut header: Vec<String> = Vec::new();
        header.push(String::from_str("timestamp-primary-key"));
        let mut i: usize = 0;
        while i < ncols
            invariant
                ncols == self@.columns.len(),
                i <= ncols,
                header@.len() == 1 + i,
                header@[0]@ == "timestamp-primary-key"@,
                forall|j: int| 0 <= j < i ==> (#[trigger] header@[j + 1])@ == dotted(self@.columns[j]),
            decreases ncols - i,
        {
            proof {
                assert(self@.columns[i as int] == self.columns@[i as int]@);
            }
            header.push(self.columns[i].display_full_labeling());
            i = i + 1;
        }
        proof {
            let hv = header@.map_values(|s: String| s@);
            let target = header_of(self@.columns);
            assert(target.len() == 1 + self@.columns.len());
            assert(target[0] == "timestamp-primary-key"@);
            assert(forall|j: int|
                0 <= j < self@.columns.len() ==> target[j + 1] == dotted(
                    #[trigger] self@.columns[j],
                ));
            assert(forall|j: int| 0 <= j < hv.len() ==> hv[j] == (#[trigger] header@[j])@);
            assert(hv =~= target);
        }
        out.push(header);
        // one record per row, in arrival order
        let nrows = self.rows.len();
        let mut k: usize = 0;
        while k < nrows
            invariant
                nrows == self@.rows.len(),
                ncols == self@.columns.len(),
                self.wf(),
                k <= nrows,
                out@.len() == 1 + k,
                out@[0]@.map_values(|s: String| s@) == header_of(self@.columns),
                forall|q: int|
                    0 <= q < k ==> (#[trigger] out@[q + 1])@.map_values(|s: String| s@)
                        == record_of(self@.columns, self@.rows[q].0, self@.rows[q].1),
            decreases nrows - k,
        {
            let ghost trow = self@.rows[k as int];
            proof {
                assert(self@.rows[k as int] == (self.rows@[k as int].0, self.rows@[k as int].1@));
                assert(unique_keys(trow.1));
            }
            let mut record: Vec<String> = Vec::new();
            record.push(self.rows[k].0.format());
            let mut c: usize = 0;
            while c < ncols
                invariant
                    ncols == self@.columns.len(),
                    nrows == self@.rows.len(),
                    self.wf(),
                    k < nrows,
                    trow == self@.rows[k as int],
                    unique_keys(trow.1),
                    c <= ncols,
                    record@.len() == 1 + c,
                    record@[0]@ == timestamp_text(trow.0),
                    forall|j: int|
                        0 <= j < c ==> (#[trigger] record@[j + 1])@ == (match lookup(
                            trow.1,
                            self@.columns[j],
                        ) {
                            Some(v) => v,
                            None => "NA"@,
                        }),
                decreases ncols - c,
            {
                proof {
                    assert(self@.columns[c as int] == self.columns@[c as int]@);
                    assert(self@.rows[k as int] == (self.rows@[k as int].0, self.rows@[k as int].1@));
                }
                match self.rows[k].1.get(&self.columns[c]) {
                    Some(v) => {
                        let copied = v.clone();
                        record.push(copied);
                    },
                    None => {
                        record.push(String::from_str("NA"));
                    },
                }
                c = c + 1;
            }
            proof {
                let rv = record@.map_values(|s: String| s@);
                let target = record_of(self@.columns, trow.0, trow.1);
                assert(target.len() == 1 + self@.columns.len());
                assert(target[0] == timestamp_text(trow.0));
                assert(forall|j: int|
                    0 <= j < self@.columns.len() ==> target[j + 1] == (match lookup(
                        trow.1,
                        #[trigger] self@.columns[j],
                    ) {
                        Some(v) => v,
                        None => "NA"@,
                    }));
                assert(forall|j: int| 0 <= j < rv.len() ==> rv[j] == (#[trigger] record@[j])@);
                assert(rv =~= target);
            }
            out.push(record);
            k = k + 1;
        }
        out
    }
}

/// The header record: the timestamp key, then each column's dotted path.
pub open spec fn header_of(cols: Seq<Seq<Seq<char>>>) -> Seq<Seq<char>> {
    seq!["timestamp-primary-key"@] + cols.map_values(|p: Seq<Seq<char>>| dotted(p))
}

/// One data record: the rendered timestamp, then each column's value, or
/// the sentinel "NA" where the row has none.
pub open spec fn record_of(
    cols: Seq<Seq<Seq<char>>>,
    t: Timestamp,
    row: Seq<(Seq<Seq<char>>, Seq<char>)>,
) -> Seq<Seq<char>> {
    seq![timestamp_text(t)] + cols.map_values(
        |p: Seq<Seq<char>>|
            match lookup(row, p) {
                Some(v) => v,
                None => "NA"@,
            },
    )
}

// ----- the aggregation store -----

/// One row landing in the store: the bucket of the timestamp's frequency
/// class is created on first demand, then the row is merged into it.
pub open spec fn store_add(
    st: Seq<(FrequencyClass, SheetV)>,
    t: Timestamp,
    row: Seq<(Seq<Seq<char>>, Seq<char>)>,
) -> Seq<(FrequencyClass, SheetV)> {
    let c = class_of(t);
    let cur = match lookup(st, c) {
        Some(s) => s,
        None => empty_sheet(),
    };
    upsert(st, c, sheet_add(cur, t, row))
}

/// A run of rows landing in the store, in order.
pub open spec fn store_fold(
    st: Seq<(FrequencyClass, SheetV)>,
    rows: Seq<(Timestamp, Seq<(Seq<Seq<char>>, Seq<char>)>)>,
) -> Seq<(FrequencyClass, SheetV)>
    decreases rows.len(),
{
    if rows.len() == 0 {
        st
    } else {
        store_fold(store_add(st, rows[0].0, rows[0].1), rows.drop_first())
    }
}

pub open spec fn store_wf(st: Seq<(FrequencyClass, SheetV)>) -> bool {
    unique_keys(st) && forall|i: int| 0 <= i < st.len() ==> sheet_wf((#[trigger] st[i]).1)
}

/// Law (aggregation targeting): a row lands exactly in the bucket of its
/// timestamp's frequency class, which is created on first demand, and
/// every other frequency class's bucket is untouched.
pub proof fn lemma_store_add_targets_class(
    st: Seq<(FrequencyClass, SheetV)>,
    t: Timestamp,
    row: Seq<(Seq<Seq<char>>, Seq<char>)>,
    other: FrequencyClass,
)
    requires
        store_wf(st),
    ensures
        lookup(store_add(st, t, row), class_of(t)) == Some(
            sheet_add(
                match lookup(st, class_of(t)) {
                    Some(s) => s,
                    None => empty_sheet(),
                },
                t,
                row,
            ),
        ),
        other != class_of(t) ==> lookup(store_add(st, t, row), other) == lookup(st, other),
{
    let c = class_of(t);
    let cur = match lookup(st, c) {
        Some(s) => s,
        None => empty_sheet(),
    };
    lemma_upsert(st, c, sheet_add(cur, t, row), c);
    lemma_upsert(st, c, sheet_add(cur, t, row), other);
}

/// The concurrent cross-file aggregation of all observations, as one
/// mapping from frequency class to its accumulating bucket. Buckets are
/// created at most once and live until export.
pub struct MergeXL {
    sheets: Vec<(FrequencyClass, Sheet)>,
}

impl View for MergeXL {
    type V = Seq<(FrequencyClass, SheetV)>;

    closed spec fn view(&self) -> Seq<(FrequencyClass, SheetV)> {
        self.sheets@.map_values(|e: (FrequencyClass, Sheet)| (e.0, e.1@))
    }
}

impl Default for MergeXL {
    fn default() -> (r: Self)
        ensures
            r@ == Seq::<(FrequencyClass, SheetV)>::empty(),
            r.wf(),
    {
        let r = MergeXL { sheets: Vec::new() };
        proof {
            assert(r@ =~= Seq::<(FrequencyClass, SheetV)>::empty());
        }
        r
    }
}

impl MergeXL {
    pub open spec fn wf(self) -> bool {
        store_wf(self@)
    }

    /// Gets or creates the bucket for the timestamp's frequency class,
    /// creating it at most once; returns its position in the store.
    #[verifier::loop_isolation(false)]
    pub fn get_or_create_sheet(&mut self, timestamp: &Timestamp) -> (i: usize)
        requires
            old(self).wf(),
        ensures
            final(self).wf(),
            i < final(self)@.len(),
            final(self)@[i as int].0 == class_of(*timestamp),
            has_key(old(self)@, class_of(*timestamp)) ==> final(self)@ == old(self)@ && i
                == index_of_key(old(self)@, class_of(*timestamp)),
            !has_key(old(self)@, class_of(*timestamp)) ==> final(self)@ == old(self)@.push(
                (class_of(*timestamp), empty_sheet()),
            ) && i == old(self)@.len(),
    {
        let cls = timestamp.frequency_class();
        let n = self.sheets.len();
        let mut i: usize = 0;
        while i < n
            invariant
                self@ == old(self)@,
                n == self@.len(),
                i <= n,
                cls == class_of(*timestamp),
                forall|j: int| 0 <= j < i ==> (#[trigger] self@[j]).0 != cls,
            decreases n - i,
        {
            proof {
                assert(self@[i as int] == (self.sheets@[i as int].0, self.sheets@[i as int].1@));
            }
            if self.sheets[i].0 == cls {
                proof {
                    assert(self@[i as int].0 == cls);
                    assert(has_key(self@, cls));
                    lemma_index_of_key(self@, cls);
                }
                return i;
            }
            i = i + 1;
        }
        proof {
            assert(!has_key(self@, cls));
        }
        self.sheets.push((cls, Sheet::default()));
        proof {
            let newv = self@;
            assert(forall|q: int| 0 <= q < old(self)@.len() ==> newv[q] == old(self)@[q]);
            assert(newv[old(self)@.len() as int] == (cls, empty_sheet()));
            assert(newv =~= old(self)@.push((cls, empty_sheet())));
        }
        n
    }

    /// Law (aggregation): the row lands in the bucket of its timestamp's
    /// frequency class, which is created on first demand, and is merged
    /// there under its timestamp.
    #[verifier::loop_isolation(false)]
    pub fn add_row(&mut self, timestamp: Timestamp, row: RowData)
        requires
            old(self).wf(),
            row.wf(),
        ensures
            final(self).wf(),
            final(self)@ == store_add(old(self)@, timestamp, row@),
    {
        let ghost st0 = self@;
        let ghost cls = class_of(timestamp);
        let i = self.get_or_create_sheet(&timestamp);
        let ghost st1 = self@;
        let ghost cur = st1[i as int].1;
        proof {
            if has_key(st0, cls) {
                lemma_index_of_key(st0, cls);
                assert(cur == match lookup(st0, cls) {
                    Some(s) => s,
                    None => empty_sheet(),
                });
            } else {
                assert(cur == empty_sheet());
            }
            lemma_sheet_add_wf(cur, timestamp, row@);
        }
        let (c0, mut bucket) = self.sheets.remove(i);
        bucket.add_row(timestamp, row);
        self.sheets.insert(i, (c0, bucket));
        proof {
            assert(self@ =~= st1.update(i as int, (cls, sheet_add(cur, timestamp, row@))));
            if has_key(st0, cls) {
                lemma_index_of_key(st0, cls);
                assert(self@ =~= upsert(st0, cls, sheet_add(cur, timestamp, row@)));
            } else {
                assert(self@ =~= upsert(st0, cls, sheet_add(cur, timestamp, row@)));
            }
            assert(store_wf(self@)) by {
                lemma_upsert(st0, cls, sheet_add(cur, timestamp, row@), cls);
                assert(forall|j: int|
                    0 <= j < self@.len() && j != i ==> (#[trigger] self@[j]) == st1[j]);
            }
        }
    }

    /// The buckets, in creation order, for export.
    pub fn sheets(&self) -> (r: &Vec<(FrequencyClass, Sheet)>)
        ensures
            r@.map_values(|e: (FrequencyClass, Sheet)| (e.0, e.1@)) == self@,
    {
        &self.sheets
    }
}


} // verus!
