//! Character-level helpers shared by the timestamp grammar and the cell
//! interpreter: decimal digits, whitespace trimming, case-insensitive
//! comparison, substring search, and decimal rendering of integers.
use vstd::prelude::*;

verus! {

pub open spec fn is_digit_char(c: char) -> bool {
    '0' as int <= c as int && c as int <= '9' as int
}

pub open spec fn digit_val(c: char) -> int {
    c as int - '0' as int
}

pub open spec fn all_digits(s: Seq<char>) -> bool {
    forall|i: int| 0 <= i < s.len() ==> is_digit_char(#[trigger] s[i])
}

/// Numeric value of a string of decimal digits, most significant first.
pub open spec fn digits_val(s: Seq<char>) -> int
    decreases s.len(),
{
    if s.len() == 0 {
        0
    } else {
        digits_val(s.drop_last()) * 10 + digit_val(s.last())
    }
}

/// The characters that count as whitespace when labels and period texts
/// are trimmed (the usual Unicode whitespace set).
pub open spec fn is_ws_char(c: char) -> bool {
    ||| c == ' '
    ||| c == '\t'
    ||| c == '\n'
    ||| c == '\r'
    ||| c == '\u{b}'
    ||| c == '\u{c}'
    ||| c == '\u{85}'
    ||| c == '\u{a0}'
    ||| c == '\u{1680}'
    ||| ('\u{2000}' as int <= c as int && c as int <= '\u{200a}' as int)
    ||| c == '\u{2028}'
    ||| c == '\u{2029}'
    ||| c == '\u{202f}'
    ||| c == '\u{205f}'
    ||| c == '\u{3000}'
}

pub open spec fn trim_end_ws_s(s: Seq<char>) -> Seq<char>
    decreases s.len(),
{
    if s.len() > 0 && is_ws_char(s.last()) {
        trim_end_ws_s(s.drop_last())
    } else {
        s
    }
}

pub open spec fn trim_start_ws_s(s: Seq<char>) -> Seq<char>
    decreases s.len(),
{
    if s.len() > 0 && is_ws_char(s[0]) {
        trim_start_ws_s(s.subrange(1, s.len() as int))
    } else {
        s
    }
}

pub open spec fn trim_ws_s(s: Seq<char>) -> Seq<char> {
    trim_start_ws_s(trim_end_ws_s(s))
}

/// ASCII-case-insensitive character equality.
pub open spec fn ci_eq_char(a: char, b: char) -> bool {
    ||| a == b
    ||| ('A' as int <= a as int <= 'Z' as int && b as int == a as int + 32)
    ||| ('a' as int <= a as int <= 'z' as int && b as int == a as int - 32)
}

pub open spec fn ci_eq_seq(a: Seq<char>, b: Seq<char>) -> bool {
    a.len() == b.len() && forall|i: int| 0 <= i < a.len() ==> ci_eq_char(#[trigger] a[i], #[trigger] b[i])
}

/// Whether `n` occurs in `s` starting at position `i`.
pub open spec fn matches_at(s: Seq<char>, n: Seq<char>, i: int) -> bool {
    0 <= i && i + n.len() <= s.len() && s.subrange(i, i + n.len()) == n
}

pub open spec fn contains_seq(s: Seq<char>, n: Seq<char>) -> bool {
    exists|i: int| matches_at(s, n, i)
}

pub open spec fn is_prefix(s: Seq<char>, p: Seq<char>) -> bool {
    p.len() <= s.len() && s.subrange(0, p.len() as int) == p
}

pub open spec fn is_suffix(s: Seq<char>, p: Seq<char>) -> bool {
    p.len() <= s.len() && s.subrange(s.len() - p.len(), s.len() as int) == p
}

pub open spec fn digit_char(d: int) -> char {
    if d == 0 {
        '0'
    } else if d == 1 {
        '1'
    } else if d == 2 {
        '2'
    } else if d == 3 {
        '3'
    } else if d == 4 {
        '4'
    } else if d == 5 {
        '5'
    } else if d == 6 {
        '6'
    } else if d == 7 {
        '7'
    } else if d == 8 {
        '8'
    } else {
        '9'
    }
}

/// Decimal rendering of a non-negative integer, no padding.
pub open spec fn dec_rep(n: int) -> Seq<char>
    decreases n,
{
    if n < 10 {
        seq![digit_char(n)]
    } else {
        dec_rep(n / 10).push(digit_char(n % 10))
    }
}

/// Decimal rendering padded on the left to two digits, as used for months.
pub open spec fn two_digit_rep(n: int) -> Seq<char> {
    if n < 10 {
        seq!['0', digit_char(n)]
    } else {
        dec_rep(n)
    }
}

pub proof fn lemma_dec_rep(n: int)
    requires
        0 <= n,
    ensures
        all_digits(dec_rep(n)),
        digits_val(dec_rep(n)) == n,
        dec_rep(n).len() >= 1,
        n < 10 ==> dec_rep(n).len() == 1,
        10 <= n < 100 ==> dec_rep(n).len() == 2,
        100 <= n < 1000 ==> dec_rep(n).len() == 3,
        1000 <= n < 10000 ==> dec_rep(n).len() == 4,
        10000 <= n ==> dec_rep(n).len() >= 5,
    decreases n,
{
    if n < 10 {
        let s = seq![digit_char(n)];
        assert(s.drop_last() =~= Seq::<char>::empty());
        assert(digits_val(s) == digits_val(Seq::<char>::empty()) * 10 + digit_val(digit_char(n)));
    } else {
        lemma_dec_rep(n / 10);
        let prefix = dec_rep(n / 10);
        let whole = prefix.push(digit_char(n % 10));
        assert(whole.drop_last() =~= prefix);
        assert(digits_val(whole) == digits_val(prefix) * 10 + digit_val(whole.last()));
        assert(forall|i: int| 0 <= i < whole.len() ==> is_digit_char(#[trigger] whole[i])) by {
            assert(forall|i: int| 0 <= i < prefix.len() ==> is_digit_char(#[trigger] prefix[i]));
        }
    }
}

/// The two-digit rendering of 0..=99 is two digits with that value.
pub proof fn lemma_two_digit_rep(n: int)
    requires
        0 <= n <= 99,
    ensures
        two_digit_rep(n).len() == 2,
        all_digits(two_digit_rep(n)),
        digits_val(two_digit_rep(n)) == n,
{
    if n < 10 {
        let s = seq!['0', digit_char(n)];
        assert(s.drop_last() =~= seq!['0']);
        assert(seq!['0'].drop_last() =~= Seq::<char>::empty());
        assert(digits_val(seq!['0']) == digits_val(Seq::<char>::empty()) * 10 + digit_val('0'));
        assert(digits_val(s) == digits_val(seq!['0']) * 10 + digit_val(s.last()));
        assert(forall|i: int| 0 <= i < 2 ==> is_digit_char(#[trigger] s[i]));
    } else {
        lemma_dec_rep(n);
    }
}

pub proof fn lemma_digits_val_bound(s: Seq<char>)
    requires
        all_digits(s),
    ensures
        0 <= digits_val(s),
        s.len() <= 1 ==> digits_val(s) < 10,
        s.len() <= 2 ==> digits_val(s) < 100,
        s.len() <= 3 ==> digits_val(s) < 1000,
        s.len() <= 4 ==> digits_val(s) < 10000,
        s.len() <= 5 ==> digits_val(s) < 100000,
        s.len() <= 6 ==> digits_val(s) < 1000000,
        s.len() <= 7 ==> digits_val(s) < 10000000,
        s.len() <= 8 ==> digits_val(s) < 100000000,
        s.len() <= 9 ==> digits_val(s) < 1000000000,
    decreases s.len(),
{
    if s.len() > 0 {
        let pre = s.drop_last();
        assert(all_digits(pre)) by {
            assert(forall|i: int| 0 <= i < pre.len() ==> pre[i] == s[i]);
        }
        lemma_digits_val_bound(pre);
        assert(is_digit_char(s.last()));
        assert(0 <= digit_val(s.last()) <= 9);
        assert(digits_val(s) == digits_val(pre) * 10 + digit_val(s.last()));
    }
}

/// Trimming a sequence that does not end in whitespace leaves it unchanged.
pub proof fn lemma_trim_end_noop(s: Seq<char>)
    requires
        s.len() == 0 || !is_ws_char(s.last()),
    ensures
        trim_end_ws_s(s) == s,
{
}

// ----- executable helpers -----

pub fn is_digit(c: char) -> (r: bool)
    ensures
        r == is_digit_char(c),
{
    c as u32 >= 48 && c as u32 <= 57
}

pub fn is_ws(c: char) -> (r: bool)
    ensures
        r == is_ws_char(c),
{
    let u = c as u32;
    u == 32 || u == 9 || u == 10 || u == 13 || u == 11 || u == 12 || u == 0x85 || u == 0xa0
        || u == 0x1680 || (u >= 0x2000 && u <= 0x200a) || u == 0x2028 || u == 0x2029 || u == 0x202f
        || u == 0x205f || u == 0x3000
}

pub fn str_eq(a: &str, b: &str) -> (r: bool)
    ensures
        r == (a@ == b@),
{
    let alen = a.unicode_len();
    let blen = b.unicode_len();
    if alen != blen {
        assert(a@ != b@);
        return false;
    }
    let mut i: usize = 0;
    while i < alen
        invariant
            alen == a@.len(),
            blen == b@.len(),
            alen == blen,
            i <= alen,
            forall|j: int| 0 <= j < i ==> a@[j] == b@[j],
        decreases alen - i,
    {
        if a.get_char(i) != b.get_char(i) {
            assert(a@ != b@);
            return false;
        }
        i = i + 1;
    }
    assert(a@ =~= b@);
    true
}

fn ci_eq(a: char, b: char) -> (r: bool)
    ensures
        r == ci_eq_char(a, b),
{
    let ua = a as u32;
    let ub = b as u32;
    a == b || (ua >= 65 && ua <= 90 && ub == ua + 32) || (ua >= 97 && ua <= 122 && ub == ua - 32)
}

pub fn str_eq_ci(a: &str, b: &str) -> (r: bool)
    ensures
        r == ci_eq_seq(a@, b@),
{
    let alen = a.unicode_len();
    let blen = b.unicode_len();
    if alen != blen {
        return false;
    }
    let mut i: usize = 0;
    while i < alen
        invariant
            alen == a@.len(),
            blen == b@.len(),
            alen == blen,
            i <= alen,
            forall|j: int| 0 <= j < i ==> ci_eq_char(#[trigger] a@[j], #[trigger] b@[j]),
        decreases alen - i,
    {
        if !ci_eq(a.get_char(i), b.get_char(i)) {
            return false;
        }
        i = i + 1;
    }
    true
}

pub fn starts_with(s: &str, p: &str) -> (r: bool)
    ensures
        r == is_prefix(s@, p@),
{
    let slen = s.unicode_len();
    let plen = p.unicode_len();
    if plen > slen {
        return false;
    }
    let mut i: usize = 0;
    while i < plen
        invariant
            slen == s@.len(),
            plen == p@.len(),
            plen <= slen,
            i <= plen,
            forall|j: int| 0 <= j < i ==> s@[j] == p@[j],
        decreases plen - i,
    {
        if s.get_char(i) != p.get_char(i) {
            assert(s@.subrange(0, p@.len() as int)[i as int] != p@[i as int]);
            return false;
        }
        i = i + 1;
    }
    assert(s@.subrange(0, p@.len() as int) =~= p@);
    true
}

pub fn ends_with(s: &str, p: &str) -> (r: bool)
    ensures
        r == is_suffix(s@, p@),
{
    let slen = s.unicode_len();
    let plen = p.unicode_len();
    if plen > slen {
        return false;
    }
    let off = slen - plen;
    let mut i: usize = 0;
    while i < plen
        invariant
            slen == s@.len(),
            plen == p@.len(),
            plen <= slen,
            off == slen - plen,
            i <= plen,
            forall|j: int| 0 <= j < i ==> s@[off + j] == p@[j],
        decreases plen - i,
    {
        if s.get_char(off + i) != p.get_char(i) {
            assert(s@.subrange(s@.len() - p@.len(), s@.len() as int)[i as int] != p@[i as int]);
            return false;
        }
        i = i + 1;
    }
    assert(s@.subrange(s@.len() - p@.len(), s@.len() as int) =~= p@);
    true
}

fn matches_at_exec(s: &str, n: &str, i: usize) -> (r: bool)
    requires
        i + n@.len() <= s@.len(),
    ensures
        r == matches_at(s@, n@, i as int),
{
    let slen = s.unicode_len();
    let nlen = n.unicode_len();
    let mut j: usize = 0;
    while j < nlen
        invariant
            slen == s@.len(),
            nlen == n@.len(),
            i + nlen <= slen,
            j <= nlen,
            forall|k: int| 0 <= k < j ==> s@[i + k] == n@[k],
        decreases nlen - j,
    {
        if s.get_char(i + j) != n.get_char(j) {
            assert(s@.subrange(i as int, i + n@.len())[j as int] != n@[j as int]);
            return false;
        }
        j = j + 1;
    }
    assert(s@.subrange(i as int, i + n@.len()) =~= n@);
    true
}

pub fn contains_sub(s: &str, n: &str) -> (r: bool)
    ensures
        r == contains_seq(s@, n@),
{
    let slen = s.unicode_len();
    let nlen = n.unicode_len();
    if nlen > slen {
        assert(forall|i: int| !matches_at(s@, n@, i));
        return false;
    }
    if nlen == 0 {
        assert(s@.subrange(0, 0) =~= n@);
        assert(matches_at(s@, n@, 0));
        return true;
    }
    let mut i: usize = 0;
    while i <= slen - nlen
        invariant
            slen == s@.len(),
            nlen == n@.len(),
            0 < nlen <= slen,
            i <= slen - nlen + 1,
            forall|k: int| 0 <= k < i ==> !matches_at(s@, n@, k),
        decreases slen - nlen + 1 - i,
    {
        if matches_at_exec(s, n, i) {
            assert(contains_seq(s@, n@));
            return true;
        }
        i = i + 1;
    }
    assert(forall|k: int| !matches_at(s@, n@, k)) by {
        assert(forall|k: int| k + n@.len() > s@.len() ==> !matches_at(s@, n@, k));
    }
    false
}

pub fn trim_end_ws(s: &str) -> (r: &str)
    ensures
        r@ == trim_end_ws_s(s@),
{
    let mut end = s.unicode_len();
    proof {
        assert(s@.subrange(0, end as int) =~= s@);
    }
    while end > 0 && is_ws(s.get_char(end - 1))
        invariant
            end <= s@.len(),
            trim_end_ws_s(s@) == trim_end_ws_s(s@.subrange(0, end as int)),
        decreases end,
    {
        proof {
            let cur = s@.subrange(0, end as int);
            assert(cur.drop_last() =~= s@.subrange(0, end - 1));
        }
        end = end - 1;
    }
    proof {
        let cur = s@.subrange(0, end as int);
        lemma_trim_end_noop(cur);
    }
    s.substring_char(0, end)
}

pub fn trim_start_ws(s: &str) -> (r: &str)
    ensures
        r@ == trim_start_ws_s(s@),
{
    let len = s.unicode_len();
    let mut start: usize = 0;
    proof {
        assert(s@.subrange(0, s@.len() as int) =~= s@);
    }
    while start < len && is_ws(s.get_char(start))
        invariant
            start <= len,
            len == s@.len(),
            trim_start_ws_s(s@) == trim_start_ws_s(s@.subrange(start as int, s@.len() as int)),
        decreases len - start,
    {
        proof {
            let cur = s@.subrange(start as int, s@.len() as int);
            assert(cur.subrange(1, cur.len() as int) =~= s@.subrange(start + 1, s@.len() as int));
        }
        start = start + 1;
    }
    s.substring_char(start, len)
}

pub fn trim_ws(s: &str) -> (r: &str)
    ensures
        r@ == trim_ws_s(s@),
{
    trim_start_ws(trim_end_ws(s))
}

/// Checks that every character of `s` is a decimal digit.
pub fn check_all_digits(s: &str) -> (r: bool)
    ensures
        r == all_digits(s@),
{
    let len = s.unicode_len();
    let mut i: usize = 0;
    while i < len
        invariant
            len == s@.len(),
            i <= len,
            forall|j: int| 0 <= j < i ==> is_digit_char(#[trigger] s@[j]),
        decreases len - i,
    {
        if !is_digit(s.get_char(i)) {
            return false;
        }
        i = i + 1;
    }
    true
}

/// Value of a short all-digit string.
pub fn digits_value(s: &str) -> (r: u32)
    requires
        all_digits(s@),
        s@.len() <= 9,
    ensures
        r == digits_val(s@),
{
    let len = s.unicode_len();
    let mut i: usize = 0;
    let mut acc: u32 = 0;
    proof {
        assert(s@.subrange(0, 0) =~= Seq::<char>::empty());
    }
    while i < len
        invariant
            len == s@.len() <= 9,
            all_digits(s@),
            i <= len,
            acc == digits_val(s@.subrange(0, i as int)),
        decreases len - i,
    {
        let c = s.get_char(i);
        proof {
            let pre = s@.subrange(0, i + 1);
            assert(pre.drop_last() =~= s@.subrange(0, i as int));
            assert(all_digits(pre)) by {
                assert(forall|j: int| 0 <= j < pre.len() ==> pre[j] == s@[j]);
            }
            lemma_digits_val_bound(pre);
            lemma_digits_val_bound(s@.subrange(0, i as int));
        }
        acc = acc * 10 + (c as u32 - 48);
        i = i + 1;
    }
    proof {
        assert(s@.subrange(0, s@.len() as int) =~= s@);
    }
    acc
}

fn digit_str(d: u64) -> (r: &'static str)
    requires
        d < 10,
    ensures
        r@ =~= seq![digit_char(d as int)],
{
    proof {
        reveal_strlit("0");
        reveal_strlit("1");
        reveal_strlit("2");
        reveal_strlit("3");
        reveal_strlit("4");
        reveal_strlit("5");
        reveal_strlit("6");
        reveal_strlit("7");
        reveal_strlit("8");
        reveal_strlit("9");
    }
    if d == 0 {
        "0"
    } else if d == 1 {
        "1"
    } else if d == 2 {
        "2"
    } else if d == 3 {
        "3"
    } else if d == 4 {
        "4"
    } else if d == 5 {
        "5"
    } else if d == 6 {
        "6"
    } else if d == 7 {
        "7"
    } else if d == 8 {
        "8"
    } else {
        "9"
    }
}

/// Renders `n` in decimal, no padding.
pub fn dec_string(n: u64) -> (r: String)
    ensures
        r@ == dec_rep(n as int),
    decreases n,
{
    if n < 10 {
        String::from_str(digit_str(n))
    } else {
        let mut s = dec_string(n / 10);
        s.append(digit_str(n % 10));
        s
    }
}

/// Renders `n` in decimal, left-padded to two digits.
pub fn two_digit_string(n: u64) -> (r: String)
    ensures
        r@ == two_digit_rep(n as int),
{
    if n < 10 {
        proof {
            reveal_strlit("0");
        }
        let mut s = String::from_str("0");
        s.append(digit_str(n));
        assert(s@ =~= two_digit_rep(n as int));
        s
    } else {
        dec_string(n)
    }
}

} // verus!
