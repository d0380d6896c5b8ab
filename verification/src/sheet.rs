//! Spreadsheet helpers: cell references and ranges, column letters, serial
//! dates, number-format analysis, horizontal alignment and built-in formats.

use vstd::prelude::*;
use crate::chars::{
    all_digits, chars_of, copy_range, dec, digit_char, digits_value, find_char, find_from,
    is_digit, lemma_dec, lemma_find_from, parse_unsigned, parse_unsigned_chars, trim, trim_chars,
    abs_dec, ascii_lower, ascii_lower_exec, dec_int, dec_int_exec,
};
use crate::xml::str_eq;

verus! {

// ------------------------------------------------------------------------
// Alignment and borders
// ------------------------------------------------------------------------

/// Horizontal alignment of a cell format.
#[derive(Clone, Copy, Debug, PartialEq, Eq, Structural)]
pub enum HAlign {
    Left,
    Center,
    Right,
}

/// Which edges of a cell carry a border.
#[derive(Clone, Copy, Debug, PartialEq, Eq, Structural)]
pub struct BorderEdges {
    pub left: bool,
    pub right: bool,
    pub top: bool,
    pub bottom: bool,
}

impl Default for BorderEdges {
    fn default() -> (b: BorderEdges)
        ensures
            b == (BorderEdges { left: false, right: false, top: false, bottom: false }),
    {
        BorderEdges { left: false, right: false, top: false, bottom: false }
    }
}

/// Where text sits in a cell.
#[derive(Clone, Copy, Debug, PartialEq, Eq, Structural)]
pub enum Align {
    Left,
    Right,
    Center,
}

/// The text alignment of a cell-format alignment.
pub fn map_align(h: HAlign) -> (a: Align)
    ensures
        a == match h {
            HAlign::Left => Align::Left,
            HAlign::Center => Align::Center,
            HAlign::Right => Align::Right,
        },
{
    match h {
        HAlign::Left => Align::Left,
        HAlign::Center => Align::Center,
        HAlign::Right => Align::Right,
    }
}

/// `horizontal` attribute of `<alignment>`.
pub open spec fn spec_h_align(s: Seq<char>) -> Option<HAlign> {
    if s == "left"@ {
        Some(HAlign::Left)
    } else if s == "center"@ || s == "centerContinuous"@ {
        Some(HAlign::Center)
    } else if s == "right"@ {
        Some(HAlign::Right)
    } else {
        None
    }
}

/// Horizontal alignment named by an `<alignment horizontal=..>` value.
pub fn h_align(s: &str) -> (r: Option<HAlign>)
    ensures
        r == spec_h_align(s@),
{
    if str_eq(s, "left") {
        Some(HAlign::Left)
    } else if str_eq(s, "center") || str_eq(s, "centerContinuous") {
        Some(HAlign::Center)
    } else if str_eq(s, "right") {
        Some(HAlign::Right)
    } else {
        None
    }
}

// ------------------------------------------------------------------------
// Built-in number formats
// ------------------------------------------------------------------------

/// Format code of a built-in `numFmtId`.
pub open spec fn spec_builtin_format(id: u32) -> Seq<char> {
    if id == 1 {
        "0"@
    } else if id == 2 {
        "0.00"@
    } else if id == 3 || id == 37 || id == 38 {
        "#,##0"@
    } else if id == 4 || id == 39 || id == 40 {
        "#,##0.00"@
    } else if id == 9 {
        "0%"@
    } else if id == 10 {
        "0.00%"@
    } else if id == 11 {
        "0.00E+00"@
    } else if id == 14 {
        "m/d/yyyy"@
    } else if id == 15 {
        "d-mmm-yy"@
    } else if id == 16 {
        "d-mmm"@
    } else if id == 17 {
        "mmm-yy"@
    } else if id == 22 {
        "m/d/yyyy h:mm"@
    } else if id == 44 {
        "$#,##0.00"@
    } else if id == 49 {
        "@"@
    } else {
        "General"@
    }
}

/// The format code of a built-in number format id (`General` when unknown).
pub fn builtin_format(id: u32) -> (r: &'static str)
    ensures
        r@ == spec_builtin_format(id),
{
    if id == 1 {
        "0"
    } else if id == 2 {
        "0.00"
    } else if id == 3 || id == 37 || id == 38 {
        "#,##0"
    } else if id == 4 || id == 39 || id == 40 {
        "#,##0.00"
    } else if id == 9 {
        "0%"
    } else if id == 10 {
        "0.00%"
    } else if id == 11 {
        "0.00E+00"
    } else if id == 14 {
        "m/d/yyyy"
    } else if id == 15 {
        "d-mmm-yy"
    } else if id == 16 {
        "d-mmm"
    } else if id == 17 {
        "mmm-yy"
    } else if id == 22 {
        "m/d/yyyy h:mm"
    } else if id == 44 {
        "$#,##0.00"
    } else if id == 49 {
        "@"
    } else {
        "General"
    }
}

// ------------------------------------------------------------------------
// Column letters and cell references
// ------------------------------------------------------------------------

/// The letter for `0 <= d < 26` (`A` to `Z`).
pub open spec fn letter(d: int) -> char {
    (('A' as int) + d) as char
}

/// Bijective base-26 letters of `n >= 1` (`1` is `A`, `26` is `Z`, `27` is
/// `AA`); empty for 0.
pub open spec fn col_letters(n: nat) -> Seq<char>
    decreases n,
{
    if n == 0 {
        Seq::empty()
    } else {
        col_letters(((n - 1) / 26) as nat).push(letter((n - 1) % 26))
    }
}

/// Column name of a 0-based column index (`0` is `A`, `26` is `AA`).
pub fn col_letter(c: usize) -> (s: String)
    requires
        c < usize::MAX,
    ensures
        s@ == col_letters((c + 1) as nat),
{
    let mut n = c + 1;
    let mut suffix: Vec<char> = Vec::new();
    assert(col_letters(n as nat) + suffix@ =~= col_letters(n as nat));
    while n > 0
        invariant
            col_letters(n as nat) + suffix@ == col_letters((c + 1) as nat),
        decreases n,
    {
        let rem = (n - 1) % 26;
        let ch = char_of_letter(rem as u32);
        let ghost old_suffix = suffix@;
        suffix.insert(0, ch);
        assert(col_letters(n as nat) == col_letters(((n - 1) / 26) as nat).push(ch));
        assert(col_letters(((n - 1) / 26) as nat) + suffix@ =~= col_letters(n as nat)
            + old_suffix);
        n = (n - 1) / 26;
    }
    assert(col_letters(0) + suffix@ =~= suffix@);
    crate::chars::string_of(suffix.as_slice())
}

fn char_of_letter(d: u32) -> (c: char)
    requires
        d < 26,
    ensures
        c == letter(d as int),
{
    let v: u32 = 65 + d;
    proof {
        assert(('A' as int) == 65);
    }
    match core::char::from_u32(v) {
        Some(ch) => ch,
        None => 'A',
    }
}

/// ASCII letter.
pub open spec fn is_ascii_alpha(c: char) -> bool {
    ('a' <= c && c <= 'z') || ('A' <= c && c <= 'Z')
}

/// Value of a column letter: `A`/`a` is 1, `Z`/`z` is 26.
pub open spec fn letter_val(c: char) -> int {
    if 'a' <= c && c <= 'z' {
        c as int - 'a' as int + 1
    } else {
        c as int - 'A' as int + 1
    }
}

/// Number of leading ASCII letters.
pub open spec fn lead_alpha(s: Seq<char>) -> nat
    decreases s.len(),
{
    if s.len() > 0 && is_ascii_alpha(s[0]) {
        1 + lead_alpha(s.drop_first())
    } else {
        0
    }
}

/// Column number of letters, accumulated modulo 2^32.
pub open spec fn col_acc(s: Seq<char>) -> nat
    decreases s.len(),
{
    if s.len() == 0 {
        0
    } else {
        ((col_acc(s.drop_last()) * 26 + letter_val(s.last())) % 0x1_0000_0000) as nat
    }
}

/// `n - 1`, or 0 for 0.
pub open spec fn sat_dec(n: nat) -> nat {
    if n == 0 {
        0
    } else {
        (n - 1) as nat
    }
}

/// `A1`-style reference to 0-based (row, column): the leading letters give the
/// column, the rest is the row number (1 when it does not parse).
pub open spec fn spec_parse_ref(s: Seq<char>) -> (u32, u32) {
    let k = lead_alpha(s) as int;
    let row = match parse_unsigned(s.skip(k), 0xFFFF_FFFF) {
        Some(r) => r,
        None => 1,
    };
    (sat_dec(row) as u32, sat_dec(col_acc(s.take(k))) as u32)
}

pub proof fn lemma_parse_ref_bound(s: Seq<char>)
    ensures
        spec_parse_ref(s).0 < u32::MAX,
        spec_parse_ref(s).1 < u32::MAX,
{
    let k = lead_alpha(s) as int;
    lemma_col_acc_bound(s.take(k));
}

pub proof fn lemma_col_acc_bound(s: Seq<char>)
    ensures
        col_acc(s) < 0x1_0000_0000,
    decreases s.len(),
{
    if s.len() > 0 {
        lemma_col_acc_bound(s.drop_last());
    }
}

pub proof fn lemma_lead_alpha(s: Seq<char>, k: int)
    requires
        0 <= k <= s.len(),
        forall|j: int| 0 <= j < k ==> is_ascii_alpha(s[j]),
        k < s.len() ==> !is_ascii_alpha(s[k]),
    ensures
        lead_alpha(s) == k,
    decreases k,
{
    if k > 0 {
        assert forall|j: int| 0 <= j < k - 1 implies is_ascii_alpha(s.drop_first()[j]) by {
            assert(s.drop_first()[j] == s[j + 1]);
        }
        if k < s.len() {
            assert(s.drop_first()[k - 1] == s[k]);
        }
        lemma_lead_alpha(s.drop_first(), k - 1);
    }
}

fn ref_chars(s: &[char]) -> (r: (u32, u32))
    ensures
        r == spec_parse_ref(s@),
        r.0 < u32::MAX,
        r.1 < u32::MAX,
{
    let mut i: usize = 0;
    let mut col: u32 = 0;
    while i < s.len() && (('a' <= s[i] && s[i] <= 'z') || ('A' <= s[i] && s[i] <= 'Z'))
        invariant
            i <= s.len(),
            forall|j: int| 0 <= j < i ==> is_ascii_alpha(s@[j]),
            col == col_acc(s@.take(i as int)),
        decreases s.len() - i,
    {
        let c = s[i];
        let v: u64 = if 'a' <= c && c <= 'z' {
            (c as u32 - 'a' as u32 + 1) as u64
        } else {
            (c as u32 - 'A' as u32 + 1) as u64
        };
        assert(s@.take(i + 1).drop_last() =~= s@.take(i as int));
        let next: u64 = ((col as u64) * 26 + v) % 0x1_0000_0000;
        col = next as u32;
        i += 1;
    }
    proof {
        lemma_lead_alpha(s@, i as int);
    }
    let rest = copy_range(s, i, s.len());
    assert(rest@ =~= s@.skip(i as int));
    let row: u32 = match parse_unsigned_chars(rest.as_slice(), 0xFFFF_FFFF) {
        Some(r) => r as u32,
        None => 1,
    };
    (if row == 0 {
        0
    } else {
        row - 1
    }, if col == 0 {
        0
    } else {
        col - 1
    })
}

/// `"A1"` to 0-based (row, column); `"12"` and `"A"` are tolerated.
pub fn parse_ref(s: &str) -> (r: (u32, u32))
    ensures
        r == spec_parse_ref(s@),
        r.0 < u32::MAX,
        r.1 < u32::MAX,
{
    let cs = chars_of(s);
    ref_chars(cs.as_slice())
}

/// Smaller of two.
pub open spec fn min_u32(a: u32, b: u32) -> u32 {
    if a <= b {
        a
    } else {
        b
    }
}

/// Larger of two.
pub open spec fn max_u32(a: u32, b: u32) -> u32 {
    if a >= b {
        a
    } else {
        b
    }
}

/// `"A1:C3"` to (row0, col0, row1, col1), 0-based inclusive and ordered; a
/// single reference is a one-cell range. Text after a second `:` is ignored.
pub open spec fn spec_parse_range(s: Seq<char>) -> (u32, u32, u32, u32) {
    let k = find_from(s, 0, ':');
    let a = spec_parse_ref(s.take(k));
    let b = if k < s.len() {
        let rest = s.skip(k + 1);
        spec_parse_ref(rest.take(find_from(rest, 0, ':')))
    } else {
        a
    };
    (min_u32(a.0, b.0), min_u32(a.1, b.1), max_u32(a.0, b.0), max_u32(a.1, b.1))
}

/// A range reference to its ordered corners.
pub fn parse_range(s: &str) -> (r: (u32, u32, u32, u32))
    ensures
        r == spec_parse_range(s@),
        r.0 <= r.2,
        r.1 <= r.3,
        r.2 < u32::MAX,
        r.3 < u32::MAX,
{
    let cs = chars_of(s);
    let k = find_char(cs.as_slice(), 0, ':');
    let first = copy_range(cs.as_slice(), 0, k);
    assert(first@ =~= s@.take(k as int));
    let a = ref_chars(first.as_slice());
    let b = if k < cs.len() {
        let rest = copy_range(cs.as_slice(), k + 1, cs.len());
        assert(rest@ =~= s@.skip(k + 1));
        let k2 = find_char(rest.as_slice(), 0, ':');
        let second = copy_range(rest.as_slice(), 0, k2);
        assert(second@ =~= rest@.take(k2 as int));
        ref_chars(second.as_slice())
    } else {
        a
    };
    (
        if a.0 <= b.0 {
            a.0
        } else {
            b.0
        },
        if a.1 <= b.1 {
            a.1
        } else {
            b.1
        },
        if a.0 >= b.0 {
            a.0
        } else {
            b.0
        },
        if a.1 >= b.1 {
            a.1
        } else {
            b.1
        },
    )
}

pub proof fn lemma_col_letters(n: nat)
    requires
        n < 0x1_0000_0000,
    ensures
        forall|j: int| 0 <= j < col_letters(n).len() ==> is_ascii_alpha(#[trigger] col_letters(n)[j]),
        col_acc(col_letters(n)) == n,
    decreases n,
{
    if n > 0 {
        let q = ((n - 1) / 26) as nat;
        let rm = (n - 1) % 26;
        lemma_col_letters(q);
        let l = col_letters(n);
        assert(l.drop_last() =~= col_letters(q));
        assert(l.last() == letter(rm));
        assert(letter(rm) as int == 65 + rm);
        assert(letter_val(letter(rm)) == rm + 1);
        assert(q * 26 + rm + 1 == n);
        assert forall|j: int| 0 <= j < l.len() implies is_ascii_alpha(#[trigger] l[j]) by {
            if j < l.len() - 1 {
                assert(l[j] == col_letters(q)[j]);
            }
        }
    }
}

/// Reading a reference back: the column letters of 0-based column `c`
/// followed by the row number `r + 1` in decimal parse to `(r, c)`.
pub proof fn law_parse_ref_of_col_letters(r: u32, c: u32)
    requires
        r < u32::MAX,
        c < u32::MAX,
    ensures
        spec_parse_ref(col_letters((c + 1) as nat) + dec((r + 1) as nat)) == (r, c),
{
    let l = col_letters((c + 1) as nat);
    let d = dec((r + 1) as nat);
    let s = l + d;
    lemma_col_letters((c + 1) as nat);
    lemma_dec((r + 1) as nat);
    assert(is_digit(d[0]));
    assert forall|j: int| 0 <= j < l.len() implies is_ascii_alpha(s[j]) by {
        assert(s[j] == l[j]);
    }
    assert(s[l.len() as int] == d[0]);
    lemma_lead_alpha(s, l.len() as int);
    assert(s.take(l.len() as int) =~= l);
    assert(s.skip(l.len() as int) =~= d);
    assert(parse_unsigned(d, 0xFFFF_FFFF) == Some((r + 1) as nat));
}

/// A column name followed by row `1` reads back as row 0 of that column
/// (`A1` is `(0, 0)`, `AA1` is `(0, 26)`).
pub proof fn law_col_letter_reads_back(c: u32)
    requires
        c < u32::MAX,
    ensures
        spec_parse_ref(col_letters((c + 1) as nat) + "1"@) == (0u32, c),
{
    reveal_strlit("1");
    assert(dec(1) =~= "1"@);
    law_parse_ref_of_col_letters(0, c);
}

// ------------------------------------------------------------------------
// Serial dates
// ------------------------------------------------------------------------

/// Proleptic Gregorian (year, month, day) of a day count from 1970-01-01
/// (month and day 1-based), by eras of 400 years that start on March 1.
pub open spec fn spec_civil(z0: int) -> (int, int, int) {
    let z = z0 + 719468;
    let era = z / 146097;
    let doe = z - era * 146097;
    let yoe = (doe - doe / 1460 + doe / 36524 - doe / 146096) / 365;
    let y = yoe + era * 400;
    let doy = doe - (365 * yoe + yoe / 4 - yoe / 100);
    let mp = (5 * doy + 2) / 153;
    let d = doy - (153 * mp + 2) / 5 + 1;
    let m = if mp < 10 {
        mp + 3
    } else {
        mp - 9
    };
    (
        y + if m <= 2 {
            1int
        } else {
            0int
        },
        m,
        d,
    )
}

pub proof fn lemma_floor_div_neg(z: int)
    requires
        z < 0,
    ensures
        -((146096 - z) / 146097) == z / 146097,
{
    let q = z / 146097;
    let r = z % 146097;
    assert(z == q * 146097 + r && 0 <= r < 146097) by (nonlinear_arith)
        requires
            q == z / 146097,
            r == z % 146097,
    ;
    assert((146096 - z) / 146097 == -q) by (nonlinear_arith)
        requires
            z == q * 146097 + r,
            0 <= r < 146097,
    ;
}

proof fn lemma_year_of_era(doe: u64)
    by (bit_vector)
    requires
        doe <= 146096,
    ensures
        ({
            let yoe = (doe - doe / 1460 + doe / 36524 - doe / 146096) / 365;
            let doy = doe - (365 * yoe + yoe / 4 - yoe / 100);
            0 <= doy && doy <= 365
        }),
{
}

proof fn lemma_month_day(doy: u64)
    by (bit_vector)
    requires
        doy <= 365,
    ensures
        ({
            let mp = (5 * doy + 2) / 153;
            let d = doy - (153 * mp + 2) / 5 + 1;
            mp <= 11 && 1 <= d && d <= 31
        }),
{
}

/// Every day count gives a month from 1 to 12 and a day from 1 to 31.
pub proof fn law_civil_date_in_range(z0: int)
    ensures
        1 <= spec_civil(z0).1 <= 12,
        1 <= spec_civil(z0).2 <= 31,
{
    let z = z0 + 719468;
    let era = z / 146097;
    let doe = z - era * 146097;
    assert(0 <= doe < 146097) by (nonlinear_arith)
        requires
            era == z / 146097,
            doe == z - era * 146097,
    ;
    let x = doe as u64;
    lemma_year_of_era(x);
    let yoe = (doe - doe / 1460 + doe / 36524 - doe / 146096) / 365;
    let doy = doe - (365 * yoe + yoe / 4 - yoe / 100);
    assert(0 <= doy <= 365);
    let dy = doy as u64;
    lemma_month_day(dy);
}

/// Civil date of a day count relative to 1970-01-01.
pub fn civil_from_days(z: i64) -> (r: (i64, i64, i64))
    requires
        z <= i64::MAX - 719468,
    ensures
        (r.0 as int, r.1 as int, r.2 as int) == spec_civil(z as int),
{
    let z = z + 719468;
    let era: i64 = if z >= 0 {
        z / 146097
    } else {
        proof {
            lemma_floor_div_neg(z as int);
        }
        -((146096 - z) / 146097)
    };
    proof {
        let q = z as int / 146097;
        assert(0 <= z - q * 146097 < 146097) by (nonlinear_arith)
            requires
                q == z as int / 146097,
        ;
        assert(-70_000_000_000_000int <= q <= 70_000_000_000_000int) by (nonlinear_arith)
            requires
                q == z as int / 146097,
                -0x8000_0000_0000_0000int <= z <= 0x7fff_ffff_ffff_ffffint,
        ;
    }
    let doe = z - era * 146097;
    let yoe = (doe - doe / 1460 + doe / 36524 - doe / 146096) / 365;
    proof {
        assert(0 <= yoe <= 400) by (nonlinear_arith)
            requires
                0 <= doe < 146097,
                yoe == (doe - doe / 1460 + doe / 36524 - doe / 146096) / 365,
        ;
    }
    let y = yoe + era * 400;
    let doy = doe - (365 * yoe + yoe / 4 - yoe / 100);
    proof {
        assert(-200000 <= doy <= 200000) by (nonlinear_arith)
            requires
                0 <= doe < 146097,
                0 <= yoe <= 400,
                doy == doe - (365 * yoe + yoe / 4 - yoe / 100),
        ;
    }
    let mp = if 5 * doy + 2 >= 0 {
        (5 * doy + 2) / 153
    } else {
        proof {
            assert(0 - (5 * doy + 2) > 0);
        }
        -((152 - (5 * doy + 2)) / 153)
    };
    proof {
        let t = 5 * doy + 2;
        if t < 0 {
            let q = t / 153;
            let r = t % 153;
            assert(t == q * 153 + r && 0 <= r < 153) by (nonlinear_arith)
                requires
                    q == t / 153,
                    r == t % 153,
            ;
            assert((152 - t) / 153 == -q) by (nonlinear_arith)
                requires
                    t == q * 153 + r,
                    0 <= r < 153,
            ;
        }
        assert(-10000 <= mp <= 10000) by (nonlinear_arith)
            requires
                mp == (5 * doy + 2) / 153,
                -200000 <= doy <= 200000,
        ;
    }
    let dd = if 153 * mp + 2 >= 0 {
        (153 * mp + 2) / 5
    } else {
        -((4 - (153 * mp + 2)) / 5)
    };
    proof {
        let t = 153 * mp + 2;
        if t < 0 {
            let q = t / 5;
            let r = t % 5;
            assert(t == q * 5 + r && 0 <= r < 5) by (nonlinear_arith)
                requires
                    q == t / 5,
                    r == t % 5,
            ;
            assert((4 - t) / 5 == -q) by (nonlinear_arith)
                requires
                    t == q * 5 + r,
                    0 <= r < 5,
            ;
        }
        assert(-400000 <= dd <= 400000) by (nonlinear_arith)
            requires
                dd == (153 * mp + 2) / 5,
                -10000 <= mp <= 10000,
        ;
    }
    let d = doy - dd + 1;
    let m = if mp < 10 {
        mp + 3
    } else {
        mp - 9
    };
    (y + if m <= 2 {
        1
    } else {
        0
    }, m, d)
}

/// Civil date of a spreadsheet serial day number (day 25569 is 1970-01-01).
pub open spec fn spec_ymd_from_serial(serial: int) -> (int, int, int) {
    spec_civil(serial - 25569)
}

/// (year, month, day) of a spreadsheet date serial.
pub fn ymd_from_excel_serial(serial: i64) -> (r: (i64, i64, i64))
    requires
        i64::MIN + 25569 <= serial <= i64::MAX - 693899,
    ensures
        (r.0 as int, r.1 as int, r.2 as int) == spec_ymd_from_serial(serial as int),
{
    civil_from_days(serial - 25569)
}

// ------------------------------------------------------------------------
// Number-format codes
// ------------------------------------------------------------------------

/// Number of leading `0` or `#` placeholders.
pub open spec fn lead_placeholders(s: Seq<char>) -> nat
    decreases s.len(),
{
    if s.len() > 0 && (s[0] == '0' || s[0] == '#') {
        1 + lead_placeholders(s.drop_first())
    } else {
        0
    }
}

/// Decimal places of a format section: the `0`/`#` placeholders right after
/// its first `.`.
pub open spec fn spec_decimals_in(s: Seq<char>) -> nat {
    let k = find_from(s, 0, '.');
    if k >= s.len() {
        0
    } else {
        lead_placeholders(s.skip(k + 1))
    }
}

pub proof fn lemma_lead_placeholders(s: Seq<char>, k: int)
    requires
        0 <= k <= s.len(),
        forall|j: int| 0 <= j < k ==> (s[j] == '0' || s[j] == '#'),
        k < s.len() ==> !(s[k] == '0' || s[k] == '#'),
    ensures
        lead_placeholders(s) == k,
    decreases k,
{
    if k > 0 {
        assert forall|j: int| 0 <= j < k - 1 implies (s.drop_first()[j] == '0'
            || s.drop_first()[j] == '#') by {
            assert(s.drop_first()[j] == s[j + 1]);
        }
        if k < s.len() {
            assert(s.drop_first()[k - 1] == s[k]);
        }
        lemma_lead_placeholders(s.drop_first(), k - 1);
    }
}

/// Decimal places a number-format section asks for.
pub fn decimals_in(sect: &str) -> (n: usize)
    ensures
        n == spec_decimals_in(sect@),
{
    let cs = chars_of(sect);
    let k = find_char(cs.as_slice(), 0, '.');
    if k >= cs.len() {
        return 0;
    }
    let mut j = k + 1;
    while j < cs.len() && (cs[j] == '0' || cs[j] == '#')
        invariant
            k < j <= cs.len(),
            forall|i: int| k < i < j ==> (cs@[i] == '0' || cs@[i] == '#'),
        decreases cs.len() - j,
    {
        j += 1;
    }
    proof {
        let t = sect@.skip(k + 1);
        assert forall|i: int| 0 <= i < j - k - 1 implies (t[i] == '0' || t[i] == '#') by {
            assert(t[i] == cs@[k + 1 + i]);
        }
        if j < cs.len() {
            assert(t[j - k - 1] == cs@[j as int]);
        }
        lemma_lead_placeholders(t, j - k - 1);
    }
    j - k - 1
}

/// The first `k` characters of `s` with a `,` before each one (but the first)
/// that has a multiple of three characters after it.
pub open spec fn group_upto(s: Seq<char>, k: int) -> Seq<char>
    decreases k,
{
    if k <= 0 {
        Seq::empty()
    } else {
        let prev = group_upto(s, k - 1);
        let i = k - 1;
        if i > 0 && (s.len() - i) % 3 == 0 {
            prev.push(',').push(s[i])
        } else {
            prev.push(s[i])
        }
    }
}

/// `s` with thousands separators: a `,` before every group of three
/// characters counted from the end.
pub open spec fn spec_group_thousands(s: Seq<char>) -> Seq<char> {
    group_upto(s, s.len() as int)
}

/// Inserts `,` thousands separators into a run of digits.
pub fn group_thousands(s: &str) -> (out: String)
    ensures
        out@ == spec_group_thousands(s@),
{
    let cs = chars_of(s);
    let len = cs.len();
    let mut out = String::new();
    let mut i: usize = 0;
    while i < len
        invariant
            i <= len == cs.len(),
            cs@ == s@,
            out@ == group_upto(s@, i as int),
        decreases len - i,
    {
        if i > 0 && (len - i) % 3 == 0 {
            out.push(',');
        }
        out.push(cs[i]);
        i += 1;
    }
    out
}

/// `s` without its `,` characters.
pub open spec fn drop_commas(s: Seq<char>) -> Seq<char>
    decreases s.len(),
{
    if s.len() == 0 {
        s
    } else if s.last() == ',' {
        drop_commas(s.drop_last())
    } else {
        drop_commas(s.drop_last()).push(s.last())
    }
}

/// Grouping only inserts separators: without its commas, the grouped text is
/// the input text without its commas.
pub proof fn law_group_thousands_keeps_digits(s: Seq<char>)
    ensures
        drop_commas(spec_group_thousands(s)) == drop_commas(s),
{
    lemma_group_upto_commas(s, s.len() as int);
    assert(s.take(s.len() as int) =~= s);
}

pub proof fn lemma_group_upto_commas(s: Seq<char>, k: int)
    requires
        0 <= k <= s.len(),
    ensures
        drop_commas(group_upto(s, k)) == drop_commas(s.take(k)),
    decreases k,
{
    if k > 0 {
        lemma_group_upto_commas(s, k - 1);
        let prev = group_upto(s, k - 1);
        let i = k - 1;
        let c = s[i];
        let t = s.take(k);
        assert(t.drop_last() =~= s.take(k - 1));
        assert(t.last() == c);
        let p1 = prev.push(c);
        assert(p1.drop_last() =~= prev);
        if i > 0 && (s.len() - i) % 3 == 0 {
            let p2 = prev.push(',');
            let p3 = p2.push(c);
            assert(p3.drop_last() =~= p2);
            assert(p2.drop_last() =~= prev);
            assert(drop_commas(p2) == drop_commas(prev));
        }
    }
}

/// A format section that shows a date: it holds `y` or `d` (either case) or
/// `mmm` (any case).
pub open spec fn spec_looks_like_date(s: Seq<char>) -> bool {
    (exists|j: int| 0 <= j < s.len() && (ascii_lower(s[j]) == 'y' || ascii_lower(s[j]) == 'd'))
        || (exists|j: int|
        0 <= j && j + 2 < s.len() && ascii_lower(#[trigger] s[j]) == 'm' && ascii_lower(s[j + 1])
            == 'm' && ascii_lower(s[j + 2]) == 'm')
}

/// Whether a number-format section formats a date.
pub fn looks_like_date(sect: &str) -> (b: bool)
    ensures
        b == spec_looks_like_date(sect@),
{
    let cs = chars_of(sect);
    let mut j: usize = 0;
    while j < cs.len()
        invariant
            j <= cs.len(),
            cs@ == sect@,
            forall|i: int| 0 <= i < j ==> !(ascii_lower(cs@[i]) == 'y' || ascii_lower(cs@[i]) == 'd'),
            forall|i: int|
                0 <= i < j && i + 2 < cs.len() ==> !(ascii_lower(#[trigger] cs@[i]) == 'm'
                    && ascii_lower(cs@[i + 1]) == 'm' && ascii_lower(cs@[i + 2]) == 'm'),
        decreases cs.len() - j,
    {
        let l = ascii_lower_exec(cs[j]);
        if l == 'y' || l == 'd' {
            return true;
        }
        if cs.len() - j > 2 && l == 'm' && ascii_lower_exec(cs[j + 1]) == 'm' && ascii_lower_exec(
            cs[j + 2],
        ) == 'm' {
            return true;
        }
        j += 1;
    }
    false
}

/// `n` zeros (none when `n <= 0`).
pub open spec fn zeros(n: int) -> Seq<char> {
    Seq::new(if n > 0 {
        n as nat
    } else {
        0
    }, |j: int| '0')
}

/// Decimal text of `n` zero-padded to width `w`, the sign counted in the width.
pub open spec fn zpad(n: int, w: int) -> Seq<char> {
    if n >= 0 {
        zeros(w - dec(n as nat).len()) + dec(n as nat)
    } else {
        seq!['-'] + zeros(w - 1 - dec((-n) as nat).len()) + dec((-n) as nat)
    }
}

fn zeros_exec(n: usize) -> (v: Vec<char>)
    ensures
        v@ == zeros(n as int),
{
    let mut v: Vec<char> = Vec::new();
    let mut k: usize = 0;
    while k < n
        invariant
            k <= n,
            v@ == zeros(k as int),
        decreases n - k,
    {
        v.push('0');
        k += 1;
        assert(v@ =~= zeros(k as int));
    }
    v
}

fn zpad_exec(n: i64, w: usize) -> (v: Vec<char>)
    ensures
        v@ == zpad(n as int, w as int),
{
    let d = abs_dec(n);
    let mut v: Vec<char> = Vec::new();
    if n >= 0 {
        let z = if w > d.len() {
            w - d.len()
        } else {
            0
        };
        let zs = zeros_exec(z);
        assert(zs@ =~= zeros(w - d@.len()));
        crate::chars::append_chars(&mut v, zs.as_slice());
    } else {
        v.push('-');
        let z = if w > d.len() && w - d.len() > 1 {
            w - 1 - d.len()
        } else {
            0
        };
        let zs = zeros_exec(z);
        assert(zs@ =~= zeros(w - 1 - d@.len()));
        crate::chars::append_chars(&mut v, zs.as_slice());
    }
    crate::chars::append_chars(&mut v, d.as_slice());
    v
}

/// Length of the run of characters from `i` whose ASCII lower case is `lc`.
pub open spec fn run_len(p: Seq<char>, i: int, lc: char) -> int
    decreases p.len() - i,
{
    if i < p.len() && ascii_lower(p[i]) == lc {
        1 + run_len(p, i + 1, lc)
    } else {
        0
    }
}

pub proof fn lemma_run_len(p: Seq<char>, i: int, lc: char)
    requires
        0 <= i <= p.len(),
    ensures
        0 <= run_len(p, i, lc) <= p.len() - i,
    decreases p.len() - i,
{
    if i < p.len() && ascii_lower(p[i]) == lc {
        lemma_run_len(p, i + 1, lc);
    }
}

/// A date field written from a run of `n` pattern letters `lc`: `yyyy` is the
/// four-digit year, shorter runs the year modulo 100 in two digits; `mm`/`dd`
/// are zero-padded, `m`/`d` plain.
pub open spec fn date_field(lc: char, n: int, ymd: (int, int, int)) -> Seq<char> {
    if lc == 'y' {
        if n >= 4 {
            zpad(ymd.0, 4)
        } else {
            zpad(ymd.0 % 100, 2)
        }
    } else if lc == 'm' {
        if n >= 2 {
            zpad(ymd.1, 2)
        } else {
            dec_int(ymd.1)
        }
    } else {
        if n >= 2 {
            zpad(ymd.2, 2)
        } else {
            dec_int(ymd.2)
        }
    }
}

/// One step of writing a date pattern at `i` (in bounds): the next position
/// and the output so far. Quoted text is copied, `[..]` and `h`, `s`, `\\`
/// are dropped, anything else is copied.
pub open spec fn date_step(p: Seq<char>, ymd: (int, int, int), i: int, out: Seq<char>) -> (
    int,
    Seq<char>,
) {
    let ch = p[i];
    let lc = ascii_lower(ch);
    if lc == 'y' || lc == 'm' || lc == 'd' {
        let n = run_len(p, i, lc);
        (i + n, out + date_field(lc, n, ymd))
    } else if ch == '"' {
        let e = find_from(p, i + 1, '"');
        (
            if e < p.len() {
                e + 1
            } else {
                e
            },
            out + p.subrange(i + 1, e),
        )
    } else if ch == '[' {
        let e = find_from(p, i, ']');
        (
            if e < p.len() {
                e + 1
            } else {
                e
            },
            out,
        )
    } else if lc == 'h' || lc == 's' || ch == '\\' {
        (i + 1, out)
    } else {
        (i + 1, out.push(ch))
    }
}

/// Writing a date pattern from position `i` with output `out` so far.
pub open spec fn date_run(p: Seq<char>, ymd: (int, int, int), i: int, out: Seq<char>) -> Seq<char>
    decreases p.len() - i,
{
    if i < 0 || i >= p.len() {
        out
    } else {
        let nx = date_step(p, ymd, i, out);
        if nx.0 <= i || nx.0 > p.len() {
            out
        } else {
            date_run(p, ymd, nx.0, nx.1)
        }
    }
}

/// A date pattern filled in with the date of a serial day number.
pub open spec fn spec_format_date(serial: int, pattern: Seq<char>) -> Seq<char> {
    date_run(pattern, spec_ymd_from_serial(serial), 0, Seq::empty())
}

/// Writes the date of serial day `serial` with a date pattern (`yyyy`, `yy`,
/// `mm`, `m`, `dd`, `d`, quoted literals; times and `[..]` are dropped).
pub fn format_date(serial: i64, pattern: &str) -> (s: String)
    requires
        i64::MIN + 25569 <= serial <= i64::MAX - 693899,
    ensures
        s@ == spec_format_date(serial as int, pattern@),
{
    let ymd = ymd_from_excel_serial(serial);
    let ghost g = (ymd.0 as int, ymd.1 as int, ymd.2 as int);
    let p = chars_of(pattern);
    let mut out: Vec<char> = Vec::new();
    let mut i: usize = 0;
    assert(out@ =~= Seq::<char>::empty());
    while i < p.len()
        invariant
            i <= p.len(),
            p@ == pattern@,
            g == (ymd.0 as int, ymd.1 as int, ymd.2 as int),
            date_run(p@, g, i as int, out@) == date_run(p@, g, 0, Seq::empty()),
        decreases p.len() - i,
    {
        i = date_step_exec(p.as_slice(), ymd, i, &mut out);
    }
    crate::chars::string_of(out.as_slice())
}

fn rem100(y: i64) -> (r: i64)
    ensures
        r as int == (y as int) % 100,
{
    if y >= 0 {
        y % 100
    } else {
        let a: i128 = (-(y as i128)) % 100;
        proof {
            let yi = y as int;
            assert(a == (-yi) % 100);
            assert(a == 0 ==> yi % 100 == 0) by (nonlinear_arith)
                requires
                    a == (-yi) % 100,
                    yi < 0,
            ;
            assert(a != 0 ==> yi % 100 == 100 - a) by (nonlinear_arith)
                requires
                    a == (-yi) % 100,
                    yi < 0,
            ;
        }
        if a == 0 {
            0
        } else {
            (100 - a) as i64
        }
    }
}

fn date_step_exec(p: &[char], ymd: (i64, i64, i64), i: usize, out: &mut Vec<char>) -> (ni: usize)
    requires
        i < p.len(),
    ensures
        (ni as int, final(out)@) == date_step(
            p@,
            (ymd.0 as int, ymd.1 as int, ymd.2 as int),
            i as int,
            old(out)@,
        ),
        i < ni <= p.len(),
{
    let ghost g = (ymd.0 as int, ymd.1 as int, ymd.2 as int);
    let ch = p[i];
    let lc = ascii_lower_exec(ch);
    if lc == 'y' || lc == 'm' || lc == 'd' {
        let mut n: usize = 0;
        proof {
            lemma_run_len(p@, i as int, lc);
        }
        while i + n < p.len() && ascii_lower_exec(p[i + n]) == lc
            invariant
                i + n <= p.len(),
                i < p.len(),
                run_len(p@, i as int, lc) == n + run_len(p@, (i + n) as int, lc),
            decreases p.len() - (i + n),
        {
            n += 1;
        }
        let field = if lc == 'y' {
            if n >= 4 {
                zpad_exec(ymd.0, 4)
            } else {
                zpad_exec(rem100(ymd.0), 2)
            }
        } else if lc == 'm' {
            if n >= 2 {
                zpad_exec(ymd.1, 2)
            } else {
                dec_int_exec(ymd.1)
            }
        } else {
            if n >= 2 {
                zpad_exec(ymd.2, 2)
            } else {
                dec_int_exec(ymd.2)
            }
        };

        crate::chars::append_chars(out, field.as_slice());
        i + n
    } else if ch == '"' {
        let e = find_char(p, i + 1, '"');
        let lit = copy_range(p, i + 1, e);
        crate::chars::append_chars(out, lit.as_slice());
        if e < p.len() {
            e + 1
        } else {
            e
        }
    } else if ch == '[' {
        let e = find_char(p, i, ']');
        if e < p.len() {
            e + 1
        } else {
            e
        }
    } else if lc == 'h' || lc == 's' || ch == '\\' {
        i + 1
    } else {
        out.push(ch);
        i + 1
    }
}

/// How a number-format code shows a number.
pub enum NumberFormat {
    /// Shortest general form.
    General,
    /// A date, written with this pattern section.
    Date(String),
    /// Fixed decimals, with optional thousands separators, `$` prefix and
    /// percent (value times 100 with a `%` suffix).
    Fixed { decimals: usize, thousands: bool, dollar: bool, percent: bool },
}

/// Spec value of a [`NumberFormat`].
pub enum NumberFormatView {
    General,
    Date(Seq<char>),
    Fixed { decimals: nat, thousands: bool, dollar: bool, percent: bool },
}

impl View for NumberFormat {
    type V = NumberFormatView;

    open spec fn view(&self) -> NumberFormatView {
        match self {
            NumberFormat::General => NumberFormatView::General,
            NumberFormat::Date(s) => NumberFormatView::Date(s@),
            NumberFormat::Fixed { decimals, thousands, dollar, percent } => NumberFormatView::Fixed {
                decimals: *decimals as nat,
                thousands: *thousands,
                dollar: *dollar,
                percent: *percent,
            },
        }
    }
}

/// Whether `s` holds the three characters `a b c` in a row.
pub open spec fn contains3(s: Seq<char>, a: char, b: char, c: char) -> bool {
    exists|j: int| 0 <= j && j + 2 < s.len() && #[trigger] s[j] == a && s[j + 1] == b && s[j + 2] == c
}

/// Whether `s` holds `c`.
pub open spec fn has_char(s: Seq<char>, c: char) -> bool {
    exists|j: int| 0 <= j < s.len() && #[trigger] s[j] == c
}

/// `general` in any ASCII case.
pub open spec fn is_general(s: Seq<char>) -> bool {
    s.len() == 7 && forall|j: int| 0 <= j < 7 ==> ascii_lower(#[trigger] s[j]) == "general"@[j]
}

/// How a format code shows numbers: empty, `General` (any case) and `@` are
/// general; otherwise its first `;` section, trimmed, decides.
pub open spec fn spec_number_format(code: Seq<char>) -> NumberFormatView {
    let c = trim(code);
    if c.len() == 0 || is_general(c) || c == "@"@ {
        NumberFormatView::General
    } else {
        let sect = trim(c.take(find_from(c, 0, ';')));
        if spec_looks_like_date(sect) {
            NumberFormatView::Date(sect)
        } else {
            NumberFormatView::Fixed {
                decimals: spec_decimals_in(sect),
                thousands: contains3(sect, '#', ',', '#') || contains3(sect, '0', ',', '0'),
                dollar: has_char(sect, '$'),
                percent: has_char(sect, '%'),
            }
        }
    }
}

fn contains3_exec(s: &[char], a: char, b: char, c: char) -> (r: bool)
    ensures
        r == contains3(s@, a, b, c),
{
    let mut j: usize = 0;
    while j < s.len()
        invariant
            j <= s.len(),
            forall|i: int|
                0 <= i < j && i + 2 < s.len() ==> !(#[trigger] s@[i] == a && s@[i + 1] == b && s@[i
                    + 2] == c),
        decreases s.len() - j,
    {
        if s.len() - j > 2 && s[j] == a && s[j + 1] == b && s[j + 2] == c {
            return true;
        }
        j += 1;
    }
    false
}

fn has_char_exec(s: &[char], c: char) -> (r: bool)
    ensures
        r == has_char(s@, c),
{
    let k = find_char(s, 0, c);
    proof {
        lemma_find_from(s@, 0, c);
    }
    k < s.len()
}

fn is_general_exec(s: &[char]) -> (r: bool)
    ensures
        r == is_general(s@),
{
    if s.len() != 7 {
        return false;
    }
    let g = chars_of("general");
    let mut j: usize = 0;
    while j < 7
        invariant
            j <= 7,
            s.len() == 7,
            g@ == "general"@,
            forall|i: int| 0 <= i < j ==> ascii_lower(#[trigger] s@[i]) == "general"@[i],
        decreases 7 - j,
    {
        proof {
            reveal_strlit("general");
        }
        if ascii_lower_exec(s[j]) != g[j] {
            return false;
        }
        j += 1;
    }
    true
}

/// The way a number-format code shows numbers.
pub fn number_format(code: &str) -> (f: NumberFormat)
    ensures
        f@ == spec_number_format(code@),
{
    let cs = chars_of(code);
    let c = trim_chars(cs.as_slice());
    proof {
        reveal_strlit("@");
    }
    if c.len() == 0 || is_general_exec(c.as_slice()) || (c.len() == 1 && c[0] == '@') {
        assert(c.len() == 1 && c[0] == '@' ==> c@ =~= "@"@);
        return NumberFormat::General;
    }
    assert(c@.len() == 1 ==> (c@ == "@"@ <==> c@[0] == '@'));
    let k = find_char(c.as_slice(), 0, ';');
    let first = copy_range(c.as_slice(), 0, k);
    let sect_v = trim_chars(first.as_slice());
    let sect = crate::chars::string_of(sect_v.as_slice());
    if looks_like_date(sect.as_str()) {
        return NumberFormat::Date(sect);
    }
    let decimals = decimals_in(sect.as_str());
    let thousands = contains3_exec(sect_v.as_slice(), '#', ',', '#') || contains3_exec(
        sect_v.as_slice(),
        '0',
        ',',
        '0',
    );
    let dollar = has_char_exec(sect_v.as_slice(), '$');
    let percent = has_char_exec(sect_v.as_slice(), '%');
    NumberFormat::Fixed { decimals, thousands, dollar, percent }
}

/// Text of a fixed-decimal number from the decimal text of its magnitude:
/// `-` when negative, the integer part (grouped by thousands when asked),
/// then the fraction as given.
pub open spec fn spec_fixed_text(abs_text: Seq<char>, neg: bool, thousands: bool) -> Seq<char> {
    let k = find_from(abs_text, 0, '.');
    let ip = abs_text.take(k);
    let ip2 = if thousands {
        spec_group_thousands(ip)
    } else {
        ip
    };
    (if neg {
        seq!['-']
    } else {
        Seq::empty()
    }) + ip2 + (if k < abs_text.len() {
        seq!['.'] + abs_text.skip(k + 1)
    } else {
        Seq::empty()
    })
}

/// Builds the text of a fixed-decimal number from its magnitude's digits.
pub fn fixed_text(abs_text: &str, neg: bool, thousands: bool) -> (s: String)
    ensures
        s@ == spec_fixed_text(abs_text@, neg, thousands),
{
    let cs = chars_of(abs_text);
    let k = find_char(cs.as_slice(), 0, '.');
    let ip = copy_range(cs.as_slice(), 0, k);
    let ip2: Vec<char> = if thousands {
        let g = group_thousands(crate::chars::string_of(ip.as_slice()).as_str());
        chars_of(g.as_str())
    } else {
        ip
    };
    let mut out: Vec<char> = Vec::new();
    if neg {
        out.push('-');
    }
    crate::chars::append_chars(&mut out, ip2.as_slice());
    if k < cs.len() {
        out.push('.');
        let frac = copy_range(cs.as_slice(), k + 1, cs.len());
        crate::chars::append_chars(&mut out, frac.as_slice());
        assert(frac@ =~= abs_text@.skip(k + 1));
    }
    assert(ip@ =~= abs_text@.take(k as int));
    assert(out@ =~= spec_fixed_text(abs_text@, neg, thousands));
    crate::chars::string_of(out.as_slice())
}

/// A fixed number's text with its `$` prefix and `%` suffix as asked.
pub open spec fn spec_decorate(text: Seq<char>, dollar: bool, percent: bool) -> Seq<char> {
    let t = if dollar {
        seq!['$'] + text
    } else {
        text
    };
    if percent {
        t.push('%')
    } else {
        t
    }
}

/// Adds the currency prefix and percent suffix of a fixed format.
pub fn decorate(text: String, dollar: bool, percent: bool) -> (s: String)
    ensures
        s@ == spec_decorate(text@, dollar, percent),
{
    let mut out: Vec<char> = Vec::new();
    if dollar {
        out.push('$');
    }
    let t = chars_of(text.as_str());
    crate::chars::append_chars(&mut out, t.as_slice());
    if percent {
        out.push('%');
    }
    assert(out@ =~= spec_decorate(text@, dollar, percent));
    crate::chars::string_of(out.as_slice())
}

} // verus!
