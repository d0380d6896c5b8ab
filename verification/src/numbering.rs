//! Word list numbering: number formats, counter text (decimal, letters, roman
//! numerals, bullets), `numbering.xml` definitions, `%N` level-text
//! substitution and the per-list counters that number paragraphs in order.

use vstd::prelude::*;
use crate::chars::{
    append_chars, chars_of, dec, dec_int, dec_int_exec, digit_val, is_digit, string_of,
};
use crate::sheet::{col_letters, letter};
use crate::xml::{
    events_view, xml_tokens,
    XmlEvent, XmlEventView, XmlTag, attr_i32, attr_u32, get_attr, get_attr_i32,
    get_attr_u32, str_eq, tag_attr, xml_events,
};

verus! {

/// Number format of a list level (`w:numFmt`).
#[derive(Clone, Copy, Debug, PartialEq, Eq, Structural)]
pub enum NumFmt {
    Decimal,
    DecimalZero,
    LowerLetter,
    UpperLetter,
    LowerRoman,
    UpperRoman,
    Bullet,
    None_,
}

/// Format named by a `w:numFmt` value (unknown names count as decimal).
pub open spec fn spec_num_fmt(s: Seq<char>) -> NumFmt {
    if s == "decimalZero"@ {
        NumFmt::DecimalZero
    } else if s == "lowerLetter"@ {
        NumFmt::LowerLetter
    } else if s == "upperLetter"@ {
        NumFmt::UpperLetter
    } else if s == "lowerRoman"@ {
        NumFmt::LowerRoman
    } else if s == "upperRoman"@ {
        NumFmt::UpperRoman
    } else if s == "bullet"@ {
        NumFmt::Bullet
    } else if s == "none"@ {
        NumFmt::None_
    } else {
        NumFmt::Decimal
    }
}

/// The number format named by a `w:numFmt` value.
pub fn num_fmt(s: &str) -> (f: NumFmt)
    ensures
        f == spec_num_fmt(s@),
{
    if str_eq(s, "decimalZero") {
        NumFmt::DecimalZero
    } else if str_eq(s, "lowerLetter") {
        NumFmt::LowerLetter
    } else if str_eq(s, "upperLetter") {
        NumFmt::UpperLetter
    } else if str_eq(s, "lowerRoman") {
        NumFmt::LowerRoman
    } else if str_eq(s, "upperRoman") {
        NumFmt::UpperRoman
    } else if str_eq(s, "bullet") {
        NumFmt::Bullet
    } else if str_eq(s, "none") {
        NumFmt::None_
    } else {
        NumFmt::Decimal
    }
}

/// The `d`-th letter (`0 <= d < 26`) from `a` or `A`.
pub open spec fn nth_letter(d: int, upper: bool) -> char {
    if upper {
        (('A' as int) + d) as char
    } else {
        (('a' as int) + d) as char
    }
}

/// Bijective base-26 letters of `n` (`1` is `a`, `26` is `z`, `27` is `aa`).
pub open spec fn alpha_letters(n: nat, upper: bool) -> Seq<char>
    decreases n,
{
    if n == 0 {
        Seq::empty()
    } else {
        alpha_letters(((n - 1) / 26) as nat, upper).push(nth_letter((n - 1) % 26, upper))
    }
}

/// Letter numbering: `a`, `b`, ..., `z`, `aa`, ...; plain decimal for `v <= 0`.
pub open spec fn spec_alpha(v: int, upper: bool) -> Seq<char> {
    if v <= 0 {
        dec_int(v)
    } else {
        alpha_letters(v as nat, upper)
    }
}

fn letter_char(d: u32, upper: bool) -> (c: char)
    requires
        d < 26,
    ensures
        c == nth_letter(d as int, upper),
{
    let base: u32 = if upper {
        65
    } else {
        97
    };
    proof {
        assert(('A' as int) == 65);
        assert(('a' as int) == 97);
    }
    match core::char::from_u32(base + d) {
        Some(c) => c,
        None => 'a',
    }
}

/// Letter numbering of a list counter.
pub fn alpha(v: i32, upper: bool) -> (s: String)
    ensures
        s@ == spec_alpha(v as int, upper),
{
    if v <= 0 {
        let d = dec_int_exec(v as i64);
        return string_of(d.as_slice());
    }
    let mut n: u32 = v as u32;
    let mut suffix: Vec<char> = Vec::new();
    assert(alpha_letters(n as nat, upper) + suffix@ =~= alpha_letters(n as nat, upper));
    while n > 0
        invariant
            alpha_letters(n as nat, upper) + suffix@ == alpha_letters(v as nat, upper),
        decreases n,
    {
        let ch = letter_char((n - 1) % 26, upper);
        let ghost old_suffix = suffix@;
        suffix.insert(0, ch);
        assert(alpha_letters(((n - 1) / 26) as nat, upper) + suffix@ =~= alpha_letters(
            n as nat,
            upper,
        ) + old_suffix);
        n = (n - 1) / 26;
    }
    assert(alpha_letters(0, upper) + suffix@ =~= suffix@);
    string_of(suffix.as_slice())
}

/// Value of the `k`-th roman numeral symbol, largest first.
pub open spec fn roman_val(k: int) -> int {
    if k == 0 {
        1000
    } else if k == 1 {
        900
    } else if k == 2 {
        500
    } else if k == 3 {
        400
    } else if k == 4 {
        100
    } else if k == 5 {
        90
    } else if k == 6 {
        50
    } else if k == 7 {
        40
    } else if k == 8 {
        10
    } else if k == 9 {
        9
    } else if k == 10 {
        5
    } else if k == 11 {
        4
    } else {
        1
    }
}

/// The `k`-th roman numeral symbol in lower case.
pub open spec fn roman_sym_lower(k: int) -> Seq<char> {
    if k == 0 {
        seq!['m']
    } else if k == 1 {
        seq!['c', 'm']
    } else if k == 2 {
        seq!['d']
    } else if k == 3 {
        seq!['c', 'd']
    } else if k == 4 {
        seq!['c']
    } else if k == 5 {
        seq!['x', 'c']
    } else if k == 6 {
        seq!['l']
    } else if k == 7 {
        seq!['x', 'l']
    } else if k == 8 {
        seq!['x']
    } else if k == 9 {
        seq!['i', 'x']
    } else if k == 10 {
        seq!['v']
    } else if k == 11 {
        seq!['i', 'v']
    } else {
        seq!['i']
    }
}

/// ASCII upper case of a lower-case letter sequence.
pub open spec fn upper_ascii(s: Seq<char>) -> Seq<char> {
    s.map_values(|c: char| if 'a' <= c && c <= 'z' {
        ((c as int) - 32) as char
    } else {
        c
    })
}

/// The `k`-th symbol in the requested case.
pub open spec fn roman_sym(k: int, upper: bool) -> Seq<char> {
    if upper {
        upper_ascii(roman_sym_lower(k))
    } else {
        roman_sym_lower(k)
    }
}

/// Greedy roman numeral of `n` using the symbols from the `k`-th on.
pub open spec fn roman_from(n: int, k: int, upper: bool) -> Seq<char>
    decreases 13 - k, n,
{
    if k >= 13 || k < 0 || n <= 0 {
        Seq::empty()
    } else if n >= roman_val(k) {
        roman_sym(k, upper) + roman_from(n - roman_val(k), k, upper)
    } else {
        roman_from(n, k + 1, upper)
    }
}

/// Roman numeral numbering; plain decimal for `v <= 0`.
pub open spec fn spec_roman(v: int, upper: bool) -> Seq<char> {
    if v <= 0 {
        dec_int(v)
    } else {
        roman_from(v, 0, upper)
    }
}

/// The standard roman form of decimal digit `d` (0 to 9) in a place whose
/// one, five and ten are `one`, `five` and `ten`: `d` ones up to three, one
/// before five for four, five and ones after it up to eight, one before ten
/// for nine.
pub open spec fn roman_digit(d: int, one: char, five: char, ten: char) -> Seq<char> {
    if d == 1 {
        seq![one]
    } else if d == 2 {
        seq![one, one]
    } else if d == 3 {
        seq![one, one, one]
    } else if d == 4 {
        seq![one, five]
    } else if d == 5 {
        seq![five]
    } else if d == 6 {
        seq![five, one]
    } else if d == 7 {
        seq![five, one, one]
    } else if d == 8 {
        seq![five, one, one, one]
    } else if d == 9 {
        seq![one, ten]
    } else {
        Seq::empty()
    }
}

/// `n` thousands: `n` letters `m`.
pub open spec fn roman_thousands(n: nat) -> Seq<char>
    decreases n,
{
    if n == 0 {
        Seq::empty()
    } else {
        seq!['m'] + roman_thousands((n - 1) as nat)
    }
}

proof fn lemma_roman_thousands(a: nat, r: int)
    requires
        0 <= r < 1000,
    ensures
        roman_from(1000 * a + r, 0, false) == roman_thousands(a) + roman_from(r, 1, false),
    decreases a,
{
    if a == 0 {
        assert(roman_from(r, 0, false) == roman_from(r, 1, false));
        assert(roman_thousands(0) + roman_from(r, 1, false) =~= roman_from(r, 1, false));
    } else {
        lemma_roman_thousands((a - 1) as nat, r);
        assert(1000 * a + r - 1000 == 1000 * (a - 1) + r);
        assert(roman_sym(0, false) =~= seq!['m']);
        assert(roman_from(1000 * a + r, 0, false) == seq!['m'] + roman_from(1000 * (a - 1) + r, 0, false));
        assert(roman_thousands(a) + roman_from(r, 1, false) =~= seq!['m'] + (roman_thousands(
            (a - 1) as nat,
        ) + roman_from(r, 1, false)));
    }
}
proof fn lemma_roman_hundreds(b: int, rest: int)
    requires
        0 <= b <= 9,
        0 <= rest < 100,
    ensures
        roman_from(100 * b + rest, 1, false) == roman_digit(b, 'c', 'd', 'm') + roman_from(
            rest,
            5,
            false,
        ),
{
    reveal_with_fuel(roman_from, 10);
    if b == 0 {
        assert(roman_digit(b, 'c', 'd', 'm') =~= Seq::<char>::empty());
        assert(roman_from(100 * b + rest, 1, false) =~= Seq::<char>::empty() + roman_from(rest, 5, false));
    } else if b == 1 {
        assert(roman_digit(b, 'c', 'd', 'm') =~= seq!['c']);
        assert(roman_from(100 * b + rest, 1, false) =~= seq!['c'] + roman_from(rest, 5, false));
    } else if b == 2 {
        assert(roman_digit(b, 'c', 'd', 'm') =~= seq!['c', 'c']);
        assert(roman_from(100 * b + rest, 1, false) =~= seq!['c', 'c'] + roman_from(rest, 5, false));
    } else if b == 3 {
        assert(roman_digit(b, 'c', 'd', 'm') =~= seq!['c', 'c', 'c']);
        assert(roman_from(100 * b + rest, 1, false) =~= seq!['c', 'c', 'c'] + roman_from(rest, 5, false));
    } else if b == 4 {
        assert(roman_digit(b, 'c', 'd', 'm') =~= seq!['c', 'd']);
        assert(roman_from(100 * b + rest, 1, false) =~= seq!['c', 'd'] + roman_from(rest, 5, false));
    } else if b == 5 {
        assert(roman_digit(b, 'c', 'd', 'm') =~= seq!['d']);
        assert(roman_from(100 * b + rest, 1, false) =~= seq!['d'] + roman_from(rest, 5, false));
    } else if b == 6 {
        assert(roman_digit(b, 'c', 'd', 'm') =~= seq!['d', 'c']);
        assert(roman_from(100 * b + rest, 1, false) =~= seq!['d', 'c'] + roman_from(rest, 5, false));
    } else if b == 7 {
        assert(roman_digit(b, 'c', 'd', 'm') =~= seq!['d', 'c', 'c']);
        assert(roman_from(100 * b + rest, 1, false) =~= seq!['d', 'c', 'c'] + roman_from(rest, 5, false));
    } else if b == 8 {
        assert(roman_digit(b, 'c', 'd', 'm') =~= seq!['d', 'c', 'c', 'c']);
        assert(roman_from(100 * b + rest, 1, false) =~= seq!['d', 'c', 'c', 'c'] + roman_from(rest, 5, false));
    } else if b == 9 {
        assert(roman_digit(b, 'c', 'd', 'm') =~= seq!['c', 'm']);
        assert(roman_from(100 * b + rest, 1, false) =~= seq!['c', 'm'] + roman_from(rest, 5, false));
    }
}
proof fn lemma_roman_tens(b: int, rest: int)
    requires
        0 <= b <= 9,
        0 <= rest < 10,
    ensures
        roman_from(10 * b + rest, 5, false) == roman_digit(b, 'x', 'l', 'c') + roman_from(
            rest,
            9,
            false,
        ),
{
    reveal_with_fuel(roman_from, 10);
    if b == 0 {
        assert(roman_digit(b, 'x', 'l', 'c') =~= Seq::<char>::empty());
        assert(roman_from(10 * b + rest, 5, false) =~= Seq::<char>::empty() + roman_from(rest, 9, false));
    } else if b == 1 {
        assert(roman_digit(b, 'x', 'l', 'c') =~= seq!['x']);
        assert(roman_from(10 * b + rest, 5, false) =~= seq!['x'] + roman_from(rest, 9, false));
    } else if b == 2 {
        assert(roman_digit(b, 'x', 'l', 'c') =~= seq!['x', 'x']);
        assert(roman_from(10 * b + rest, 5, false) =~= seq!['x', 'x'] + roman_from(rest, 9, false));
    } else if b == 3 {
        assert(roman_digit(b, 'x', 'l', 'c') =~= seq!['x', 'x', 'x']);
        assert(roman_from(10 * b + rest, 5, false) =~= seq!['x', 'x', 'x'] + roman_from(rest, 9, false));
    } else if b == 4 {
        assert(roman_digit(b, 'x', 'l', 'c') =~= seq!['x', 'l']);
        assert(roman_from(10 * b + rest, 5, false) =~= seq!['x', 'l'] + roman_from(rest, 9, false));
    } else if b == 5 {
        assert(roman_digit(b, 'x', 'l', 'c') =~= seq!['l']);
        assert(roman_from(10 * b + rest, 5, false) =~= seq!['l'] + roman_from(rest, 9, false));
    } else if b == 6 {
        assert(roman_digit(b, 'x', 'l', 'c') =~= seq!['l', 'x']);
        assert(roman_from(10 * b + rest, 5, false) =~= seq!['l', 'x'] + roman_from(rest, 9, false));
    } else if b == 7 {
        assert(roman_digit(b, 'x', 'l', 'c') =~= seq!['l', 'x', 'x']);
        assert(roman_from(10 * b + rest, 5, false) =~= seq!['l', 'x', 'x'] + roman_from(rest, 9, false));
    } else if b == 8 {
        assert(roman_digit(b, 'x', 'l', 'c') =~= seq!['l', 'x', 'x', 'x']);
        assert(roman_from(10 * b + rest, 5, false) =~= seq!['l', 'x', 'x', 'x'] + roman_from(rest, 9, false));
    } else if b == 9 {
        assert(roman_digit(b, 'x', 'l', 'c') =~= seq!['x', 'c']);
        assert(roman_from(10 * b + rest, 5, false) =~= seq!['x', 'c'] + roman_from(rest, 9, false));
    }
}
proof fn lemma_roman_ones(b: int, rest: int)
    requires
        0 <= b <= 9,
        0 <= rest < 1,
    ensures
        roman_from(1 * b + rest, 9, false) == roman_digit(b, 'i', 'v', 'x') + roman_from(
            rest,
            13,
            false,
        ),
{
    reveal_with_fuel(roman_from, 10);
    if b == 0 {
        assert(roman_digit(b, 'i', 'v', 'x') =~= Seq::<char>::empty());
        assert(roman_from(1 * b + rest, 9, false) =~= Seq::<char>::empty() + roman_from(rest, 13, false));
    } else if b == 1 {
        assert(roman_digit(b, 'i', 'v', 'x') =~= seq!['i']);
        assert(roman_from(1 * b + rest, 9, false) =~= seq!['i'] + roman_from(rest, 13, false));
    } else if b == 2 {
        assert(roman_digit(b, 'i', 'v', 'x') =~= seq!['i', 'i']);
        assert(roman_from(1 * b + rest, 9, false) =~= seq!['i', 'i'] + roman_from(rest, 13, false));
    } else if b == 3 {
        assert(roman_digit(b, 'i', 'v', 'x') =~= seq!['i', 'i', 'i']);
        assert(roman_from(1 * b + rest, 9, false) =~= seq!['i', 'i', 'i'] + roman_from(rest, 13, false));
    } else if b == 4 {
        assert(roman_digit(b, 'i', 'v', 'x') =~= seq!['i', 'v']);
        assert(roman_from(1 * b + rest, 9, false) =~= seq!['i', 'v'] + roman_from(rest, 13, false));
    } else if b == 5 {
        assert(roman_digit(b, 'i', 'v', 'x') =~= seq!['v']);
        assert(roman_from(1 * b + rest, 9, false) =~= seq!['v'] + roman_from(rest, 13, false));
    } else if b == 6 {
        assert(roman_digit(b, 'i', 'v', 'x') =~= seq!['v', 'i']);
        assert(roman_from(1 * b + rest, 9, false) =~= seq!['v', 'i'] + roman_from(rest, 13, false));
    } else if b == 7 {
        assert(roman_digit(b, 'i', 'v', 'x') =~= seq!['v', 'i', 'i']);
        assert(roman_from(1 * b + rest, 9, false) =~= seq!['v', 'i', 'i'] + roman_from(rest, 13, false));
    } else if b == 8 {
        assert(roman_digit(b, 'i', 'v', 'x') =~= seq!['v', 'i', 'i', 'i']);
        assert(roman_from(1 * b + rest, 9, false) =~= seq!['v', 'i', 'i', 'i'] + roman_from(rest, 13, false));
    } else if b == 9 {
        assert(roman_digit(b, 'i', 'v', 'x') =~= seq!['i', 'x']);
        assert(roman_from(1 * b + rest, 9, false) =~= seq!['i', 'x'] + roman_from(rest, 13, false));
    }
}
/// Upper-case roman numerals are the lower-case ones in upper case.
proof fn lemma_roman_upper(n: int, k: int)
    ensures
        roman_from(n, k, true) == upper_ascii(roman_from(n, k, false)),
    decreases 13 - k, n,
{
    if k >= 13 || k < 0 || n <= 0 {
        assert(upper_ascii(Seq::<char>::empty()) =~= Seq::<char>::empty());
    } else if n >= roman_val(k) {
        lemma_roman_upper(n - roman_val(k), k);
        let a = roman_sym(k, false);
        let b = roman_from(n - roman_val(k), k, false);
        assert(upper_ascii(a + b) =~= upper_ascii(a) + upper_ascii(b));
    } else {
        lemma_roman_upper(n, k + 1);
    }
}

/// Roman numerals go by decimal place: for `v = 1000a + 100b + 10c + d`
/// with digits `b`, `c` and `d`, the numeral is `a` letters `m`, then the
/// standard forms of `b` with `c`/`d`/`m`, of `c` with `x`/`l`/`c` and of
/// `d` with `i`/`v`/`x` (so 40 is `xl`, 90 is `xc`, 400 is `cd`, 1994 is
/// `mcmxciv`).
pub proof fn law_roman_by_place(a: nat, b: int, c: int, d: int)
    requires
        0 <= b <= 9,
        0 <= c <= 9,
        0 <= d <= 9,
        1000 * a + 100 * b + 10 * c + d >= 1,
    ensures
        spec_roman(1000 * a + 100 * b + 10 * c + d, false) == roman_thousands(a) + roman_digit(
            b,
            'c',
            'd',
            'm',
        ) + roman_digit(c, 'x', 'l', 'c') + roman_digit(d, 'i', 'v', 'x'),
        spec_fmt_counter(NumFmt::LowerRoman, 1000 * a + 100 * b + 10 * c + d) == roman_thousands(a)
            + roman_digit(b, 'c', 'd', 'm') + roman_digit(c, 'x', 'l', 'c') + roman_digit(
            d,
            'i',
            'v',
            'x',
        ),
        spec_fmt_counter(NumFmt::UpperRoman, 1000 * a + 100 * b + 10 * c + d) == upper_ascii(
            roman_thousands(a) + roman_digit(b, 'c', 'd', 'm') + roman_digit(c, 'x', 'l', 'c')
                + roman_digit(d, 'i', 'v', 'x'),
        ),
{
    let v = 1000 * a + 100 * b + 10 * c + d;
    lemma_roman_upper(v, 0);
    let r1 = 100 * b + 10 * c + d;
    let r2 = 10 * c + d;
    let t = roman_thousands(a);
    let d1 = roman_digit(b, 'c', 'd', 'm');
    let d2 = roman_digit(c, 'x', 'l', 'c');
    let d3 = roman_digit(d, 'i', 'v', 'x');
    lemma_roman_thousands(a, r1);
    lemma_roman_hundreds(b, r2);
    lemma_roman_tens(c, d);
    lemma_roman_ones(d, 0);
    assert(v == 1000 * a + r1);
    assert(spec_roman(v, false) == roman_from(v, 0, false));
    assert(roman_from(v, 0, false) == t + roman_from(r1, 1, false));
    assert(roman_from(r1, 1, false) == d1 + roman_from(r2, 5, false));
    assert(roman_from(r2, 5, false) == d2 + roman_from(d, 9, false));
    assert(roman_from(d, 9, false) == d3 + roman_from(0, 13, false));
    assert(roman_from(0, 13, false) =~= Seq::<char>::empty());
    assert(d3 + roman_from(0, 13, false) =~= d3);
    assert(t + (d1 + (d2 + d3)) =~= t + d1 + d2 + d3);
}

fn roman_val_exec(k: usize) -> (v: i32)
    requires
        k < 13,
    ensures
        v == roman_val(k as int),
{
    if k == 0 {
        1000
    } else if k == 1 {
        900
    } else if k == 2 {
        500
    } else if k == 3 {
        400
    } else if k == 4 {
        100
    } else if k == 5 {
        90
    } else if k == 6 {
        50
    } else if k == 7 {
        40
    } else if k == 8 {
        10
    } else if k == 9 {
        9
    } else if k == 10 {
        5
    } else if k == 11 {
        4
    } else {
        1
    }
}

fn roman_sym_exec(k: usize, upper: bool) -> (v: Vec<char>)
    requires
        k < 13,
    ensures
        v@ == roman_sym(k as int, upper),
{
    let lower: Vec<char> = if k == 0 {
        vec!['m']
    } else if k == 1 {
        vec!['c', 'm']
    } else if k == 2 {
        vec!['d']
    } else if k == 3 {
        vec!['c', 'd']
    } else if k == 4 {
        vec!['c']
    } else if k == 5 {
        vec!['x', 'c']
    } else if k == 6 {
        vec!['l']
    } else if k == 7 {
        vec!['x', 'l']
    } else if k == 8 {
        vec!['x']
    } else if k == 9 {
        vec!['i', 'x']
    } else if k == 10 {
        vec!['v']
    } else if k == 11 {
        vec!['i', 'v']
    } else {
        vec!['i']
    };
    assert(lower@ =~= roman_sym_lower(k as int));
    if !upper {
        return lower;
    }
    let mut out: Vec<char> = Vec::new();
    let mut j: usize = 0;
    while j < lower.len()
        invariant
            j <= lower.len(),
            out@ =~= upper_ascii(lower@.take(j as int)),
        decreases lower.len() - j,
    {
        let c = lower[j];
        let u = if 'a' <= c && c <= 'z' {
            match core::char::from_u32(c as u32 - 32) {
                Some(u) => u,
                None => c,
            }
        } else {
            c
        };
        out.push(u);
        j += 1;
        assert(upper_ascii(lower@.take(j as int)) =~= upper_ascii(lower@.take(j - 1)).push(u));
    }
    assert(lower@.take(lower.len() as int) =~= lower@);
    out
}

/// Roman numeral numbering of a list counter.
pub fn roman(v: i32, upper: bool) -> (s: String)
    ensures
        s@ == spec_roman(v as int, upper),
{
    if v <= 0 {
        let d = dec_int_exec(v as i64);
        return string_of(d.as_slice());
    }
    let mut n: i32 = v;
    let mut out: Vec<char> = Vec::new();
    let mut k: usize = 0;
    assert(out@ + roman_from(n as int, 0, upper) =~= roman_from(v as int, 0, upper));
    while k < 13
        invariant
            k <= 13,
            0 <= n,
            out@ + roman_from(n as int, k as int, upper) == roman_from(v as int, 0, upper),
        decreases 13 - k,
    {
        let val = roman_val_exec(k);
        while n >= val
            invariant
                k < 13,
                val == roman_val(k as int),
                0 <= n,
                out@ + roman_from(n as int, k as int, upper) == roman_from(v as int, 0, upper),
            decreases n,
        {
            let sym = roman_sym_exec(k, upper);
            let ghost before = out@;
            append_chars(&mut out, sym.as_slice());
            assert(before + roman_from(n as int, k as int, upper) =~= out@ + roman_from(
                n - val,
                k as int,
                upper,
            ));
            n = n - val;
        }
        assert(roman_from(n as int, k as int, upper) == roman_from(n as int, k + 1, upper));
        k += 1;
    }
    assert(out@ + roman_from(n as int, 13, upper) =~= out@);
    string_of(out.as_slice())
}

/// Text of counter value `v` in format `fmt`.
pub open spec fn spec_fmt_counter(fmt: NumFmt, v: int) -> Seq<char> {
    match fmt {
        NumFmt::DecimalZero => {
            if 0 <= v < 10 {
                seq!['0'] + dec(v as nat)
            } else {
                dec_int(v)
            }
        },
        NumFmt::LowerLetter => spec_alpha(v, false),
        NumFmt::UpperLetter => spec_alpha(v, true),
        NumFmt::LowerRoman => spec_roman(v, false),
        NumFmt::UpperRoman => spec_roman(v, true),
        _ => dec_int(v),
    }
}

/// Writes a counter value in a number format.
pub fn fmt_counter(fmt: NumFmt, v: i32) -> (s: String)
    ensures
        s@ == spec_fmt_counter(fmt, v as int),
{
    match fmt {
        NumFmt::DecimalZero => {
            let d = dec_int_exec(v as i64);
            if 0 <= v && v < 10 {
                let mut out: Vec<char> = Vec::new();
                out.push('0');
                append_chars(&mut out, d.as_slice());
                assert(out@ =~= seq!['0'] + dec(v as nat));
                string_of(out.as_slice())
            } else {
                string_of(d.as_slice())
            }
        },
        NumFmt::LowerLetter => alpha(v, false),
        NumFmt::UpperLetter => alpha(v, true),
        NumFmt::LowerRoman => roman(v, false),
        NumFmt::UpperRoman => roman(v, true),
        _ => {
            let d = dec_int_exec(v as i64);
            string_of(d.as_slice())
        },
    }
}

/// Bullet of a bullet level's text: its first character, with the private-use
/// Symbol-font bullets mapped to Unicode (`•` when the text is empty).
pub open spec fn spec_bullet_char(text: Seq<char>) -> Seq<char> {
    let c = if text.len() > 0 {
        text[0]
    } else {
        '\u{2022}'
    };
    let u = c as u32;
    seq![
        if u == 0xF0B7 {
            '\u{2022}'
        } else if u == 0xF0A7 {
            '\u{25AA}'
        } else if u == 0xF06F {
            '\u{25CB}'
        } else {
            c
        },
    ]
}

/// The bullet shown for a bullet level.
pub fn bullet_char(text: &str) -> (s: String)
    ensures
        s@ == spec_bullet_char(text@),
{
    let cs = chars_of(text);
    let c = if cs.len() > 0 {
        cs[0]
    } else {
        '\u{2022}'
    };
    let u = c as u32;
    let m = if u == 0xF0B7 {
        '\u{2022}'
    } else if u == 0xF0A7 {
        '\u{25AA}'
    } else if u == 0xF06F {
        '\u{25CB}'
    } else {
        c
    };
    let mut out = String::new();
    out.push(m);
    assert(out@ =~= spec_bullet_char(text@));
    out
}

// ------------------------------------------------------------------------
// numbering.xml
// ------------------------------------------------------------------------

/// One level of an abstract list definition. The indents are the raw `w:ind`
/// attribute texts (twips), read as numbers where the page is laid out.
pub struct Lvl {
    pub fmt: NumFmt,
    pub text: String,
    pub start: i32,
    pub ind_left: Option<String>,
    pub ind_hanging: Option<String>,
}

/// Spec value of a [`Lvl`].
pub struct LvlView {
    pub fmt: NumFmt,
    pub text: Seq<char>,
    pub start: i32,
    pub ind_left: Option<Seq<char>>,
    pub ind_hanging: Option<Seq<char>>,
}

/// Spec value of an optional string.
pub open spec fn ostr(o: Option<String>) -> Option<Seq<char>> {
    match o {
        Some(s) => Some(s@),
        None => None,
    }
}

impl View for Lvl {
    type V = LvlView;

    open spec fn view(&self) -> LvlView {
        LvlView {
            fmt: self.fmt,
            text: self.text@,
            start: self.start,
            ind_left: ostr(self.ind_left),
            ind_hanging: ostr(self.ind_hanging),
        }
    }
}

fn copy_ostr(o: &Option<String>) -> (r: Option<String>)
    ensures
        ostr(r) == ostr(*o),
{
    match o {
        Some(s) => Some(string_of(chars_of(s.as_str()).as_slice())),
        None => None,
    }
}

impl Lvl {
    /// A level as `<w:lvl>` opens it: decimal, empty text, starting at 1.
    pub fn fresh() -> (l: Lvl)
        ensures
            l@ == fresh_lvl(),
    {
        Lvl { fmt: NumFmt::Decimal, text: String::new(), start: 1, ind_left: None, ind_hanging: None }
    }

    /// A copy of the level.
    pub fn copy(&self) -> (r: Lvl)
        ensures
            r@ == self@,
    {
        Lvl {
            fmt: self.fmt,
            text: string_of(chars_of(self.text.as_str()).as_slice()),
            start: self.start,
            ind_left: copy_ostr(&self.ind_left),
            ind_hanging: copy_ostr(&self.ind_hanging),
        }
    }
}

/// The level `<w:lvl>` starts from.
pub open spec fn fresh_lvl() -> LvlView {
    LvlView { fmt: NumFmt::Decimal, text: Seq::empty(), start: 1, ind_left: None, ind_hanging: None }
}

/// List definitions: which abstract definition each `numId` uses, and the
/// levels of each abstract definition (a later entry for the same key wins).
pub struct Numbering {
    pub num_to_abstract: Vec<(u32, u32)>,
    pub levels: Vec<(u32, u32, Lvl)>,
}

/// Spec value of a [`Numbering`].
pub struct NumberingView {
    pub nums: Seq<(u32, u32)>,
    pub levels: Seq<(u32, u32, LvlView)>,
}

impl View for Numbering {
    type V = NumberingView;

    open spec fn view(&self) -> NumberingView {
        NumberingView {
            nums: self.num_to_abstract@,
            levels: self.levels@.map_values(|e: (u32, u32, Lvl)| (e.0, e.1, e.2@)),
        }
    }
}

/// Abstract definition of `num_id`: the last entry for it.
pub open spec fn abstract_of(nums: Seq<(u32, u32)>, num_id: u32) -> Option<u32>
    decreases nums.len(),
{
    if nums.len() == 0 {
        None
    } else if nums.last().0 == num_id {
        Some(nums.last().1)
    } else {
        abstract_of(nums.drop_last(), num_id)
    }
}

/// Level `ilvl` of abstract definition `a`: the last entry for them.
pub open spec fn level_of(levels: Seq<(u32, u32, LvlView)>, a: u32, ilvl: u32) -> Option<LvlView>
    decreases levels.len(),
{
    if levels.len() == 0 {
        None
    } else if levels.last().0 == a && levels.last().1 == ilvl {
        Some(levels.last().2)
    } else {
        level_of(levels.drop_last(), a, ilvl)
    }
}

impl Numbering {
    /// The abstract definition a `numId` refers to.
    pub fn abstract_id(&self, num_id: u32) -> (r: Option<u32>)
        ensures
            r == abstract_of(self@.nums, num_id),
    {
        let mut i = self.num_to_abstract.len();
        assert(self@.nums.take(i as int) =~= self@.nums);
        while i > 0
            invariant
                i <= self.num_to_abstract.len(),
                abstract_of(self@.nums, num_id) == abstract_of(self@.nums.take(i as int), num_id),
            decreases i,
        {
            assert(self@.nums.take(i as int).drop_last() =~= self@.nums.take(i - 1));
            if self.num_to_abstract[i - 1].0 == num_id {
                return Some(self.num_to_abstract[i - 1].1);
            }
            i -= 1;
        }
        None
    }

    /// Level `ilvl` of abstract definition `a`.
    pub fn level(&self, a: u32, ilvl: u32) -> (r: Option<&Lvl>)
        ensures
            match r {
                Some(l) => level_of(self@.levels, a, ilvl) == Some(l@),
                None => level_of(self@.levels, a, ilvl) is None,
            },
    {
        let ghost lv = self@.levels;
        let mut i = self.levels.len();
        assert(lv.take(i as int) =~= lv);
        while i > 0
            invariant
                i <= self.levels.len(),
                lv == self@.levels,
                level_of(lv, a, ilvl) == level_of(lv.take(i as int), a, ilvl),
            decreases i,
        {
            assert(lv.take(i as int).drop_last() =~= lv.take(i - 1));
            assert(lv[i - 1] == (self.levels@[i - 1].0, self.levels@[i - 1].1, self.levels@[i
                - 1].2@));
            if self.levels[i - 1].0 == a && self.levels[i - 1].1 == ilvl {
                return Some(&self.levels[i - 1].2);
            }
            i -= 1;
        }
        None
    }
}

/// State of the `numbering.xml` scan.
pub struct NbScanView {
    pub nb: NumberingView,
    pub cur_abstract: Option<u32>,
    pub cur_ilvl: Option<u32>,
    pub cur_lvl: Option<LvlView>,
    pub cur_num: Option<u32>,
}

/// The level being read with `f` applied, when one is open.
pub open spec fn with_lvl(st: NbScanView, l: Option<LvlView>) -> NbScanView {
    NbScanView { cur_lvl: l, ..st }
}

/// One token of `numbering.xml`.
pub open spec fn nb_step(st: NbScanView, ev: XmlEventView) -> NbScanView {
    match ev {
        XmlEventView::Start(t) | XmlEventView::Empty(t) => {
            let n = t.name;
            if n == "w:abstractNum"@ {
                NbScanView { cur_abstract: attr_u32(t, "w:abstractNumId"@), ..st }
            } else if n == "w:lvl"@ {
                NbScanView { cur_ilvl: attr_u32(t, "w:ilvl"@), cur_lvl: Some(fresh_lvl()), ..st }
            } else if n == "w:start"@ {
                match (st.cur_lvl, attr_i32(t, "w:val"@)) {
                    (Some(l), Some(v)) => with_lvl(st, Some(LvlView { start: v, ..l })),
                    _ => st,
                }
            } else if n == "w:numFmt"@ {
                match (st.cur_lvl, tag_attr(t, "w:val"@)) {
                    (Some(l), Some(v)) => with_lvl(st, Some(LvlView { fmt: spec_num_fmt(v), ..l })),
                    _ => st,
                }
            } else if n == "w:lvlText"@ {
                match (st.cur_lvl, tag_attr(t, "w:val"@)) {
                    (Some(l), Some(v)) => with_lvl(st, Some(LvlView { text: v, ..l })),
                    _ => st,
                }
            } else if n == "w:ind"@ {
                match st.cur_lvl {
                    Some(l) => with_lvl(
                        st,
                        Some(
                            LvlView {
                                ind_left: tag_attr(t, "w:left"@),
                                ind_hanging: tag_attr(t, "w:hanging"@),
                                ..l
                            },
                        ),
                    ),
                    None => st,
                }
            } else if n == "w:num"@ {
                NbScanView { cur_num: attr_u32(t, "w:numId"@), ..st }
            } else if n == "w:abstractNumId"@ {
                match (st.cur_num, attr_u32(t, "w:val"@)) {
                    (Some(num), Some(a)) => NbScanView {
                        nb: NumberingView { nums: st.nb.nums.push((num, a)), ..st.nb },
                        ..st
                    },
                    _ => st,
                }
            } else {
                st
            }
        },
        XmlEventView::End(n, _) => {
            if n == "w:lvl"@ {
                let nb2 = match (st.cur_abstract, st.cur_ilvl, st.cur_lvl) {
                    (Some(a), Some(il), Some(l)) => NumberingView {
                        levels: st.nb.levels.push((a, il, l)),
                        ..st.nb
                    },
                    _ => st.nb,
                };
                NbScanView { nb: nb2, cur_ilvl: None, cur_lvl: None, ..st }
            } else if n == "w:abstractNum"@ {
                NbScanView { cur_abstract: None, ..st }
            } else if n == "w:num"@ {
                NbScanView { cur_num: None, ..st }
            } else {
                st
            }
        },
        _ => st,
    }
}

/// The `numbering.xml` scan over a token sequence.
pub open spec fn nb_fold(evs: Seq<XmlEventView>) -> NbScanView
    decreases evs.len(),
{
    if evs.len() == 0 {
        NbScanView {
            nb: NumberingView { nums: Seq::empty(), levels: Seq::empty() },
            cur_abstract: None,
            cur_ilvl: None,
            cur_lvl: None,
            cur_num: None,
        }
    } else {
        nb_step(nb_fold(evs.drop_last()), evs.last())
    }
}

struct NbScan {
    nb: Numbering,
    cur_abstract: Option<u32>,
    cur_ilvl: Option<u32>,
    cur_lvl: Option<Lvl>,
    cur_num: Option<u32>,
}

impl View for NbScan {
    type V = NbScanView;

    closed spec fn view(&self) -> NbScanView {
        NbScanView {
            nb: self.nb@,
            cur_abstract: self.cur_abstract,
            cur_ilvl: self.cur_ilvl,
            cur_lvl: match &self.cur_lvl {
                Some(l) => Some(l@),
                None => None,
            },
            cur_num: self.cur_num,
        }
    }
}

fn nb_open(st: &mut NbScan, t: &XmlTag)
    ensures
        final(st)@ == nb_step(old(st)@, XmlEventView::Start(t@)),
{
    let n = t.name.as_str();
    if str_eq(n, "w:abstractNum") {
        st.cur_abstract = get_attr_u32(t, "w:abstractNumId");
    } else if str_eq(n, "w:lvl") {
        st.cur_ilvl = get_attr_u32(t, "w:ilvl");
        st.cur_lvl = Some(Lvl::fresh());
    } else if str_eq(n, "w:start") {
        let v = get_attr_i32(t, "w:val");
        match (&mut st.cur_lvl, v) {
            (Some(l), Some(v)) => {
                l.start = v;
            },
            _ => {},
        }
    } else if str_eq(n, "w:numFmt") {
        let v = get_attr(t, "w:val");
        match (&mut st.cur_lvl, v) {
            (Some(l), Some(v)) => {
                l.fmt = num_fmt(v.as_str());
            },
            _ => {},
        }
    } else if str_eq(n, "w:lvlText") {
        let v = get_attr(t, "w:val");
        match (&mut st.cur_lvl, v) {
            (Some(l), Some(v)) => {
                l.text = v;
            },
            _ => {},
        }
    } else if str_eq(n, "w:ind") {
        let left = get_attr(t, "w:left");
        let hanging = get_attr(t, "w:hanging");
        match &mut st.cur_lvl {
            Some(l) => {
                l.ind_left = left;
                l.ind_hanging = hanging;
            },
            None => {},
        }
    } else if str_eq(n, "w:num") {
        st.cur_num = get_attr_u32(t, "w:numId");
    } else if str_eq(n, "w:abstractNumId") {
        let v = get_attr_u32(t, "w:val");
        match (st.cur_num, v) {
            (Some(num), Some(a)) => {
                st.nb.num_to_abstract.push((num, a));
            },
            _ => {},
        }
    }
}

fn nb_close(st: &mut NbScan, name: &String, local: &String)
    ensures
        final(st)@ == nb_step(old(st)@, XmlEventView::End(name@, local@)),
{
    let n = name.as_str();
    if str_eq(n, "w:lvl") {
        let il = st.cur_ilvl;
        let mut l: Option<Lvl> = None;
        std::mem::swap(&mut l, &mut st.cur_lvl);
        st.cur_ilvl = None;
        match (st.cur_abstract, il, l) {
            (Some(a), Some(il), Some(l)) => {
                let ghost before = st.nb@.levels;
                let ghost lv = l@;
                st.nb.levels.push((a, il, l));
                assert(st.nb@.levels =~= before.push((a, il, lv)));
            },
            _ => {},
        }
    } else if str_eq(n, "w:abstractNum") {
        st.cur_abstract = None;
    } else if str_eq(n, "w:num") {
        st.cur_num = None;
    }
}

/// List definitions from the tokens of `numbering.xml`.
pub fn parse_numbering_xml(xml: &str) -> (r: Numbering)
    ensures
        r@ == nb_fold(xml_events(xml@)).nb,
{
    let toks = xml_tokens(xml);
    parse_numbering_events(toks.as_slice())
}

/// What [`parse_numbering_xml`] computes, from the tokens `toks` of the text.
pub fn parse_numbering_events(toks: &[XmlEvent]) -> (r: Numbering)
    ensures
        r@ == nb_fold(events_view(toks@)).nb,
{
    let ghost evs = events_view(toks@);
    let mut i: usize = 0;
    let mut st = NbScan {
        nb: Numbering { num_to_abstract: Vec::new(), levels: Vec::new() },
        cur_abstract: None,
        cur_ilvl: None,
        cur_lvl: None,
        cur_num: None,
    };
    assert(st@.nb.nums =~= Seq::<(u32, u32)>::empty());
    assert(st@.nb.levels =~= Seq::<(u32, u32, LvlView)>::empty());
    while i < toks.len()
        invariant
            i <= toks.len(),
            st@ == nb_fold(evs.take(i as int)),
            evs == events_view(toks@),
        decreases toks.len() - i,
    {
        let ghost k = i;
        assert(evs[k as int] == toks@[k as int]@);
        match &toks[i] {
            XmlEvent::Start(t) => {
                nb_open(&mut st, t);
                assert(evs.take((k + 1) as int).drop_last() =~= evs.take(k as int));
            },
            XmlEvent::Empty(t) => {
                nb_open(&mut st, t);
                assert(evs.take((k + 1) as int).drop_last() =~= evs.take(k as int));
            },
            XmlEvent::End(n, l) => {
                nb_close(&mut st, n, l);
                assert(evs.take((k + 1) as int).drop_last() =~= evs.take(k as int));
            },
            _ => {
                assert(evs.take((k + 1) as int).drop_last() =~= evs.take(k as int));
            },
        }
        i += 1;
    }
    assert(evs.take(toks.len() as int) =~= evs);
    st.nb
}

// ------------------------------------------------------------------------
// Counters and markers
// ------------------------------------------------------------------------

/// Value of the last entry for key `k`.
pub open spec fn lookup(s: Seq<(u32, u32, i32)>, k: (u32, u32)) -> Option<i32>
    decreases s.len(),
{
    if s.len() == 0 {
        None
    } else if (s.last().0, s.last().1) == k {
        Some(s.last().2)
    } else {
        lookup(s.drop_last(), k)
    }
}

/// Current value of each list level's counter, keyed by (`numId`, level).
pub struct Counters {
    entries: Vec<(u32, u32, i32)>,
}

impl View for Counters {
    type V = Map<(u32, u32), i32>;

    closed spec fn view(&self) -> Map<(u32, u32), i32> {
        Map::new(|k: (u32, u32)| lookup(self.entries@, k) is Some, |k: (u32, u32)| lookup(self.entries@, k)->0)
    }
}

/// The counters after a paragraph of level `ilvl` of list `num_id`: that
/// level counts on from its value (or starts at `start`), and the deeper
/// levels of the same list are reset.
pub open spec fn spec_advance(c: Map<(u32, u32), i32>, num_id: u32, ilvl: u32, start: i32) -> Map<
    (u32, u32),
    i32,
> {
    let v = if c.contains_key((num_id, ilvl)) {
        (c[(num_id, ilvl)] + 1) as i32
    } else {
        start
    };
    Map::new(
        |k: (u32, u32)| (c.contains_key(k) && !(k.0 == num_id && k.1 >= ilvl)) || k == (num_id, ilvl),
        |k: (u32, u32)| if k == (num_id, ilvl) {
            v
        } else {
            c[k]
        },
    )
}

/// Whether advancing level `ilvl` of list `num_id` (starting at `start`)
/// stays within `i32`.
pub open spec fn advance_fits(c: Map<(u32, u32), i32>, num_id: u32, ilvl: u32, start: i32) -> bool {
    start > i32::MIN && (c.contains_key((num_id, ilvl)) ==> c[(num_id, ilvl)] < i32::MAX)
}

impl Counters {
    /// No counters.
    pub fn new() -> (c: Counters)
        ensures
            c@ == Map::<(u32, u32), i32>::empty(),
    {
        let c = Counters { entries: Vec::new() };
        assert(c@ =~= Map::<(u32, u32), i32>::empty());
        c
    }

    /// The counter of level `ilvl` of list `num_id`, if it has one.
    pub fn get(&self, num_id: u32, ilvl: u32) -> (r: Option<i32>)
        ensures
            r is Some <==> self@.contains_key((num_id, ilvl)),
            r matches Some(v) ==> self@[(num_id, ilvl)] == v,
    {
        let ghost s = self.entries@;
        let mut i = self.entries.len();
        assert(s.take(i as int) =~= s);
        while i > 0
            invariant
                i <= self.entries.len(),
                s == self.entries@,
                lookup(s, (num_id, ilvl)) == lookup(s.take(i as int), (num_id, ilvl)),
            decreases i,
        {
            assert(s.take(i as int).drop_last() =~= s.take(i - 1));
            let e = self.entries[i - 1];
            if e.0 == num_id && e.1 == ilvl {
                return Some(e.2);
            }
            i -= 1;
        }
        None
    }

    /// Counts one paragraph of level `ilvl` of list `num_id`; returns the new
    /// value of its counter.
    pub fn advance(&mut self, num_id: u32, ilvl: u32, start: i32) -> (v: i32)
        requires
            advance_fits(old(self)@, num_id, ilvl, start),
        ensures
            final(self)@ == spec_advance(old(self)@, num_id, ilvl, start),
            final(self)@[(num_id, ilvl)] == v,
    {
        let cur = self.get(num_id, ilvl);
        let v = match cur {
            Some(x) => x + 1,
            None => start,
        };
        let ghost s = self.entries@;
        let mut out: Vec<(u32, u32, i32)> = Vec::new();
        let mut j: usize = 0;
        while j < self.entries.len()
            invariant
                j <= self.entries.len(),
                s == self.entries@,
                forall|k: (u32, u32)|
                    #[trigger] lookup(out@, k) == if !(k.0 == num_id && k.1 >= ilvl) {
                        lookup(s.take(j as int), k)
                    } else {
                        None
                    },
            decreases self.entries.len() - j,
        {
            let e = self.entries[j];
            let ghost before = out@;
            assert(s.take(j + 1).drop_last() =~= s.take(j as int));
            assert(s.take(j + 1).last() == e);
            if !(e.0 == num_id && e.1 >= ilvl) {
                out.push(e);
                assert(out@.drop_last() =~= before);
            }
            assert forall|k: (u32, u32)| #[trigger]
                lookup(out@, k) == (if !(k.0 == num_id && k.1 >= ilvl) {
                    lookup(s.take(j + 1), k)
                } else {
                    None
                }) by {
                assert(lookup(before, k) == (if !(k.0 == num_id && k.1 >= ilvl) {
                    lookup(s.take(j as int), k)
                } else {
                    None
                }));
            }
            j += 1;
        }
        assert(s.take(s.len() as int) =~= s);
        let ghost filtered = out@;
        out.push((num_id, ilvl, v));
        assert(out@.drop_last() =~= filtered);
        assert forall|k: (u32, u32)| #[trigger]
            lookup(out@, k) == (if k == (num_id, ilvl) {
                Some(v)
            } else if !(k.0 == num_id && k.1 >= ilvl) {
                lookup(s, k)
            } else {
                None
            }) by {
            assert(lookup(filtered, k) == (if !(k.0 == num_id && k.1 >= ilvl) {
                lookup(s, k)
            } else {
                None
            }));
        }
        self.entries = out;
        assert(self@ =~= spec_advance(old(self)@, num_id, ilvl, start)) by {
            assert forall|k: (u32, u32)| #[trigger] self@.contains_key(k) == spec_advance(
                old(self)@,
                num_id,
                ilvl,
                start,
            ).contains_key(k) by {
                assert(lookup(self.entries@, k) == (if k == (num_id, ilvl) {
                    Some(v)
                } else if !(k.0 == num_id && k.1 >= ilvl) {
                    lookup(s, k)
                } else {
                    None
                }));
            }
            assert forall|k: (u32, u32)| #[trigger] self@.contains_key(k) implies self@[k]
                == spec_advance(old(self)@, num_id, ilvl, start)[k] by {
                assert(lookup(self.entries@, k) == (if k == (num_id, ilvl) {
                    Some(v)
                } else if !(k.0 == num_id && k.1 >= ilvl) {
                    lookup(s, k)
                } else {
                    None
                }));
            }
        }
        v
    }
}

/// Level text with each `%N` (`N` a digit) replaced by the counter of level
/// `N - 1` in that level's format: its current value, else the level's start,
/// else 1; decimal when the level is not defined.
pub open spec fn subst_from(
    t: Seq<char>,
    i: int,
    num_id: u32,
    a: u32,
    levels: Seq<(u32, u32, LvlView)>,
    c: Map<(u32, u32), i32>,
) -> Seq<char>
    decreases t.len() - i,
{
    if i < 0 || i >= t.len() {
        Seq::empty()
    } else if t[i] == '%' && i + 1 < t.len() && is_digit(t[i + 1]) {
        let d = digit_val(t[i + 1]);
        let r = if d == 0 {
            0u32
        } else {
            (d - 1) as u32
        };
        let lvl = level_of(levels, a, r);
        let val = if c.contains_key((num_id, r)) {
            c[(num_id, r)]
        } else {
            match lvl {
                Some(l) => l.start,
                None => 1i32,
            }
        };
        let fmt = match lvl {
            Some(l) => l.fmt,
            None => NumFmt::Decimal,
        };
        spec_fmt_counter(fmt, val as int) + subst_from(t, i + 2, num_id, a, levels, c)
    } else {
        seq![t[i]] + subst_from(t, i + 1, num_id, a, levels, c)
    }
}

/// Fills in a level text's `%N` placeholders.
pub fn substitute(text: &str, num_id: u32, abstract_id: u32, nb: &Numbering, counters: &Counters) -> (s: String)
    ensures
        s@ == subst_from(text@, 0, num_id, abstract_id, nb@.levels, counters@),
{
    let cs = chars_of(text);
    let mut out: Vec<char> = Vec::new();
    let mut i: usize = 0;
    assert(out@ + subst_from(cs@, 0, num_id, abstract_id, nb@.levels, counters@) =~= subst_from(
        cs@,
        0,
        num_id,
        abstract_id,
        nb@.levels,
        counters@,
    ));
    while i < cs.len()
        invariant
            i <= cs.len(),
            cs@ == text@,
            out@ + subst_from(cs@, i as int, num_id, abstract_id, nb@.levels, counters@)
                == subst_from(cs@, 0, num_id, abstract_id, nb@.levels, counters@),
        decreases cs.len() - i,
    {
        let ghost before = out@;
        if cs[i] == '%' && i + 1 < cs.len() && '0' <= cs[i + 1] && cs[i + 1] <= '9' {
            let d = cs[i + 1] as u32 - '0' as u32;
            let r: u32 = if d == 0 {
                0
            } else {
                d - 1
            };
            let lvl = nb.level(abstract_id, r);
            let val = match counters.get(num_id, r) {
                Some(v) => v,
                None => match lvl {
                    Some(l) => l.start,
                    None => 1,
                },
            };
            let fmt = match lvl {
                Some(l) => l.fmt,
                None => NumFmt::Decimal,
            };
            let piece = fmt_counter(fmt, val);
            let pv = chars_of(piece.as_str());
            append_chars(&mut out, pv.as_slice());
            assert(before + subst_from(cs@, i as int, num_id, abstract_id, nb@.levels, counters@)
                =~= out@ + subst_from(cs@, i + 2, num_id, abstract_id, nb@.levels, counters@));
            i += 2;
        } else {
            out.push(cs[i]);
            assert(before + subst_from(cs@, i as int, num_id, abstract_id, nb@.levels, counters@)
                =~= out@ + subst_from(cs@, i + 1, num_id, abstract_id, nb@.levels, counters@));
            i += 1;
        }
    }
    assert(out@ + subst_from(cs@, cs.len() as int, num_id, abstract_id, nb@.levels, counters@)
        =~= out@);
    string_of(out.as_slice())
}

/// Marker text of a numbered paragraph: the bullet, nothing, or the level
/// text with its placeholders filled in from the counters `c`.
pub open spec fn marker_text(
    l: LvlView,
    num_id: u32,
    a: u32,
    levels: Seq<(u32, u32, LvlView)>,
    c: Map<(u32, u32), i32>,
) -> Seq<char> {
    match l.fmt {
        NumFmt::Bullet => spec_bullet_char(l.text),
        NumFmt::None_ => Seq::empty(),
        _ => subst_from(l.text, 0, num_id, a, levels, c),
    }
}

/// What numbering a paragraph of level `ilvl` of list `num_id` does, when the
/// list and level are defined: the counters after it, its marker text and
/// the level.
pub open spec fn spec_number_para(nb: NumberingView, c: Map<(u32, u32), i32>, num_id: u32, ilvl: u32) -> Option<
    (Map<(u32, u32), i32>, Seq<char>, LvlView),
> {
    if num_id == 0 {
        None
    } else {
        match abstract_of(nb.nums, num_id) {
            None => None,
            Some(a) => match level_of(nb.levels, a, ilvl) {
                None => None,
                Some(l) => {
                    let c2 = spec_advance(c, num_id, ilvl, l.start);
                    Some((c2, marker_text(l, num_id, a, nb.levels, c2), l))
                },
            },
        }
    }
}

/// Whether numbering that paragraph keeps its counter within `i32`.
pub open spec fn number_fits(nb: NumberingView, c: Map<(u32, u32), i32>, num_id: u32, ilvl: u32) -> bool {
    match abstract_of(nb.nums, num_id) {
        Some(a) => match level_of(nb.levels, a, ilvl) {
            Some(l) => advance_fits(c, num_id, ilvl, l.start),
            None => true,
        },
        None => true,
    }
}

/// A numbered paragraph's marker (none when empty) and list level.
pub struct NumberedPara {
    pub marker: Option<String>,
    pub level: Lvl,
}

/// Whether [`number_paragraph`] can count that paragraph within `i32`.
pub fn numbering_fits(nb: &Numbering, counters: &Counters, num_id: u32, ilvl: u32) -> (b: bool)
    ensures
        b == number_fits(nb@, counters@, num_id, ilvl),
{
    match nb.abstract_id(num_id) {
        Some(a) => match nb.level(a, ilvl) {
            Some(l) => l.start > i32::MIN && match counters.get(num_id, ilvl) {
                Some(v) => v < i32::MAX,
                None => true,
            },
            None => true,
        },
        None => true,
    }
}

/// Numbers one paragraph of level `ilvl` of list `num_id` (0 means none):
/// counts it and returns its marker and level, or `None` when the paragraph
/// is not in a defined list level (the counters then stay as they are).
pub fn number_paragraph(nb: &Numbering, counters: &mut Counters, num_id: u32, ilvl: u32) -> (r: Option<NumberedPara>)
    requires
        number_fits(nb@, old(counters)@, num_id, ilvl),
    ensures
        match (r, spec_number_para(nb@, old(counters)@, num_id, ilvl)) {
            (Some(p), Some((c2, m, l))) => final(counters)@ == c2 && p.level@ == l && (if m.len()
                == 0 {
                p.marker is None
            } else {
                p.marker matches Some(t) && t@ == m
            }),
            (None, None) => final(counters)@ == old(counters)@,
            _ => false,
        },
{
    if num_id == 0 {
        return None;
    }
    let a = match nb.abstract_id(num_id) {
        Some(a) => a,
        None => return None,
    };
    let l = match nb.level(a, ilvl) {
        Some(l) => l,
        None => return None,
    };
    counters.advance(num_id, ilvl, l.start);
    let marker = match l.fmt {
        NumFmt::Bullet => bullet_char(l.text.as_str()),
        NumFmt::None_ => String::new(),
        _ => substitute(l.text.as_str(), num_id, a, nb, counters),
    };
    let level = l.copy();
    if marker.as_str().is_empty() {
        Some(NumberedPara { marker: None, level })
    } else {
        Some(NumberedPara { marker: Some(marker), level })
    }
}

// ------------------------------------------------------------------------
// Laws
// ------------------------------------------------------------------------

/// Upper-case letter numbering is the spreadsheet column naming: `A`..`Z`,
/// `AA`, ... for counters from 1.
pub proof fn law_alpha_upper_is_col_letters(v: nat)
    requires
        v >= 1,
    ensures
        spec_alpha(v as int, true) == col_letters(v),
{
    lemma_alpha_col(v);
}

proof fn lemma_alpha_col(n: nat)
    ensures
        alpha_letters(n, true) == col_letters(n),
    decreases n,
{
    if n > 0 {
        lemma_alpha_col(((n - 1) / 26) as nat);
        assert(nth_letter((n - 1) % 26, true) == letter((n - 1) % 26));
    }
}

/// The first paragraph of a list level gets the level's start value.
pub proof fn law_first_item_starts(c: Map<(u32, u32), i32>, num_id: u32, ilvl: u32, start: i32)
    requires
        !c.contains_key((num_id, ilvl)),
    ensures
        spec_advance(c, num_id, ilvl, start)[(num_id, ilvl)] == start,
{
}

/// Consecutive paragraphs of one list level count up by one.
pub proof fn law_next_item_counts_up(c: Map<(u32, u32), i32>, num_id: u32, ilvl: u32, start: i32)
    requires
        advance_fits(c, num_id, ilvl, start),
        advance_fits(spec_advance(c, num_id, ilvl, start), num_id, ilvl, start),
    ensures
        spec_advance(spec_advance(c, num_id, ilvl, start), num_id, ilvl, start)[(num_id, ilvl)]
            == spec_advance(c, num_id, ilvl, start)[(num_id, ilvl)] + 1,
{
    assert(spec_advance(c, num_id, ilvl, start).contains_key((num_id, ilvl)));
}

/// A paragraph of a list level resets the deeper levels of that list: none
/// of them has a counter afterwards, so the next one starts again.
pub proof fn law_deeper_levels_reset(
    c: Map<(u32, u32), i32>,
    num_id: u32,
    ilvl: u32,
    start: i32,
    deeper: u32,
)
    requires
        deeper > ilvl,
    ensures
        !spec_advance(c, num_id, ilvl, start).contains_key((num_id, deeper)),
{
}

/// A paragraph leaves the counters of the shallower levels of its list, and
/// of every other list, as they were.
pub proof fn law_other_counters_kept(
    c: Map<(u32, u32), i32>,
    num_id: u32,
    ilvl: u32,
    start: i32,
    k: (u32, u32),
)
    requires
        k.0 != num_id || k.1 < ilvl,
    ensures
        spec_advance(c, num_id, ilvl, start).contains_key(k) == c.contains_key(k),
        c.contains_key(k) ==> spec_advance(c, num_id, ilvl, start)[k] == c[k],
{
}

} // verus!
