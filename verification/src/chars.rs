//! Character-sequence helpers shared by the text parsers: conversion between
//! `str`/`String` and `Vec<char>`, Unicode white space, trimming, decimal
//! numbers and the UTF-8 length of a character.

use vstd::prelude::*;

verus! {

/// `String::push` appends one character.
pub assume_specification[ String::push ](s: &mut String, ch: char)
    ensures
        final(s)@ == old(s)@.push(ch),
;

/// The characters of a string slice, in order.
pub fn chars_of(s: &str) -> (v: Vec<char>)
    ensures
        v@ == s@,
{
    let mut v: Vec<char> = Vec::new();
    for c in it: s.chars()
        invariant
            v@ == it.seq().take(it.index() as int),
    {
        v.push(c);
    }
    v
}

/// A `String` holding exactly the given characters.
pub fn string_of(v: &[char]) -> (s: String)
    ensures
        s@ == v@,
{
    let mut s = String::new();
    let mut i: usize = 0;
    while i < v.len()
        invariant
            i <= v.len(),
            s@ == v@.take(i as int),
        decreases v.len() - i,
    {
        s.push(v[i]);
        i += 1;
        assert(v@.take(i as int) =~= v@.take(i - 1).push(v@[i - 1]));
    }
    assert(v@.take(v.len() as int) =~= v@);
    s
}

/// Copy of `s[lo..hi]`.
pub fn copy_range(s: &[char], lo: usize, hi: usize) -> (v: Vec<char>)
    requires
        lo <= hi <= s.len(),
    ensures
        v@ == s@.subrange(lo as int, hi as int),
{
    let mut v: Vec<char> = Vec::new();
    let mut i = lo;
    while i < hi
        invariant
            lo <= i <= hi <= s.len(),
            v@ == s@.subrange(lo as int, i as int),
        decreases hi - i,
    {
        v.push(s[i]);
        i += 1;
        assert(s@.subrange(lo as int, i as int) =~= s@.subrange(lo as int, i - 1).push(s@[i - 1]));
    }
    v
}

/// Appends `t` to `v`.
pub fn append_chars(v: &mut Vec<char>, t: &[char])
    ensures
        final(v)@ == old(v)@ + t@,
{
    let mut i: usize = 0;
    while i < t.len()
        invariant
            i <= t.len(),
            v@ == old(v)@ + t@.take(i as int),
        decreases t.len() - i,
    {
        v.push(t[i]);
        i += 1;
        assert(t@.take(i as int) =~= t@.take(i - 1).push(t@[i - 1]));
    }
    assert(t@.take(t.len() as int) =~= t@);
}

/// Unicode `White_Space`: the characters `char::is_whitespace` accepts.
pub open spec fn is_ws(c: char) -> bool {
    let u = c as u32;
    ||| 0x9 <= u <= 0xD
    ||| u == 0x20
    ||| u == 0x85
    ||| u == 0xA0
    ||| u == 0x1680
    ||| 0x2000 <= u <= 0x200A
    ||| u == 0x2028
    ||| u == 0x2029
    ||| u == 0x202F
    ||| u == 0x205F
    ||| u == 0x3000
}

/// Whether `c` is Unicode white space.
pub fn is_whitespace(c: char) -> (b: bool)
    ensures
        b == is_ws(c),
{
    let u = c as u32;
    (0x9 <= u && u <= 0xD) || u == 0x20 || u == 0x85 || u == 0xA0 || u == 0x1680 || (0x2000 <= u
        && u <= 0x200A) || u == 0x2028 || u == 0x2029 || u == 0x202F || u == 0x205F || u == 0x3000
}

/// Number of leading white-space characters.
pub open spec fn lead_ws(s: Seq<char>) -> nat
    decreases s.len(),
{
    if s.len() == 0 {
        0
    } else if is_ws(s[0]) {
        1 + lead_ws(s.drop_first())
    } else {
        0
    }
}

/// Number of trailing white-space characters.
pub open spec fn trail_ws(s: Seq<char>) -> nat
    decreases s.len(),
{
    if s.len() == 0 {
        0
    } else if is_ws(s.last()) {
        1 + trail_ws(s.drop_last())
    } else {
        0
    }
}

/// `str::trim_start`.
pub open spec fn trim_start(s: Seq<char>) -> Seq<char> {
    s.skip(lead_ws(s) as int)
}

/// `str::trim_end`.
pub open spec fn trim_end(s: Seq<char>) -> Seq<char> {
    s.take(s.len() - trail_ws(s))
}

/// `str::trim`.
pub open spec fn trim(s: Seq<char>) -> Seq<char> {
    trim_end(trim_start(s))
}

pub proof fn lemma_lead_ws(s: Seq<char>, i: int)
    requires
        0 <= i <= s.len(),
        forall|j: int| 0 <= j < i ==> is_ws(#[trigger] s[j]),
        i == s.len() || !is_ws(s[i]),
    ensures
        lead_ws(s) == i,
    decreases i,
{
    if i > 0 {
        assert forall|j: int| 0 <= j < i - 1 implies is_ws(#[trigger] s.drop_first()[j]) by {
            assert(s.drop_first()[j] == s[j + 1]);
        }
        if i < s.len() {
            assert(s.drop_first()[i - 1] == s[i]);
        }
        lemma_lead_ws(s.drop_first(), i - 1);
    }
}

pub proof fn lemma_lead_ws_bound(s: Seq<char>)
    ensures
        lead_ws(s) <= s.len(),
        forall|j: int| 0 <= j < lead_ws(s) ==> is_ws(#[trigger] s[j]),
        lead_ws(s) < s.len() ==> !is_ws(s[lead_ws(s) as int]),
    decreases s.len(),
{
    if s.len() > 0 && is_ws(s[0]) {
        lemma_lead_ws_bound(s.drop_first());
        assert forall|j: int| 0 <= j < lead_ws(s) implies is_ws(#[trigger] s[j]) by {
            if j > 0 {
                assert(s[j] == s.drop_first()[j - 1]);
            }
        }
    }
}

pub proof fn lemma_trail_ws(s: Seq<char>, i: int)
    requires
        0 <= i <= s.len(),
        forall|j: int| s.len() - i <= j < s.len() ==> is_ws(#[trigger] s[j]),
        i == s.len() || !is_ws(s[s.len() - 1 - i]),
    ensures
        trail_ws(s) == i,
    decreases i,
{
    if i > 0 {
        let t = s.drop_last();
        assert forall|j: int| t.len() - (i - 1) <= j < t.len() implies is_ws(#[trigger] t[j]) by {
            assert(t[j] == s[j]);
        }
        if i < s.len() {
            assert(t[t.len() - 1 - (i - 1)] == s[s.len() - 1 - i]);
        }
        lemma_trail_ws(t, i - 1);
    }
}

/// Number of leading white-space characters of `s`.
pub fn lead_ws_len(s: &[char]) -> (n: usize)
    ensures
        n == lead_ws(s@),
        n <= s.len(),
{
    let mut i: usize = 0;
    while i < s.len() && is_whitespace(s[i])
        invariant
            i <= s.len(),
            forall|j: int| 0 <= j < i ==> is_ws(#[trigger] s@[j]),
        decreases s.len() - i,
    {
        i += 1;
    }
    proof {
        lemma_lead_ws(s@, i as int);
    }
    i
}

/// Number of trailing white-space characters of `s`.
pub fn trail_ws_len(s: &[char]) -> (n: usize)
    ensures
        n == trail_ws(s@),
        n <= s.len(),
{
    let mut i: usize = 0;
    while i < s.len() && is_whitespace(s[s.len() - 1 - i])
        invariant
            i <= s.len(),
            forall|j: int| s.len() - i <= j < s.len() ==> is_ws(#[trigger] s@[j]),
        decreases s.len() - i,
    {
        i += 1;
    }
    proof {
        lemma_trail_ws(s@, i as int);
    }
    i
}

/// `str::trim` on characters.
pub fn trim_chars(s: &[char]) -> (v: Vec<char>)
    ensures
        v@ == trim(s@),
{
    let lo = lead_ws_len(s);
    let rest = copy_range(s, lo, s.len());
    let n = trail_ws_len(rest.as_slice());
    assert(rest@ == trim_start(s@));
    copy_range(rest.as_slice(), 0, rest.len() - n)
}

/// `str::trim_start` on characters.
pub fn trim_start_chars(s: &[char]) -> (v: Vec<char>)
    ensures
        v@ == trim_start(s@),
{
    let lo = lead_ws_len(s);
    copy_range(s, lo, s.len())
}

/// `str::trim_end` on characters.
pub fn trim_end_chars(s: &[char]) -> (v: Vec<char>)
    ensures
        v@ == trim_end(s@),
{
    let n = trail_ws_len(s);
    copy_range(s, 0, s.len() - n)
}

/// Whether every character is white space (so that `trim` leaves nothing).
pub open spec fn blank(s: Seq<char>) -> bool {
    forall|j: int| 0 <= j < s.len() ==> is_ws(#[trigger] s[j])
}

pub proof fn lemma_blank_trim(s: Seq<char>)
    ensures
        blank(s) <==> trim(s).len() == 0,
{
    lemma_lead_ws_bound(s);
    if blank(s) {
        lemma_lead_ws(s, s.len() as int);
    }
    if trim(s).len() == 0 && lead_ws(s) < s.len() {
        let t = trim_start(s);
        assert(t[0] == s[lead_ws(s) as int]);
        assert(trail_ws(t) <= t.len()) by {
            lemma_trail_bound(t);
        }
        lemma_trail_bound(t);
        assert(is_ws(t[0]));
    }
}

pub proof fn lemma_trail_bound(s: Seq<char>)
    ensures
        trail_ws(s) <= s.len(),
        forall|j: int| s.len() - trail_ws(s) <= j < s.len() ==> is_ws(#[trigger] s[j]),
    decreases s.len(),
{
    if s.len() > 0 && is_ws(s.last()) {
        lemma_trail_bound(s.drop_last());
        assert forall|j: int| s.len() - trail_ws(s) <= j < s.len() implies is_ws(#[trigger] s[j]) by {
            if j < s.len() - 1 {
                assert(s[j] == s.drop_last()[j]);
            }
        }
    }
}

/// Whether every character of `s` is white space.
pub fn is_blank(s: &[char]) -> (b: bool)
    ensures
        b == blank(s@),
{
    let n = lead_ws_len(s);
    proof {
        lemma_lead_ws_bound(s@);
    }
    n == s.len()
}

/// ASCII decimal digit.
pub open spec fn is_digit(c: char) -> bool {
    '0' <= c <= '9'
}

/// Value of an ASCII decimal digit.
pub open spec fn digit_val(c: char) -> nat {
    (c as u32 - '0' as u32) as nat
}

/// Value of a string of decimal digits.
pub open spec fn digits_value(s: Seq<char>) -> nat
    decreases s.len(),
{
    if s.len() == 0 {
        0
    } else {
        digits_value(s.drop_last()) * 10 + digit_val(s.last())
    }
}

pub open spec fn all_digits(s: Seq<char>) -> bool {
    forall|j: int| 0 <= j < s.len() ==> is_digit(#[trigger] s[j])
}

/// What `str::parse` returns for an unsigned integer type whose maximum is `max`:
/// an optional `+` (when more follows), then one or more ASCII digits.
pub open spec fn parse_unsigned(s: Seq<char>, max: nat) -> Option<nat> {
    let body = if s.len() > 1 && s[0] == '+' {
        s.drop_first()
    } else {
        s
    };
    if body.len() > 0 && all_digits(body) && digits_value(body) <= max {
        Some(digits_value(body))
    } else {
        None
    }
}

pub proof fn lemma_digits_prefix(s: Seq<char>, k: int)
    requires
        0 <= k <= s.len(),
        all_digits(s),
    ensures
        digits_value(s.take(k)) <= digits_value(s),
    decreases s.len(),
{
    if k < s.len() {
        assert(all_digits(s.drop_last()));
        assert(s.drop_last().take(k) =~= s.take(k));
        lemma_digits_prefix(s.drop_last(), k);
    } else {
        assert(s.take(k) =~= s);
    }
}

/// Value of the digits `s[lo..hi]`, or `None` if one is not a digit or the value exceeds `max`.
pub fn digits_upto(s: &[char], lo: usize, hi: usize, max: u64) -> (r: Option<u64>)
    requires
        lo <= hi <= s.len(),
    ensures
        ({
            let b = s@.subrange(lo as int, hi as int);
            match r {
                Some(v) => all_digits(b) && v == digits_value(b) && v <= max,
                None => !all_digits(b) || digits_value(b) > max,
            }
        }),
{
    let ghost b = s@.subrange(lo as int, hi as int);
    let mut v: u64 = 0;
    let mut i = lo;
    while i < hi
        invariant
            lo <= i <= hi <= s.len(),
            b == s@.subrange(lo as int, hi as int),
            all_digits(b.take(i - lo)),
            v == digits_value(b.take(i - lo)),
            v <= max,
        decreases hi - i,
    {
        let c = s[i];
        if !('0' <= c && c <= '9') {
            proof {
                assert(b[i - lo] == c);
            }
            return None;
        }
        let d = (c as u32 - '0' as u32) as u64;
        proof {
            assert(b.take(i + 1 - lo).drop_last() =~= b.take(i - lo));
            assert(b.take(i + 1 - lo).last() == c);
        }
        if d > max || v > (max - d) / 10 {
            proof {
                if d <= max {
                    assert(v * 10 + d > max) by (nonlinear_arith)
                        requires
                            v > (max - d) / 10,
                            d <= max,
                    ;
                }
                if all_digits(b) {
                    lemma_digits_prefix(b, i + 1 - lo);
                }
            }
            return None;
        }
        proof {
            assert(v * 10 + d <= max) by (nonlinear_arith)
                requires
                    v <= (max - d) / 10,
                    d <= max,
            ;
        }
        v = v * 10 + d;
        i += 1;
        proof {
            assert forall|j: int| 0 <= j < i - lo implies is_digit(#[trigger] b.take(i - lo)[j]) by {
                if j < i - 1 - lo {
                    assert(b.take(i - lo)[j] == b.take(i - 1 - lo)[j]);
                }
            }
        }
    }
    assert(b.take(hi - lo) =~= b);
    Some(v)
}

/// `str::parse` for an unsigned integer type whose maximum is `max`.
pub fn parse_unsigned_chars(s: &[char], max: u64) -> (r: Option<u64>)
    ensures
        match r {
            Some(v) => parse_unsigned(s@, max as nat) == Some(v as nat),
            None => parse_unsigned(s@, max as nat) is None,
        },
{
    let lo: usize = if s.len() > 1 && s[0] == '+' {
        1
    } else {
        0
    };
    assert(s@.subrange(lo as int, s.len() as int) =~= (if s@.len() > 1 && s@[0] == '+' {
        s@.drop_first()
    } else {
        s@
    }));
    if lo == s.len() {
        return None;
    }
    digits_upto(s, lo, s.len(), max)
}

/// The decimal digit character for `d < 10`.
pub open spec fn digit_char(d: nat) -> char {
    (('0' as u32) + d) as char
}

/// Decimal representation of a natural number (no leading zeros).
pub open spec fn dec(n: nat) -> Seq<char>
    decreases n,
{
    if n < 10 {
        seq![digit_char(n)]
    } else {
        dec(n / 10).push(digit_char(n % 10))
    }
}

/// Decimal representation of `n`.
pub fn dec_chars(n: u128) -> (v: Vec<char>)
    ensures
        v@ == dec(n as nat),
    decreases n,
{
    if n < 10 {
        let c = char_from_digit(n as u32);
        let mut v = Vec::new();
        v.push(c);
        assert(v@ =~= seq![digit_char(n as nat)]);
        v
    } else {
        let mut v = dec_chars(n / 10);
        v.push(char_from_digit((n % 10) as u32));
        v
    }
}

/// The character for a decimal digit.
pub fn char_from_digit(d: u32) -> (c: char)
    requires
        d < 10,
    ensures
        c == digit_char(d as nat),
{
    if d == 0 {
        '0'
    } else if d == 1 {
        '1'
    } else if d == 2 {
        '2'
    } else if d == 3 {
        '3'
    } else if d == 4 {
        '4'
    } else if d == 5 {
        '5'
    } else if d == 6 {
        '6'
    } else if d == 7 {
        '7'
    } else if d == 8 {
        '8'
    } else {
        '9'
    }
}

/// Number of bytes of the UTF-8 encoding of `c`.
pub open spec fn utf8_len(c: char) -> nat {
    let u = c as u32;
    if u < 0x80 {
        1
    } else if u < 0x800 {
        2
    } else if u < 0x10000 {
        3
    } else {
        4
    }
}

/// Number of bytes of the UTF-8 encoding of a character sequence.
pub open spec fn utf8_total(s: Seq<char>) -> nat
    decreases s.len(),
{
    if s.len() == 0 {
        0
    } else {
        utf8_total(s.drop_last()) + utf8_len(s.last())
    }
}

/// Whether `s` starts with `p`.
pub open spec fn starts_with(s: Seq<char>, p: Seq<char>) -> bool {
    p.len() <= s.len() && s.take(p.len() as int) == p
}

/// Whether `s[i..]` starts with `p`.
pub fn starts_with_at(s: &[char], i: usize, p: &[char]) -> (b: bool)
    requires
        i <= s.len(),
    ensures
        b == starts_with(s@.skip(i as int), p@),
{
    if p.len() > s.len() - i {
        return false;
    }
    let mut k: usize = 0;
    while k < p.len()
        invariant
            k <= p.len(),
            p.len() <= s.len() - i,
            i <= s.len(),
            forall|j: int| 0 <= j < k ==> s@[i + j] == p@[j],
        decreases p.len() - k,
    {
        if s[i + k] != p[k] {
            assert(s@.skip(i as int).take(p.len() as int)[k as int] == s@[i + k]);
            return false;
        }
        k += 1;
    }
    assert(s@.skip(i as int).take(p.len() as int) =~= p@);
    true
}

/// What `char::is_alphanumeric` (Unicode Alphabetic or Numeric) answers for `c`.
pub uninterp spec fn char_is_alphanumeric(c: char) -> bool;

/// `char::is_alphanumeric`: whether `c` has the Unicode Alphabetic property or
/// a Numeric general category. The contract names the answer.
#[verifier::external_body]
pub(crate) fn is_alphanumeric(c: char) -> (b: bool)
    ensures
        b == char_is_alphanumeric(c),
{
    c.is_alphanumeric()
}

/// `s` without its `'\r'` characters.
pub open spec fn remove_cr(s: Seq<char>) -> Seq<char>
    decreases s.len(),
{
    if s.len() == 0 {
        s
    } else if s.last() == '\r' {
        remove_cr(s.drop_last())
    } else {
        remove_cr(s.drop_last()).push(s.last())
    }
}

/// Index of the first `'\n'` in `s`, or its length.
pub open spec fn nl_index(s: Seq<char>) -> int
    decreases s.len(),
{
    if s.len() == 0 {
        0
    } else if s[0] == '\n' {
        0
    } else {
        1 + nl_index(s.drop_first())
    }
}

/// `str::lines` of a text without `'\r'`: the pieces between `'\n'`s, with no
/// empty last piece after a final `'\n'`.
pub open spec fn lines(s: Seq<char>) -> Seq<Seq<char>>
    decreases s.len(),
{
    if s.len() == 0 {
        Seq::empty()
    } else {
        let k = nl_index(s);
        if k < s.len() {
            proof {
                lemma_nl_index(s);
            }
            seq![s.take(k)] + lines(s.skip(k + 1))
        } else {
            seq![s]
        }
    }
}

pub proof fn lemma_nl_index(s: Seq<char>)
    ensures
        0 <= nl_index(s) <= s.len(),
        nl_index(s) < s.len() ==> s[nl_index(s)] == '\n',
        forall|j: int| 0 <= j < nl_index(s) ==> s[j] != '\n',
    decreases s.len(),
{
    if s.len() > 0 && s[0] != '\n' {
        lemma_nl_index(s.drop_first());
        assert forall|j: int| 0 <= j < nl_index(s) implies s[j] != '\n' by {
            if j > 0 {
                assert(s[j] == s.drop_first()[j - 1]);
            }
        }
    }
}

pub proof fn lemma_nl_index_at(s: Seq<char>, k: int)
    requires
        0 <= k <= s.len(),
        k < s.len() ==> s[k] == '\n',
        forall|j: int| 0 <= j < k ==> s[j] != '\n',
    ensures
        nl_index(s) == k,
    decreases k,
{
    if k > 0 {
        assert(s[0] != '\n');
        assert forall|j: int| 0 <= j < k - 1 implies s.drop_first()[j] != '\n' by {
            assert(s.drop_first()[j] == s[j + 1]);
        }
        if k < s.len() {
            assert(s.drop_first()[k - 1] == s[k]);
        }
        lemma_nl_index_at(s.drop_first(), k - 1);
    }
}

/// The text without `'\r'`.
pub fn remove_cr_chars(s: &[char]) -> (v: Vec<char>)
    ensures
        v@ == remove_cr(s@),
{
    let mut v: Vec<char> = Vec::new();
    let mut i: usize = 0;
    while i < s.len()
        invariant
            i <= s.len(),
            v@ == remove_cr(s@.take(i as int)),
        decreases s.len() - i,
    {
        assert(s@.take(i + 1).drop_last() =~= s@.take(i as int));
        if s[i] != '\r' {
            v.push(s[i]);
        }
        i += 1;
    }
    assert(s@.take(s.len() as int) =~= s@);
    v
}

/// `str::lines` of a text without `'\r'`.
pub fn split_lines(s: &[char]) -> (v: Vec<Vec<char>>)
    ensures
        v@.map_values(|l: Vec<char>| l@) == lines(s@),
{
    let mut out: Vec<Vec<char>> = Vec::new();
    let mut start: usize = 0;
    let ghost whole = s@;
    assert(s@.skip(0) =~= s@);
    while start < s.len()
        invariant
            start <= s.len(),
            whole == s@,
            out@.map_values(|l: Vec<char>| l@) + lines(s@.skip(start as int)) == lines(s@),
        decreases s.len() - start,
    {
        let ghost rest = s@.skip(start as int);
        let mut k = start;
        while k < s.len() && s[k] != '\n'
            invariant
                start <= k <= s.len(),
                forall|j: int| start <= j < k ==> s@[j] != '\n',
            decreases s.len() - k,
        {
            k += 1;
        }
        proof {
            assert forall|j: int| 0 <= j < k - start implies rest[j] != '\n' by {
                assert(rest[j] == s@[start + j]);
            }
            if k < s.len() {
                assert(rest[k - start] == s@[k as int]);
            }
            lemma_nl_index_at(rest, k - start);
        }
        let piece = copy_range(s, start, k);
        let ghost before = out@.map_values(|l: Vec<char>| l@);
        out.push(piece);
        assert(out@.map_values(|l: Vec<char>| l@) =~= before.push(piece@));
        assert(piece@ =~= rest.take(k - start));
        if k < s.len() {
            assert(rest.skip(k - start + 1) =~= s@.skip(k + 1));
            assert(lines(rest) == seq![rest.take(k - start)] + lines(rest.skip(k - start + 1)));
            assert(before.push(piece@) + lines(s@.skip(k + 1)) =~= before + (seq![rest.take(k - start)] + lines(rest.skip(k - start + 1))));
            start = k + 1;
        } else {
            assert(rest.take(k - start) =~= rest);
            assert(lines(rest) == seq![rest]);
            assert(s@.skip(s.len() as int) =~= Seq::<char>::empty());
            assert(before.push(piece@) + lines(s@.skip(s.len() as int)) =~= before + lines(rest));
            start = s.len();
        }
    }
    assert(s@.skip(s.len() as int) =~= Seq::<char>::empty());
    assert(out@.map_values(|l: Vec<char>| l@) + Seq::<Seq<char>>::empty() =~= out@.map_values(|l: Vec<char>| l@));
    out
}

/// Index of the first `c` in `s` at or after `from`, or `s.len()` when none.
pub open spec fn find_from(s: Seq<char>, from: int, c: char) -> int
    decreases s.len() - from,
{
    if from >= s.len() {
        s.len() as int
    } else if s[from] == c {
        from
    } else {
        find_from(s, from + 1, c)
    }
}

pub proof fn lemma_find_from(s: Seq<char>, from: int, c: char)
    requires
        0 <= from,
    ensures
        from <= find_from(s, from, c) || from > s.len(),
        find_from(s, from, c) <= s.len() || from > s.len(),
        find_from(s, from, c) < s.len() ==> s[find_from(s, from, c)] == c,
        forall|j: int| from <= j < find_from(s, from, c) ==> s[j] != c,
    decreases s.len() - from,
{
    if from < s.len() && s[from] != c {
        lemma_find_from(s, from + 1, c);
    }
}

/// Index of the first `c` in `s[from..]`, or `s.len()`.
pub fn find_char(s: &[char], from: usize, c: char) -> (r: usize)
    requires
        from <= s.len(),
    ensures
        r == find_from(s@, from as int, c),
        from <= r <= s.len(),
{
    let mut j = from;
    proof {
        lemma_find_from(s@, from as int, c);
    }
    while j < s.len() && s[j] != c
        invariant
            from <= j <= s.len(),
            find_from(s@, j as int, c) == find_from(s@, from as int, c),
        decreases s.len() - j,
    {
        j += 1;
    }
    j
}

/// The decimal text of `n` is a non-empty run of digits whose value is `n`.
pub proof fn lemma_dec(n: nat)
    ensures
        dec(n).len() >= 1,
        all_digits(dec(n)),
        digits_value(dec(n)) == n,
    decreases n,
{
    if n < 10 {
        assert(dec(n).drop_last() =~= Seq::<char>::empty());
        assert(digit_char(n) as u32 == 48 + n);
        assert(digit_val(digit_char(n)) == n);
        assert(digits_value(dec(n)) == digits_value(dec(n).drop_last()) * 10 + digit_val(
            dec(n).last(),
        ));
    } else {
        lemma_dec(n / 10);
        let d = dec(n);
        assert(digit_char(n % 10) as u32 == 48 + n % 10);
        assert(digit_val(digit_char(n % 10)) == n % 10);
        assert(d.drop_last() =~= dec(n / 10));
        assert forall|j: int| 0 <= j < d.len() implies is_digit(#[trigger] d[j]) by {
            if j < d.len() - 1 {
                assert(d[j] == dec(n / 10)[j]);
            }
        }
    }
}

/// Decimal text of an integer, with `-` when negative.
pub open spec fn dec_int(n: int) -> Seq<char> {
    if n >= 0 {
        dec(n as nat)
    } else {
        seq!['-'] + dec((-n) as nat)
    }
}

/// Decimal text of the magnitude of `n`.
pub fn abs_dec(n: i64) -> (v: Vec<char>)
    ensures
        n >= 0 ==> v@ == dec(n as nat),
        n < 0 ==> v@ == dec((-n) as nat),
{
    let a: u128 = if n >= 0 {
        n as u128
    } else {
        (-(n as i128)) as u128
    };
    dec_chars(a)
}

/// Decimal text of `n`, with `-` when negative.
pub fn dec_int_exec(n: i64) -> (v: Vec<char>)
    ensures
        v@ == dec_int(n as int),
{
    let d = abs_dec(n);
    if n >= 0 {
        d
    } else {
        let mut v: Vec<char> = Vec::new();
        v.push('-');
        append_chars(&mut v, d.as_slice());
        assert(v@ =~= seq!['-'] + d@);
        v
    }
}

/// What `str::parse::<i32>` returns: an optional sign (`-` or `+`, when more
/// follows) and one or more ASCII digits, within range.
pub open spec fn parse_i32(s: Seq<char>) -> Option<int> {
    if s.len() > 1 && s[0] == '-' {
        let body = s.drop_first();
        if all_digits(body) && digits_value(body) <= 0x8000_0000 {
            Some(-(digits_value(body) as int))
        } else {
            None
        }
    } else {
        match parse_unsigned(s, 0x7FFF_FFFF) {
            Some(v) => Some(v as int),
            None => None,
        }
    }
}

/// `str::parse::<i32>` on characters.
pub fn parse_i32_chars(s: &[char]) -> (r: Option<i32>)
    ensures
        match r {
            Some(v) => parse_i32(s@) == Some(v as int),
            None => parse_i32(s@) is None,
        },
{
    if s.len() > 1 && s[0] == '-' {
        assert(s@.subrange(1, s.len() as int) =~= s@.drop_first());
        match digits_upto(s, 1, s.len(), 0x8000_0000) {
            Some(v) => Some((0 - (v as i64)) as i32),
            None => None,
        }
    } else {
        match parse_unsigned_chars(s, 0x7FFF_FFFF) {
            Some(v) => Some(v as i32),
            None => None,
        }
    }
}

/// Number of leading ASCII digits.
pub open spec fn lead_digits(s: Seq<char>) -> nat
    decreases s.len(),
{
    if s.len() > 0 && is_digit(s[0]) {
        1 + lead_digits(s.drop_first())
    } else {
        0
    }
}

pub proof fn lemma_lead_digits(s: Seq<char>, k: int)
    requires
        0 <= k <= s.len(),
        forall|j: int| 0 <= j < k ==> is_digit(s[j]),
        k < s.len() ==> !is_digit(s[k]),
    ensures
        lead_digits(s) == k,
    decreases k,
{
    if k > 0 {
        assert forall|j: int| 0 <= j < k - 1 implies is_digit(s.drop_first()[j]) by {
            assert(s.drop_first()[j] == s[j + 1]);
        }
        if k < s.len() {
            assert(s.drop_first()[k - 1] == s[k]);
        }
        lemma_lead_digits(s.drop_first(), k - 1);
    }
}

/// Number of ASCII digits of `s` starting at `i`.
pub fn lead_digits_from(s: &[char], i: usize) -> (n: usize)
    requires
        i <= s.len(),
    ensures
        n == lead_digits(s@.skip(i as int)),
        i + n <= s.len(),
{
    let mut k = i;
    while k < s.len() && '0' <= s[k] && s[k] <= '9'
        invariant
            i <= k <= s.len(),
            forall|j: int| i <= j < k ==> is_digit(s@[j]),
        decreases s.len() - k,
    {
        k += 1;
    }
    proof {
        let t = s@.skip(i as int);
        assert forall|j: int| 0 <= j < k - i implies is_digit(t[j]) by {
            assert(t[j] == s@[i + j]);
        }
        if k < s.len() {
            assert(t[k - i] == s@[k as int]);
        }
        lemma_lead_digits(t, k - i);
    }
    k - i
}

/// ASCII lower case of a character.
pub open spec fn ascii_lower(c: char) -> char {
    if 'A' <= c && c <= 'Z' {
        ((c as u32) + 32) as char
    } else {
        c
    }
}

/// ASCII lower case of a character.
pub fn ascii_lower_exec(c: char) -> (r: char)
    ensures
        r == ascii_lower(c),
{
    if 'A' <= c && c <= 'Z' {
        match core::char::from_u32(c as u32 + 32) {
            Some(l) => l,
            None => c,
        }
    } else {
        c
    }
}

/// `s` in ASCII lower case.
pub open spec fn lower_seq(s: Seq<char>) -> Seq<char> {
    s.map_values(|c: char| ascii_lower(c))
}

/// The exponent part of a decimal number: empty, or `e`/`E`, an optional
/// sign and one or more digits.
pub open spec fn exp_ok(t: Seq<char>) -> bool {
    t.len() == 0 || (ascii_lower(t[0]) == 'e' && {
        let u = t.drop_first();
        let v = if u.len() > 0 && (u[0] == '+' || u[0] == '-') {
            u.drop_first()
        } else {
            u
        };
        v.len() > 0 && all_digits(v)
    })
}

/// A decimal number: digits, optionally a `.` and more digits (at least one
/// digit in all), then an optional exponent.
pub open spec fn number_ok(s: Seq<char>) -> bool {
    let k1 = lead_digits(s) as int;
    let r = s.skip(k1);
    if r.len() > 0 && r[0] == '.' {
        let k2 = lead_digits(r.drop_first()) as int;
        k1 + k2 > 0 && exp_ok(r.drop_first().skip(k2))
    } else {
        k1 > 0 && exp_ok(r)
    }
}

/// The texts `str::parse::<f32>` and `str::parse::<f64>` accept: an optional
/// sign, then `inf`, `infinity` or `nan` in any ASCII case, or a decimal
/// number (the grammar in the documentation of `FromStr for f32`).
pub open spec fn float_text(s: Seq<char>) -> bool {
    let b = if s.len() > 0 && (s[0] == '+' || s[0] == '-') {
        s.drop_first()
    } else {
        s
    };
    let l = lower_seq(b);
    l == "inf"@ || l == "infinity"@ || l == "nan"@ || number_ok(b)
}

pub fn lower_is(s: &[char], lo: usize, w: &str) -> (r: bool)
    requires
        lo <= s.len(),
    ensures
        r == (lower_seq(s@.skip(lo as int)) == w@),
{
    let wc = chars_of(w);
    if s.len() - lo != wc.len() {
        proof {
            assert(lower_seq(s@.skip(lo as int)).len() != w@.len());
        }
        return false;
    }
    let mut j: usize = 0;
    while j < wc.len()
        invariant
            j <= wc.len(),
            s.len() - lo == wc.len(),
            wc@ == w@,
            forall|i: int| 0 <= i < j ==> ascii_lower(s@[lo + i]) == wc@[i],
        decreases wc.len() - j,
    {
        if ascii_lower_exec(s[lo + j]) != wc[j] {
            proof {
                assert(lower_seq(s@.skip(lo as int))[j as int] == ascii_lower(s@[lo + j]));
            }
            return false;
        }
        j += 1;
    }
    assert(lower_seq(s@.skip(lo as int)) =~= w@);
    true
}

fn all_digits_from(s: &[char], lo: usize) -> (r: bool)
    requires
        lo <= s.len(),
    ensures
        r == all_digits(s@.skip(lo as int)),
{
    let n = lead_digits_from(s, lo);
    proof {
        lemma_lead_digits_bound(s@.skip(lo as int));
    }
    n == s.len() - lo
}

pub proof fn lemma_lead_digits_bound(s: Seq<char>)
    ensures
        lead_digits(s) <= s.len(),
        forall|j: int| 0 <= j < lead_digits(s) ==> is_digit(#[trigger] s[j]),
        lead_digits(s) < s.len() ==> !is_digit(s[lead_digits(s) as int]),
        all_digits(s) <==> lead_digits(s) == s.len(),
    decreases s.len(),
{
    if s.len() > 0 && is_digit(s[0]) {
        lemma_lead_digits_bound(s.drop_first());
        assert forall|j: int| 0 <= j < lead_digits(s) implies is_digit(#[trigger] s[j]) by {
            if j > 0 {
                assert(s[j] == s.drop_first()[j - 1]);
            }
        }
        if all_digits(s) {
            assert forall|j: int| 0 <= j < s.drop_first().len() implies is_digit(
                #[trigger] s.drop_first()[j],
            ) by {
                assert(s.drop_first()[j] == s[j + 1]);
            }
        }
    }
}

fn exp_ok_from(s: &[char], lo: usize) -> (r: bool)
    requires
        lo <= s.len(),
    ensures
        r == exp_ok(s@.skip(lo as int)),
{
    let ghost t = s@.skip(lo as int);
    if lo == s.len() {
        return true;
    }
    assert(t[0] == s@[lo as int]);
    if ascii_lower_exec(s[lo]) != 'e' {
        return false;
    }
    let mut k = lo + 1;
    assert(t.drop_first() =~= s@.skip(k as int));
    if k < s.len() && (s[k] == '+' || s[k] == '-') {
        assert(s@.skip(k as int).drop_first() =~= s@.skip(k + 1));
        k += 1;
    }
    k < s.len() && all_digits_from(s, k)
}

/// Whether `str::parse::<f32>` accepts the text.
pub fn is_float_text(s: &[char]) -> (r: bool)
    ensures
        r == float_text(s@),
{
    let lo: usize = if s.len() > 0 && (s[0] == '+' || s[0] == '-') {
        1
    } else {
        0
    };
    let ghost b = s@.skip(lo as int);
    assert(b =~= (if s@.len() > 0 && (s@[0] == '+' || s@[0] == '-') {
        s@.drop_first()
    } else {
        s@
    }));
    if lower_is(s, lo, "inf") || lower_is(s, lo, "infinity") || lower_is(s, lo, "nan") {
        return true;
    }
    let k1 = lead_digits_from(s, lo);
    let p = lo + k1;
    assert(b.skip(k1 as int) =~= s@.skip(p as int));
    if p < s.len() && s[p] == '.' {
        assert(s@.skip(p as int)[0] == s@[p as int]);
        assert(s@.skip(p as int).drop_first() =~= s@.skip(p + 1));
        let k2 = lead_digits_from(s, p + 1);
        assert(s@.skip(p + 1).skip(k2 as int) =~= s@.skip(p + 1 + k2));
        k1 + k2 > 0 && exp_ok_from(s, p + 1 + k2)
    } else {
        proof {
            if p < s.len() {
                assert(s@.skip(p as int)[0] == s@[p as int]);
            }
        }
        k1 > 0 && exp_ok_from(s, p)
    }
}

} // verus!
