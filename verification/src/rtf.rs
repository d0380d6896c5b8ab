//! Viewer-grade RTF -> [`Block`]s. Handles groups, character formatting
//! (`\b \i \ul \strike \fs \cf` with `\colortbl`), paragraph breaks (`\par`),
//! Unicode (`\uN` with `\uc` skip) and `\'hh` bytes; skips
//! `\fonttbl`/`\stylesheet`/`\pict`/`\*`-groups.
//!
//! The scanner is a step function over the byte position; its contract is the
//! iteration of the matching spec step.

use vstd::prelude::*;
use crate::chars::{all_digits, digits_value};
use crate::color::{Color, radix16_pair, hex_pair};
use crate::flow::{
    Block, BlockView, Span, SpanSize, SpanSizeView, SpanView, blocks_view, empty_doc,
    empty_para_doc, plain, spans_view,
};
use crate::xml::{lossy_text, utf8_lossy};

verus! {

/// Character formatting in effect.
#[derive(Clone, Copy)]
pub struct Fmt {
    pub bold: bool,
    pub italic: bool,
    pub underline: bool,
    pub strike: bool,
    /// `\fs` in half-points; `None` is the default 15 px.
    pub size: Option<i32>,
    pub color: Option<Color>,
    /// `\uc` Unicode fallback skip count.
    pub uc: i32,
    /// Inside `\fonttbl`/`\*`-groups and the like: text is dropped.
    pub ignore: bool,
}

pub open spec fn fmt_default() -> Fmt {
    Fmt {
        bold: false,
        italic: false,
        underline: false,
        strike: false,
        size: None,
        color: None,
        uc: 1,
        ignore: false,
    }
}

impl Fmt {
    pub fn default_fmt() -> (f: Fmt)
        ensures
            f == fmt_default(),
    {
        Fmt {
            bold: false,
            italic: false,
            underline: false,
            strike: false,
            size: None,
            color: None,
            uc: 1,
            ignore: false,
        }
    }
}

/// Size a span carries: `\fs` half-points, or the default 15 px.
pub open spec fn size_view(f: Fmt) -> SpanSizeView {
    match f.size {
        Some(n) => SpanSizeView::HalfPoints(n),
        None => SpanSizeView::Pixels(15),
    }
}

pub open spec fn fmt_span(text: Seq<char>, f: Fmt) -> SpanView {
    SpanView {
        text,
        bold: f.bold,
        italic: f.italic,
        mono: false,
        strike: f.strike,
        underline: f.underline,
        color: f.color,
        size: Some(size_view(f)),
    }
}

/// State of the scan.
pub struct RtfView {
    pub i: int,
    pub stack: Seq<Fmt>,
    pub f: Fmt,
    pub blocks: Seq<BlockView>,
    pub spans: Seq<SpanView>,
    pub colortbl: Seq<Color>,
    pub in_colortbl: bool,
    pub cur: (u8, u8, u8),
    pub skip_u: i32,
    pub halt: bool,
}

/// `st` with `text` appended in the current format (nothing when ignoring or empty).
pub open spec fn push_text(st: RtfView, text: Seq<char>) -> RtfView {
    if st.f.ignore || text.len() == 0 {
        st
    } else {
        RtfView { spans: st.spans.push(fmt_span(text, st.f)), ..st }
    }
}

/// `st` with the pending spans closed into a paragraph (an empty one if none).
pub open spec fn end_para(st: RtfView) -> RtfView {
    RtfView {
        blocks: st.blocks.push(
            BlockView::Para(
                if st.spans.len() == 0 {
                    seq![plain(Seq::empty())]
                } else {
                    st.spans
                },
            ),
        ),
        spans: Seq::empty(),
        ..st
    }
}

pub open spec fn is_alpha(b: u8) -> bool {
    (0x41 <= b <= 0x5A) || (0x61 <= b <= 0x7A)
}

pub open spec fn is_dig(b: u8) -> bool {
    0x30 <= b <= 0x39
}

/// End of the run of letters starting at `i`.
pub open spec fn scan_alpha(b: Seq<u8>, i: int) -> int
    decreases b.len() - i,
{
    if 0 <= i < b.len() && is_alpha(b[i]) {
        scan_alpha(b, i + 1)
    } else {
        i
    }
}

/// End of the run of digits starting at `i`.
pub open spec fn scan_digits(b: Seq<u8>, i: int) -> int
    decreases b.len() - i,
{
    if 0 <= i < b.len() && is_dig(b[i]) {
        scan_digits(b, i + 1)
    } else {
        i
    }
}

/// End of the literal text run starting at `i`.
pub open spec fn scan_text(b: Seq<u8>, i: int) -> int
    decreases b.len() - i,
{
    if 0 <= i < b.len() && !(b[i] == 0x5C || b[i] == 0x7B || b[i] == 0x7D || b[i] == 0x0D || b[i]
        == 0x0A) {
        scan_text(b, i + 1)
    } else {
        i
    }
}

/// Bytes as characters, one for one.
pub open spec fn byte_chars(b: Seq<u8>) -> Seq<char> {
    b.map_values(|x: u8| x as char)
}

/// Characters of an ASCII text as bytes.
pub open spec fn ascii_bytes(s: Seq<char>) -> Seq<u8> {
    s.map_values(|c: char| c as u8)
}

/// Decimal value of digit bytes.
pub open spec fn byte_digits_value(b: Seq<u8>) -> nat {
    digits_value(byte_chars(b))
}

/// `str::parse::<i32>` of a text matching `-?[0-9]*`.
pub open spec fn parse_signed(b: Seq<u8>) -> Option<i32> {
    if b.len() > 0 && b[0] == 0x2D {
        let d = b.drop_first();
        if d.len() == 0 || byte_digits_value(d) > 0x8000_0000 {
            None
        } else {
            Some((0 - byte_digits_value(d)) as i32)
        }
    } else if b.len() == 0 || byte_digits_value(b) > 0x7FFF_FFFF {
        None
    } else {
        Some(byte_digits_value(b) as i32)
    }
}

/// `char::from_u32`.
pub open spec fn char_of(cp: u32) -> Option<char> {
    if cp <= 0x10FFFF && !(0xD800 <= cp <= 0xDFFF) {
        Some(cp as char)
    } else {
        None
    }
}

/// The effect of the control word `word` with parameter `num`.
pub open spec fn apply_word(st: RtfView, word: Seq<u8>, num: Option<i32>) -> RtfView {
    let f = st.f;
    if word == ascii_bytes("par"@) || word == ascii_bytes("line"@) {
        end_para(st)
    } else if word == ascii_bytes("pard"@) {
        RtfView { f: Fmt { bold: false, italic: false, underline: false, strike: false, ..f }, ..st }
    } else if word == ascii_bytes("b"@) {
        RtfView { f: Fmt { bold: num != Some(0i32), ..f }, ..st }
    } else if word == ascii_bytes("i"@) {
        RtfView { f: Fmt { italic: num != Some(0i32), ..f }, ..st }
    } else if word == ascii_bytes("ul"@) {
        RtfView { f: Fmt { underline: num != Some(0i32), ..f }, ..st }
    } else if word == ascii_bytes("ulnone"@) {
        RtfView { f: Fmt { underline: false, ..f }, ..st }
    } else if word == ascii_bytes("strike"@) {
        RtfView { f: Fmt { strike: num != Some(0i32), ..f }, ..st }
    } else if word == ascii_bytes("fs"@) {
        match num {
            Some(n) => RtfView { f: Fmt { size: Some(n), ..f }, ..st },
            None => st,
        }
    } else if word == ascii_bytes("uc"@) {
        let u: i32 = match num {
            Some(n) => n,
            None => 1,
        };
        RtfView { f: Fmt { uc: if u < 0 { 0 } else { u }, ..f }, ..st }
    } else if word == ascii_bytes("u"@) {
        match num {
            Some(n) => {
                let cp: u32 = if n < 0 { (n + 65536) as u32 } else { n as u32 };
                let st2 = match char_of(cp) {
                    Some(ch) => push_text(st, seq![ch]),
                    None => st,
                };
                RtfView { skip_u: f.uc, ..st2 }
            },
            None => st,
        }
    } else if word == ascii_bytes("cf"@) {
        match num {
            Some(n) => RtfView {
                f: Fmt {
                    color: if 0 <= n < st.colortbl.len() {
                        Some(st.colortbl[n as int])
                    } else {
                        None
                    },
                    ..f
                },
                ..st
            },
            None => st,
        }
    } else if word == ascii_bytes("colortbl"@) {
        RtfView { in_colortbl: true, cur: (0u8, 0u8, 0u8), ..st }
    } else if word == ascii_bytes("red"@) {
        RtfView { cur: (num_u8(num), st.cur.1, st.cur.2), ..st }
    } else if word == ascii_bytes("green"@) {
        RtfView { cur: (st.cur.0, num_u8(num), st.cur.2), ..st }
    } else if word == ascii_bytes("blue"@) {
        RtfView { cur: (st.cur.0, st.cur.1, num_u8(num)), ..st }
    } else if word == ascii_bytes("fonttbl"@) || word == ascii_bytes("stylesheet"@) || word
        == ascii_bytes("info"@) || word == ascii_bytes("pict"@) || word == ascii_bytes("header"@)
        || word == ascii_bytes("footer"@) || word == ascii_bytes("themedata"@) || word
        == ascii_bytes("colorschememapping"@) {
        RtfView { f: Fmt { ignore: true, ..f }, ..st }
    } else if word == ascii_bytes("plain"@) {
        RtfView { f: Fmt { uc: f.uc, ignore: f.ignore, ..fmt_default() }, ..st }
    } else if word == ascii_bytes("tab"@) {
        push_text(st, seq!['\t'])
    } else {
        st
    }
}

/// A colour component parameter (`num.unwrap_or(0) as u8`, truncating).
pub open spec fn num_u8(num: Option<i32>) -> u8 {
    match num {
        Some(n) => n as u8,
        None => 0,
    }
}

/// A control word starting at `p` (its first letter).
pub open spec fn step_word(b: Seq<u8>, st: RtfView, p: int) -> RtfView {
    let j = scan_alpha(b, p);
    let word = b.subrange(p, j);
    let has_num = j < b.len() && (b[j] == 0x2D || is_dig(b[j]));
    let e = if has_num {
        scan_digits(b, if b[j] == 0x2D { j + 1 } else { j })
    } else {
        j
    };
    let num = if has_num {
        parse_signed(b.subrange(j, e))
    } else {
        None
    };
    let k = if e < b.len() && b[e] == 0x20 {
        e + 1
    } else {
        e
    };
    apply_word(RtfView { i: k, ..st }, word, num)
}

/// A control symbol `\c` with `c` at `p`.
pub open spec fn step_symbol(b: Seq<u8>, st: RtfView, p: int) -> RtfView {
    let c = b[p];
    if c == 0x27 {
        let hh = if p + 3 <= b.len() {
            radix16_pair(b[p + 1], b[p + 2])
        } else {
            None
        };
        let st2 = RtfView { i: p + 3, ..st };
        if st.skip_u > 0 {
            RtfView { skip_u: (st.skip_u - 1) as i32, ..st2 }
        } else {
            match hh {
                Some(x) => push_text(st2, seq![x as char]),
                None => st2,
            }
        }
    } else if c == 0x2A {
        RtfView { i: p + 1, f: Fmt { ignore: true, ..st.f }, ..st }
    } else if c == 0x5C || c == 0x7B || c == 0x7D {
        push_text(RtfView { i: p + 1, ..st }, seq![c as char])
    } else if c == 0x7E {
        push_text(RtfView { i: p + 1, ..st }, seq!['\u{a0}'])
    } else if c == 0x0A || c == 0x0D {
        end_para(RtfView { i: p + 1, ..st })
    } else {
        RtfView { i: p + 1, ..st }
    }
}

/// Number of `;` bytes.
pub open spec fn count_semis(b: Seq<u8>) -> nat
    decreases b.len(),
{
    if b.len() == 0 {
        0
    } else {
        count_semis(b.drop_last()) + if b.last() == 0x3B {
            1nat
        } else {
            0nat
        }
    }
}

/// Colour-table entries committed by a run of literal text: the running triple
/// at the first `;`, black at each later one.
pub open spec fn semis_entries(cur: (u8, u8, u8), n: nat) -> Seq<Color> {
    Seq::new(
        n,
        |k: int|
            if k == 0 {
                Color { r: cur.0, g: cur.1, b: cur.2, a: 255 }
            } else {
                Color { r: 0, g: 0, b: 0, a: 255 }
            },
    )
}

/// A run of literal text starting at `p`.
pub open spec fn step_text(b: Seq<u8>, st: RtfView, p: int) -> RtfView {
    let e = scan_text(b, p);
    let run = b.subrange(p, e);
    if st.in_colortbl {
        let n = count_semis(run);
        RtfView {
            i: e,
            colortbl: st.colortbl + semis_entries(st.cur, n),
            cur: if n > 0 { (0u8, 0u8, 0u8) } else { st.cur },
            ..st
        }
    } else if st.skip_u > 0 {
        let n: int = if e - p < st.skip_u { e - p } else { st.skip_u as int };
        let rest = b.subrange(p + n, e);
        let st2 = RtfView { i: e, skip_u: (st.skip_u - n) as i32, ..st };
        if rest.len() > 0 {
            push_text(st2, utf8_lossy(rest))
        } else {
            st2
        }
    } else {
        push_text(RtfView { i: e, ..st }, utf8_lossy(run))
    }
}

/// One step of the scan at `st.i` (which is in bounds).
pub open spec fn rtf_step(b: Seq<u8>, st: RtfView) -> RtfView {
    let c = b[st.i];
    if c == 0x7B {
        RtfView { i: st.i + 1, stack: st.stack.push(st.f), ..st }
    } else if c == 0x7D {
        RtfView {
            i: st.i + 1,
            in_colortbl: false,
            f: if st.stack.len() > 0 {
                st.stack.last()
            } else {
                fmt_default()
            },
            stack: if st.stack.len() > 0 {
                st.stack.drop_last()
            } else {
                st.stack
            },
            ..st
        }
    } else if c == 0x5C {
        let p = st.i + 1;
        if p >= b.len() {
            RtfView { i: p, halt: true, ..st }
        } else if is_alpha(b[p]) {
            step_word(b, st, p)
        } else {
            step_symbol(b, st, p)
        }
    } else if c == 0x0D || c == 0x0A {
        RtfView { i: st.i + 1, ..st }
    } else {
        step_text(b, st, st.i)
    }
}

/// The scan from `st` to the end of the input (or an early stop).
pub open spec fn rtf_run(b: Seq<u8>, st: RtfView) -> RtfView
    decreases b.len() - st.i,
{
    if st.halt || st.i < 0 || st.i >= b.len() {
        st
    } else {
        let nx = rtf_step(b, st);
        if nx.i <= st.i {
            st
        } else if nx.i >= b.len() {
            nx
        } else {
            rtf_run(b, nx)
        }
    }
}

pub open spec fn rtf_start() -> RtfView {
    RtfView {
        i: 0,
        stack: Seq::empty(),
        f: fmt_default(),
        blocks: Seq::empty(),
        spans: Seq::empty(),
        colortbl: Seq::empty(),
        in_colortbl: false,
        cur: (0u8, 0u8, 0u8),
        skip_u: 0,
        halt: false,
    }
}

/// Blocks of an RTF document: the scan's paragraphs, the trailing spans as a
/// last paragraph, and one empty paragraph when nothing was produced.
pub open spec fn spec_rtf(b: Seq<u8>) -> Seq<BlockView> {
    let fin = rtf_run(b, rtf_start());
    let blocks = if fin.spans.len() > 0 {
        fin.blocks.push(BlockView::Para(fin.spans))
    } else {
        fin.blocks
    };
    if blocks.len() == 0 {
        empty_doc()
    } else {
        blocks
    }
}

struct RtfState {
    i: usize,
    stack: Vec<Fmt>,
    f: Fmt,
    blocks: Vec<Block>,
    spans: Vec<Span>,
    colortbl: Vec<Color>,
    in_colortbl: bool,
    cur: (u8, u8, u8),
    skip_u: i32,
    halt: bool,
}

impl View for RtfState {
    type V = RtfView;

    closed spec fn view(&self) -> RtfView {
        RtfView {
            i: self.i as int,
            stack: self.stack@,
            f: self.f,
            blocks: blocks_view(self.blocks@),
            spans: spans_view(self.spans@),
            colortbl: self.colortbl@,
            in_colortbl: self.in_colortbl,
            cur: self.cur,
            skip_u: self.skip_u,
            halt: self.halt,
        }
    }
}

fn push_text_exec(st: &mut RtfState, text: String)
    ensures
        final(st)@ == push_text(old(st)@, text@),
{
    if st.f.ignore || text.as_str().is_empty() {
        return;
    }
    let f = st.f;
    let sp = Span {
        text,
        bold: f.bold,
        italic: f.italic,
        mono: false,
        strike: f.strike,
        underline: f.underline,
        color: f.color,
        size: Some(
            match f.size {
                Some(n) => SpanSize::HalfPoints(n),
                None => SpanSize::Pixels(15),
            },
        ),
    };
    let ghost v = sp@;
    st.spans.push(sp);
    assert(spans_view(st.spans@) =~= spans_view(old(st).spans@).push(v));
}

fn push_char(st: &mut RtfState, c: char)
    ensures
        final(st)@ == push_text(old(st)@, seq![c]),
{
    let mut s = String::new();
    s.push(c);
    assert(s@ =~= seq![c]);
    push_text_exec(st, s);
}

fn end_para_exec(st: &mut RtfState)
    ensures
        final(st)@ == end_para(old(st)@),
{
    let mut taken = Vec::new();
    std::mem::swap(&mut taken, &mut st.spans);
    let body = if taken.len() == 0 {
        let mut v = Vec::new();
        v.push(Span::new(String::new()));
        assert(spans_view(v@) =~= seq![plain(Seq::empty())]);
        v
    } else {
        taken
    };
    let b = Block::Para(body);
    let ghost bv = b@;
    st.blocks.push(b);
    assert(blocks_view(st.blocks@) =~= blocks_view(old(st).blocks@).push(bv));
    assert(spans_view(st.spans@) =~= Seq::<SpanView>::empty());
}

fn is_alpha_exec(x: u8) -> (r: bool)
    ensures
        r == is_alpha(x),
{
    (0x41 <= x && x <= 0x5A) || (0x61 <= x && x <= 0x7A)
}

fn is_dig_exec(x: u8) -> (r: bool)
    ensures
        r == is_dig(x),
{
    0x30 <= x && x <= 0x39
}

fn scan_alpha_exec(b: &[u8], p: usize) -> (e: usize)
    requires
        p <= b.len(),
    ensures
        e == scan_alpha(b@, p as int),
        p <= e <= b.len(),
        p < b.len() && is_alpha(b@[p as int]) ==> e > p,
        forall|k: int| p <= k < e ==> is_alpha(#[trigger] b@[k]),
{
    let mut j = p;
    while j < b.len() && is_alpha_exec(b[j])
        invariant
            p <= j <= b.len(),
            scan_alpha(b@, p as int) == scan_alpha(b@, j as int),
            forall|k: int| p <= k < j ==> is_alpha(#[trigger] b@[k]),
        decreases b.len() - j,
    {
        j += 1;
    }
    j
}

fn scan_digits_exec(b: &[u8], p: usize) -> (e: usize)
    requires
        p <= b.len(),
    ensures
        e == scan_digits(b@, p as int),
        p <= e <= b.len(),
        forall|k: int| p <= k < e ==> is_dig(#[trigger] b@[k]),
{
    let mut j = p;
    while j < b.len() && is_dig_exec(b[j])
        invariant
            p <= j <= b.len(),
            scan_digits(b@, p as int) == scan_digits(b@, j as int),
            forall|k: int| p <= k < j ==> is_dig(#[trigger] b@[k]),
        decreases b.len() - j,
    {
        j += 1;
    }
    j
}

fn scan_text_exec(b: &[u8], p: usize) -> (e: usize)
    requires
        p <= b.len(),
    ensures
        e == scan_text(b@, p as int),
        p <= e <= b.len(),
        (p < b.len() && !(b@[p as int] == 0x5C || b@[p as int] == 0x7B || b@[p as int] == 0x7D
            || b@[p as int] == 0x0D || b@[p as int] == 0x0A)) ==> e > p,
{
    let mut j = p;
    while j < b.len() && !(b[j] == 0x5C || b[j] == 0x7B || b[j] == 0x7D || b[j] == 0x0D || b[j]
        == 0x0A)
        invariant
            p <= j <= b.len(),
            scan_text(b@, p as int) == scan_text(b@, j as int),
        decreases b.len() - j,
    {
        j += 1;
    }
    j
}

/// Copy of `b[lo..hi]`.
fn copy_bytes(b: &[u8], lo: usize, hi: usize) -> (v: Vec<u8>)
    requires
        lo <= hi <= b.len(),
    ensures
        v@ == b@.subrange(lo as int, hi as int),
{
    let mut v: Vec<u8> = Vec::new();
    let mut k = lo;
    while k < hi
        invariant
            lo <= k <= hi <= b.len(),
            v@ =~= b@.subrange(lo as int, k as int),
        decreases hi - k,
    {
        v.push(b[k]);
        k += 1;
    }
    v
}

/// Whether `b[lo..hi]` spells the ASCII word `w`.
fn word_is(b: &[u8], lo: usize, hi: usize, w: &str) -> (r: bool)
    requires
        lo <= hi <= b.len(),
    ensures
        r == (b@.subrange(lo as int, hi as int) == ascii_bytes(w@)),
{
    let cs = crate::chars::chars_of(w);
    assert(ascii_bytes(w@).len() == cs@.len());
    if cs.len() != hi - lo {
        return false;
    }
    let mut k: usize = 0;
    while k < cs.len()
        invariant
            k <= cs.len() == hi - lo,
            lo <= hi <= b.len(),
            cs@ == w@,
            forall|m: int| 0 <= m < k ==> b@[lo + m] == (cs@[m] as u8),
        decreases cs.len() - k,
    {
        if b[lo + k] != cs[k] as u8 {
            assert(ascii_bytes(w@)[k as int] == (cs@[k as int] as u8));
            assert(b@.subrange(lo as int, hi as int)[k as int] != ascii_bytes(w@)[k as int]);
            return false;
        }
        k += 1;
    }
    assert(b@.subrange(lo as int, hi as int) =~= ascii_bytes(w@));
    true
}

/// `str::parse::<i32>` of `b[lo..hi]`, which matches `-?[0-9]*`.
fn parse_signed_exec(b: &[u8], lo: usize, hi: usize) -> (r: Option<i32>)
    requires
        lo <= hi <= b.len(),
        forall|k: int| lo < k < hi ==> is_dig(#[trigger] b@[k]),
        lo < hi ==> (b@[lo as int] == 0x2D || is_dig(b@[lo as int])),
    ensures
        r == parse_signed(b@.subrange(lo as int, hi as int)),
{
    let ghost s = b@.subrange(lo as int, hi as int);
    let neg = lo < hi && b[lo] == 0x2D;
    let d0 = if neg {
        lo + 1
    } else {
        lo
    };
    let mut cs: Vec<char> = Vec::new();
    let mut k = d0;
    while k < hi
        invariant
            d0 <= k <= hi <= b.len(),
            cs@ =~= byte_chars(b@.subrange(d0 as int, k as int)),
        decreases hi - k,
    {
        cs.push(b[k] as char);
        k += 1;
    }
    let ghost d = b@.subrange(d0 as int, hi as int);
    assert(d == (if neg { s.drop_first() } else { s }));
    assert(crate::chars::all_digits(cs@)) by {
        assert forall|m: int| 0 <= m < cs@.len() implies crate::chars::is_digit(#[trigger] cs@[m]) by {
            assert(is_dig(b@[d0 + m]));
        }
    }
    if d0 == hi {
        return None;
    }
    if neg {
        match crate::chars::digits_upto(cs.as_slice(), 0, cs.len(), 0x8000_0000) {
            Some(v) => {
                assert(cs@.subrange(0, cs@.len() as int) =~= cs@);
                Some((0 - (v as i64)) as i32)
            },
            None => {
                assert(cs@.subrange(0, cs@.len() as int) =~= cs@);
                None
            },
        }
    } else {
        match crate::chars::digits_upto(cs.as_slice(), 0, cs.len(), 0x7FFF_FFFF) {
            Some(v) => {
                assert(cs@.subrange(0, cs@.len() as int) =~= cs@);
                Some(v as i32)
            },
            None => {
                assert(cs@.subrange(0, cs@.len() as int) =~= cs@);
                None
            },
        }
    }
}

/// `char::from_u32`: the character with that scalar value, `None` for a
/// surrogate or a value above U+10FFFF.
pub assume_specification[ core::char::from_u32 ](i: u32) -> (r: Option<char>)
    ensures
        r == char_of(i),
;

fn num_u8_exec(num: Option<i32>) -> (r: u8)
    ensures
        r == num_u8(num),
{
    match num {
        Some(n) => n as u8,
        None => 0,
    }
}

/// `\b`, `\i`, `\ul` and `\strike` are toggles: with no parameter, or with
/// a non-zero one, they turn bold, italic, underline or strike-through on;
/// with `0` they turn it off. Nothing else in the state changes.
pub proof fn law_rtf_toggles(st: RtfView, n: i32)
    requires
        n != 0,
    ensures
        apply_word(st, ascii_bytes("b"@), None) == (RtfView { f: Fmt { bold: true, ..st.f }, ..st }),
        apply_word(st, ascii_bytes("b"@), Some(n)) == (RtfView { f: Fmt { bold: true, ..st.f }, ..st }),
        apply_word(st, ascii_bytes("b"@), Some(0i32)) == (RtfView { f: Fmt { bold: false, ..st.f }, ..st }),
        apply_word(st, ascii_bytes("i"@), None) == (RtfView { f: Fmt { italic: true, ..st.f }, ..st }),
        apply_word(st, ascii_bytes("i"@), Some(n)) == (RtfView { f: Fmt { italic: true, ..st.f }, ..st }),
        apply_word(st, ascii_bytes("i"@), Some(0i32)) == (RtfView {
            f: Fmt { italic: false, ..st.f },
            ..st
        }),
        apply_word(st, ascii_bytes("ul"@), None) == (RtfView {
            f: Fmt { underline: true, ..st.f },
            ..st
        }),
        apply_word(st, ascii_bytes("ul"@), Some(n)) == (RtfView {
            f: Fmt { underline: true, ..st.f },
            ..st
        }),
        apply_word(st, ascii_bytes("ul"@), Some(0i32)) == (RtfView {
            f: Fmt { underline: false, ..st.f },
            ..st
        }),
        apply_word(st, ascii_bytes("strike"@), None) == (RtfView {
            f: Fmt { strike: true, ..st.f },
            ..st
        }),
        apply_word(st, ascii_bytes("strike"@), Some(n)) == (RtfView {
            f: Fmt { strike: true, ..st.f },
            ..st
        }),
        apply_word(st, ascii_bytes("strike"@), Some(0i32)) == (RtfView {
            f: Fmt { strike: false, ..st.f },
            ..st
        }),
{
    reveal_strlit("par");
    reveal_strlit("line");
    reveal_strlit("pard");
    reveal_strlit("b");
    reveal_strlit("i");
    reveal_strlit("ul");
    reveal_strlit("ulnone");
    reveal_strlit("strike");
    let b = ascii_bytes("b"@);
    let i = ascii_bytes("i"@);
    let ul = ascii_bytes("ul"@);
    let sk = ascii_bytes("strike"@);
    let par = ascii_bytes("par"@);
    let line = ascii_bytes("line"@);
    let pard = ascii_bytes("pard"@);
    let uln = ascii_bytes("ulnone"@);
    assert(b.len() == 1 && i.len() == 1 && ul.len() == 2 && sk.len() == 6);
    assert(par.len() == 3 && line.len() == 4 && pard.len() == 4 && uln.len() == 6);
    assert(b[0] == 98u8 && i[0] == 105u8);
    assert(sk[0] == 115u8 && uln[0] == 117u8);
    assert(b != par && b != line && b != pard);
    assert(i != par && i != line && i != pard && i != b);
    assert(ul != par && ul != line && ul != pard && ul != b && ul != i);
    assert(sk != par && sk != line && sk != pard && sk != b && sk != i && sk != ul && sk != uln);
}

/// `\pard` turns bold, italic, underline and strike-through off, `\ulnone`
/// turns underline off, and `\fs` with a parameter sets the size to it;
/// nothing else in the state changes.
pub proof fn law_rtf_resets(st: RtfView, num: Option<i32>, k: i32)
    ensures
        apply_word(st, ascii_bytes("pard"@), num) == (RtfView {
            f: Fmt { bold: false, italic: false, underline: false, strike: false, ..st.f },
            ..st
        }),
        apply_word(st, ascii_bytes("ulnone"@), num) == (RtfView {
            f: Fmt { underline: false, ..st.f },
            ..st
        }),
        apply_word(st, ascii_bytes("fs"@), Some(k)) == (RtfView { f: Fmt { size: Some(k), ..st.f }, ..st }),
        apply_word(st, ascii_bytes("fs"@), None) == st,
{
    reveal_strlit("par");
    reveal_strlit("line");
    reveal_strlit("pard");
    reveal_strlit("b");
    reveal_strlit("i");
    reveal_strlit("ul");
    reveal_strlit("ulnone");
    reveal_strlit("strike");
    reveal_strlit("fs");
    let b = ascii_bytes("b"@);
    let i = ascii_bytes("i"@);
    let ul = ascii_bytes("ul"@);
    let sk = ascii_bytes("strike"@);
    let par = ascii_bytes("par"@);
    let line = ascii_bytes("line"@);
    let pard = ascii_bytes("pard"@);
    let uln = ascii_bytes("ulnone"@);
    let fs = ascii_bytes("fs"@);
    assert(b.len() == 1 && i.len() == 1 && ul.len() == 2 && sk.len() == 6 && fs.len() == 2);
    assert(par.len() == 3 && line.len() == 4 && pard.len() == 4 && uln.len() == 6);
    assert(pard[0] == 112u8 && line[0] == 108u8);
    assert(sk[0] == 115u8 && uln[0] == 117u8 && ul[0] == 117u8 && fs[0] == 102u8);
    assert(pard != par && pard != line);
    assert(uln != par && uln != line && uln != pard && uln != b && uln != i && uln != ul);
    assert(fs != par && fs != line && fs != pard && fs != b && fs != i && fs != ul && fs != uln && fs
        != sk);
}

pub proof fn lemma_apply_word_i(st: RtfView, word: Seq<u8>, num: Option<i32>)
    ensures
        apply_word(st, word, num).i == st.i,
{
}

#[verifier::rlimit(80)]
fn apply_word_exec(st: &mut RtfState, b: &[u8], lo: usize, hi: usize, num: Option<i32>)
    requires
        lo <= hi <= b.len(),
    ensures
        final(st)@ == apply_word(old(st)@, b@.subrange(lo as int, hi as int), num),
{
    if word_is(b, lo, hi, "par") || word_is(b, lo, hi, "line") {
        end_para_exec(st);
    } else if word_is(b, lo, hi, "pard") {
        st.f.bold = false;
        st.f.italic = false;
        st.f.underline = false;
        st.f.strike = false;
    } else if word_is(b, lo, hi, "b") {
        st.f.bold = num != Some(0i32);
    } else if word_is(b, lo, hi, "i") {
        st.f.italic = num != Some(0i32);
    } else if word_is(b, lo, hi, "ul") {
        st.f.underline = num != Some(0i32);
    } else if word_is(b, lo, hi, "ulnone") {
        st.f.underline = false;
    } else if word_is(b, lo, hi, "strike") {
        st.f.strike = num != Some(0i32);
    } else if word_is(b, lo, hi, "fs") {
        match num {
            Some(n) => {
                st.f.size = Some(n);
            },
            None => {},
        }
    } else if word_is(b, lo, hi, "uc") {
        let u: i32 = match num {
            Some(n) => n,
            None => 1,
        };
        st.f.uc = if u < 0 {
            0
        } else {
            u
        };
    } else if word_is(b, lo, hi, "u") {
        match num {
            Some(n) => {
                let cp: u32 = if n < 0 {
                    (n + 65536) as u32
                } else {
                    n as u32
                };
                match core::char::from_u32(cp) {
                    Some(ch) => push_char(st, ch),
                    None => {},
                }
                st.skip_u = st.f.uc;
            },
            None => {},
        }
    } else if word_is(b, lo, hi, "cf") {
        match num {
            Some(n) => {
                st.f.color = if 0 <= n && (n as usize) < st.colortbl.len() {
                    Some(st.colortbl[n as usize])
                } else {
                    None
                };
            },
            None => {},
        }
    } else if word_is(b, lo, hi, "colortbl") {
        st.in_colortbl = true;
        st.cur = (0, 0, 0);
    } else if word_is(b, lo, hi, "red") {
        st.cur.0 = num_u8_exec(num);
    } else if word_is(b, lo, hi, "green") {
        st.cur.1 = num_u8_exec(num);
    } else if word_is(b, lo, hi, "blue") {
        st.cur.2 = num_u8_exec(num);
    } else if word_is(b, lo, hi, "fonttbl") || word_is(b, lo, hi, "stylesheet") || word_is(
        b,
        lo,
        hi,
        "info",
    ) || word_is(b, lo, hi, "pict") || word_is(b, lo, hi, "header") || word_is(b, lo, hi, "footer")
        || word_is(b, lo, hi, "themedata") || word_is(b, lo, hi, "colorschememapping") {
        st.f.ignore = true;
    } else if word_is(b, lo, hi, "plain") {
        let d = Fmt::default_fmt();
        st.f = Fmt { uc: st.f.uc, ignore: st.f.ignore, ..d };
    } else if word_is(b, lo, hi, "tab") {
        push_char(st, '\t');
    }
}

fn step_word_exec(st: &mut RtfState, b: &[u8], p: usize)
    requires
        p < b.len(),
        is_alpha(b@[p as int]),
    ensures
        final(st)@ == step_word(b@, old(st)@, p as int),
        final(st).i > p,
        final(st).i <= b.len() + 3,
{
    let j = scan_alpha_exec(b, p);
    let has_num = j < b.len() && (b[j] == 0x2D || is_dig_exec(b[j]));
    let e = if has_num {
        scan_digits_exec(
            b,
            if b[j] == 0x2D {
                j + 1
            } else {
                j
            },
        )
    } else {
        j
    };
    let num = if has_num {
        parse_signed_exec(b, j, e)
    } else {
        None
    };
    let k = if e < b.len() && b[e] == 0x20 {
        e + 1
    } else {
        e
    };
    st.i = k;
    proof {
        lemma_apply_word_i(st@, b@.subrange(p as int, j as int), num);
    }
    apply_word_exec(st, b, p, j, num);
}

fn step_symbol_exec(st: &mut RtfState, b: &[u8], p: usize)
    requires
        p < b.len(),
        p + 3 <= usize::MAX,
    ensures
        final(st)@ == step_symbol(b@, old(st)@, p as int),
        final(st).i > p,
        final(st).i <= b.len() + 3,
{
    let c = b[p];
    if c == 0x27 {
        let hh = if p + 3 <= b.len() {
            hex_pair(b[p + 1], b[p + 2])
        } else {
            None
        };
        st.i = p + 3;
        if st.skip_u > 0 {
            st.skip_u = st.skip_u - 1;
        } else {
            match hh {
                Some(x) => push_char(st, x as char),
                None => {},
            }
        }
    } else if c == 0x2A {
        st.i = p + 1;
        st.f.ignore = true;
    } else if c == 0x5C || c == 0x7B || c == 0x7D {
        st.i = p + 1;
        push_char(st, c as char);
    } else if c == 0x7E {
        st.i = p + 1;
        push_char(st, '\u{a0}');
    } else if c == 0x0A || c == 0x0D {
        st.i = p + 1;
        end_para_exec(st);
    } else {
        st.i = p + 1;
    }
}

fn step_text_exec(st: &mut RtfState, b: &[u8], p: usize)
    requires
        p < b.len(),
        !(b@[p as int] == 0x5C || b@[p as int] == 0x7B || b@[p as int] == 0x7D || b@[p as int]
            == 0x0D || b@[p as int] == 0x0A),
    ensures
        final(st)@ == step_text(b@, old(st)@, p as int),
        final(st).i > p,
        final(st).i <= b.len() + 3,
{
    let e = scan_text_exec(b, p);
    let ghost run = b@.subrange(p as int, e as int);
    if st.in_colortbl {
        let cur0 = st.cur;
        let ghost tbl0 = st.colortbl@;
        let mut tbl: Vec<Color> = Vec::new();
        std::mem::swap(&mut tbl, &mut st.colortbl);
        let mut cur = cur0;
        let mut k = p;
        assert(b@.subrange(p as int, p as int) =~= Seq::<u8>::empty());
        assert(tbl@ =~= tbl0 + semis_entries(cur0, 0));
        while k < e
            invariant
                p <= k <= e <= b.len(),
                tbl@ =~= tbl0 + semis_entries(cur0, count_semis(b@.subrange(p as int, k as int))),
                cur == (if count_semis(b@.subrange(p as int, k as int)) > 0 {
                    (0u8, 0u8, 0u8)
                } else {
                    cur0
                }),
            decreases e - k,
        {
            proof {
                assert(b@.subrange(p as int, k + 1).drop_last() =~= b@.subrange(p as int, k as int));
            }
            let ghost n0 = count_semis(b@.subrange(p as int, k as int));
            if b[k] == 0x3B {
                let (r, g, bl) = cur;
                tbl.push(Color { r, g, b: bl, a: 255 });
                cur = (0, 0, 0);
                assert(semis_entries(cur0, n0 + 1) =~= semis_entries(cur0, n0).push(
                    if n0 == 0 {
                        Color { r: cur0.0, g: cur0.1, b: cur0.2, a: 255 }
                    } else {
                        Color { r: 0, g: 0, b: 0, a: 255 }
                    },
                ));
            }
            k += 1;
        }
        st.colortbl = tbl;
        st.cur = cur;
        st.i = e;
        return;
    }
    if st.skip_u > 0 {
        let n: usize = if ((e - p) as u64) < (st.skip_u as u64) {
            e - p
        } else {
            st.skip_u as usize
        };
        st.i = e;
        st.skip_u = st.skip_u - n as i32;
        if p + n < e {
            let rest = copy_bytes(b, p + n, e);
            push_text_exec(st, lossy_text(rest.as_slice()));
        }
    } else {
        st.i = e;
        let run_v = copy_bytes(b, p, e);
        push_text_exec(st, lossy_text(run_v.as_slice()));
    }
}

/// RTF bytes to blocks.
pub fn parse(input: &[u8]) -> (r: Vec<Block>)
    requires
        input.len() <= usize::MAX - 3,
    ensures
        blocks_view(r@) == spec_rtf(input@),
{
    let b = input;
    let mut st = RtfState {
        i: 0,
        stack: Vec::new(),
        f: Fmt::default_fmt(),
        blocks: Vec::new(),
        spans: Vec::new(),
        colortbl: Vec::new(),
        in_colortbl: false,
        cur: (0, 0, 0),
        skip_u: 0,
        halt: false,
    };
    assert(blocks_view(st.blocks@) =~= Seq::<BlockView>::empty());
    assert(spans_view(st.spans@) =~= Seq::<SpanView>::empty());
    assert(st.stack@ =~= Seq::<Fmt>::empty());
    assert(st.colortbl@ =~= Seq::<Color>::empty());
    assert(st@ == rtf_start());
    while !st.halt && st.i < b.len()
        invariant
            rtf_run(b@, st@) == rtf_run(b@, rtf_start()),
            b.len() <= usize::MAX - 3,
            st.i <= b.len() + 3,
        decreases b.len() + 3 - st.i,
    {
        let ghost before = st@;
        let c = b[st.i];
        if c == 0x7B {
            let f = st.f;
            st.stack.push(f);
            st.i = st.i + 1;
        } else if c == 0x7D {
            st.in_colortbl = false;
            st.f = match st.stack.pop() {
                Some(f) => f,
                None => Fmt::default_fmt(),
            };
            st.i = st.i + 1;
        } else if c == 0x5C {
            let p = st.i + 1;
            if p >= b.len() {
                st.i = p;
                st.halt = true;
            } else if is_alpha_exec(b[p]) {
                step_word_exec(&mut st, b, p);
            } else {
                step_symbol_exec(&mut st, b, p);
            }
        } else if c == 0x0D || c == 0x0A {
            st.i = st.i + 1;
        } else {
            let p = st.i;
            step_text_exec(&mut st, b, p);
        }
        assert(st@ == rtf_step(b@, before));
        assert(st@.i > before.i);
    }
    let mut blocks = st.blocks;
    if st.spans.len() > 0 {
        let ghost bv = BlockView::Para(spans_view(st.spans@));
        blocks.push(Block::Para(st.spans));
        assert(blocks_view(blocks@) =~= blocks_view(st.blocks@).push(bv));
    }
    if blocks.len() == 0 {
        return empty_para_doc();
    }
    blocks
}

} // verus!
