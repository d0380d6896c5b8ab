//! Markdown and plain text to blocks. A viewer-grade CommonMark subset: ATX and
//! setext headings, fenced and indented code, block quotes, ordered and
//! unordered lists, thematic breaks, and inline bold, italic, code, strike and
//! links.

use vstd::prelude::*;
use crate::chars::{
    lead_digits, lemma_lead_digits, find_char, find_from, lemma_find_from, append_chars, blank, char_is_alphanumeric, chars_of, copy_range, is_alphanumeric, is_blank,
    is_digit, is_whitespace, is_ws, lead_ws, lead_ws_len, lemma_blank_trim, lemma_lead_ws_bound,
    lines, remove_cr, remove_cr_chars, split_lines, string_of, trim, trim_chars, trim_end,
    trim_end_chars, trim_start, trim_start_chars, utf8_len, utf8_total,
};
use crate::color::Color;
use crate::flow::{
    Block, BlockView, Span, SpanView, blocks_view, empty_doc, empty_para_doc, plain, spans_view,
    strings_view,
};

verus! {

// ------------------------------------------------------------------------
// Inline markup
// ------------------------------------------------------------------------

/// `[text](url)` at the start of `cs`: the text between the first character
/// and the first `]`, and the number of characters up to and including the
/// first `)` after the `](`; `None` when there is no `]`, when `(` does not
/// follow it, or when no `)` comes after that.
pub open spec fn link_of(cs: Seq<char>) -> Option<(Seq<char>, int)> {
    let close = find_from(cs, 0, ']');
    if close >= cs.len() {
        None
    } else if !(close + 1 < cs.len() && cs[close + 1] == '(') {
        None
    } else {
        let paren = find_from(cs, close + 2, ')');
        if paren >= cs.len() {
            None
        } else {
            Some((cs.subrange(1, close), paren + 1))
        }
    }
}

/// Parses `[text](url)` at the start of `chars`; the URL is dropped. A
/// `](...)` at the very start has no text to take and is left out.
pub fn parse_link(chars: &[char]) -> (r: Option<(String, usize)>)
    requires
        chars.len() > 0 && chars[0] == ']' ==> link_of(chars@) is None,
    ensures
        match (r, link_of(chars@)) {
            (Some((t, n)), Some((st, sn))) => t@ == st && n == sn,
            (None, None) => true,
            _ => false,
        },
        r matches Some((_, n)) ==> 1 <= n <= chars.len(),
{
    let close = find_char(chars, 0, ']');
    proof {
        lemma_find_from(chars@, 0, ']');
    }
    if close >= chars.len() {
        return None;
    }
    if !(close + 1 < chars.len() && chars[close + 1] == '(') {
        return None;
    }
    let paren = find_char(chars, close + 2, ')');
    if paren >= chars.len() {
        return None;
    }
    let text_v = copy_range(chars, 1, close);
    Some((string_of(text_v.as_slice()), paren + 1))
}

/// Whether position `i` sits between two alphanumeric characters.
pub open spec fn spec_between_word(cs: Seq<char>, i: int) -> bool {
    &&& 1 <= i && i - 1 < cs.len() && char_is_alphanumeric(cs[i - 1])
    &&& i + 1 < cs.len() && char_is_alphanumeric(cs[i + 1])
}

/// True when `chars[i]` sits between two alphanumerics (the `_` of
/// `snake_case`), where `_` is no emphasis delimiter.
pub fn between_word(chars: &[char], i: usize) -> (b: bool)
    ensures
        b == spec_between_word(chars@, i as int),
{
    let prev = if i >= 1 && i - 1 < chars.len() {
        is_alphanumeric(chars[i - 1])
    } else {
        false
    };
    let next = if i < chars.len() && i + 1 < chars.len() {
        is_alphanumeric(chars[i + 1])
    } else {
        false
    };
    prev && next
}

/// Colour of inline code.
pub open spec fn code_color() -> Color {
    Color { r: 0xc7, g: 0x25, b: 0x4e, a: 255 }
}

/// Colour of an image's alt text.
pub open spec fn image_color() -> Color {
    Color { r: 0x6a, g: 0x6f, b: 0x76, a: 255 }
}

/// Colour of link text.
pub open spec fn link_color() -> Color {
    Color { r: 0x1a, g: 0x5f, b: 0xb4, a: 255 }
}

/// A span with only bold and italic set.
pub open spec fn styled(text: Seq<char>, bold: bool, italic: bool) -> SpanView {
    SpanView { bold, italic, ..plain(text) }
}

/// State of the inline scan.
pub struct InlineView {
    pub i: int,
    pub buf: Seq<char>,
    pub bold: bool,
    pub italic: bool,
    pub spans: Seq<SpanView>,
}

/// Emits the pending text as a span in the current style.
pub open spec fn flush_buf(st: InlineView) -> InlineView {
    InlineView {
        buf: Seq::empty(),
        spans: if st.buf.len() == 0 {
            st.spans
        } else {
            st.spans.push(styled(st.buf, st.bold, st.italic))
        },
        ..st
    }
}

/// End of a `~~` run that starts at `j`: the first `~~` at or after `j`, or
/// the last position when none closes it.
pub open spec fn strike_end(cs: Seq<char>, j: int) -> int
    decreases cs.len() - j,
{
    if j + 1 >= cs.len() {
        j
    } else if cs[j] == '~' && cs[j + 1] == '~' {
        j
    } else {
        strike_end(cs, j + 1)
    }
}

pub proof fn lemma_strike_end(cs: Seq<char>, j: int)
    requires
        0 <= j <= cs.len(),
    ensures
        j <= strike_end(cs, j) <= cs.len(),
        strike_end(cs, j) + 1 < cs.len() ==> cs[strike_end(cs, j)] == '~' && cs[strike_end(cs, j) + 1] == '~',
    decreases cs.len() - j,
{
    if j + 1 < cs.len() && !(cs[j] == '~' && cs[j + 1] == '~') {
        lemma_strike_end(cs, j + 1);
    }
}

/// One step of the inline scan at `st.i` (in bounds).
pub open spec fn inline_step(cs: Seq<char>, st: InlineView) -> InlineView {
    let i = st.i;
    let c = cs[i];
    let has2 = i + 1 < cs.len();
    if c == '\\' {
        if has2 {
            InlineView { i: i + 2, buf: st.buf.push(cs[i + 1]), ..st }
        } else {
            InlineView { i: i + 1, buf: st.buf.push('\\'), ..st }
        }
    } else if has2 && ((c == '*' && cs[i + 1] == '*') || (c == '_' && cs[i + 1] == '_')) {
        let f = flush_buf(st);
        InlineView { i: i + 2, bold: !st.bold, ..f }
    } else if has2 && c == '~' && cs[i + 1] == '~' {
        let f = flush_buf(st);
        let e = strike_end(cs, i + 2);
        let closed = e < cs.len() && e + 1 < cs.len();
        let end = if closed {
            e
        } else {
            cs.len() as int
        };
        let sp = SpanView { strike: true, ..styled(cs.subrange(i + 2, end), st.bold, st.italic) };
        InlineView {
            i: if closed {
                e + 2
            } else {
                cs.len() as int
            },
            spans: f.spans.push(sp),
            ..f
        }
    } else if c == '*' || (c == '_' && !spec_between_word(cs, i)) {
        let f = flush_buf(st);
        InlineView { i: i + 1, italic: !st.italic, ..f }
    } else if c == '`' {
        let f = flush_buf(st);
        let e = find_from(cs, i + 1, '`');
        let sp = SpanView { mono: true, color: Some(code_color()), ..plain(cs.subrange(i + 1, e)) };
        InlineView {
            i: if e < cs.len() {
                e + 1
            } else {
                cs.len() as int
            },
            spans: f.spans.push(sp),
            ..f
        }
    } else if c == '!' && has2 && cs[i + 1] == '[' && link_of(cs.skip(i + 1)) is Some {
        let (text, n) = link_of(cs.skip(i + 1))->0;
        let f = flush_buf(st);
        let sp = SpanView { color: Some(image_color()), ..styled(text, st.bold, st.italic) };
        InlineView { i: i + 1 + n, spans: f.spans.push(sp), ..f }
    } else if c == '[' && link_of(cs.skip(i)) is Some {
        let (text, n) = link_of(cs.skip(i))->0;
        let f = flush_buf(st);
        let sp = SpanView {
            underline: true,
            color: Some(link_color()),
            ..styled(text, st.bold, st.italic)
        };
        InlineView { i: i + n, spans: f.spans.push(sp), ..f }
    } else {
        InlineView { i: i + 1, buf: st.buf.push(c), ..st }
    }
}

/// The inline scan from `st` to the end of `cs`.
pub open spec fn inline_run(cs: Seq<char>, st: InlineView) -> InlineView
    decreases cs.len() - st.i,
{
    if st.i < 0 || st.i >= cs.len() {
        st
    } else {
        let nx = inline_step(cs, st);
        if nx.i <= st.i {
            st
        } else {
            inline_run(cs, nx)
        }
    }
}

/// Spans of inline markup: the scan's spans with the pending text, or one
/// empty plain span when there are none.
pub open spec fn spec_inline(cs: Seq<char>) -> Seq<SpanView> {
    let fin = flush_buf(
        inline_run(
            cs,
            InlineView { i: 0, buf: Seq::empty(), bold: false, italic: false, spans: Seq::empty() },
        ),
    );
    if fin.spans.len() == 0 {
        seq![plain(Seq::empty())]
    } else {
        fin.spans
    }
}

struct InlineState {
    i: usize,
    buf: Vec<char>,
    bold: bool,
    italic: bool,
    spans: Vec<Span>,
}

impl View for InlineState {
    type V = InlineView;

    closed spec fn view(&self) -> InlineView {
        InlineView {
            i: self.i as int,
            buf: self.buf@,
            bold: self.bold,
            italic: self.italic,
            spans: spans_view(self.spans@),
        }
    }
}

fn flush_buf_exec(st: &mut InlineState)
    ensures
        final(st)@ == flush_buf(old(st)@),
{
    if st.buf.len() > 0 {
        let text = string_of(st.buf.as_slice());
        let sp = Span {
            text,
            bold: st.bold,
            italic: st.italic,
            mono: false,
            strike: false,
            underline: false,
            color: None,
            size: None,
        };
        let ghost v = sp@;
        st.spans.push(sp);
        assert(spans_view(st.spans@) =~= spans_view(old(st).spans@).push(v));
    }
    st.buf = Vec::new();
    assert(st.buf@ =~= Seq::<char>::empty());
}

fn push_span(st: &mut InlineState, sp: Span)
    ensures
        final(st)@ == (InlineView { spans: old(st)@.spans.push(sp@), ..old(st)@ }),
{
    let ghost v = sp@;
    st.spans.push(sp);
    assert(spans_view(st.spans@) =~= spans_view(old(st).spans@).push(v));
}

fn strike_end_exec(cs: &[char], j: usize) -> (e: usize)
    requires
        j <= cs.len(),
    ensures
        e == strike_end(cs@, j as int),
        j <= e <= cs.len(),
{
    proof {
        lemma_strike_end(cs@, j as int);
    }
    let mut k = j;
    while k < cs.len() && k + 1 < cs.len() && !(cs[k] == '~' && cs[k + 1] == '~')
        invariant
            j <= k <= cs.len(),
            strike_end(cs@, k as int) == strike_end(cs@, j as int),
        decreases cs.len() - k,
    {
        k += 1;
    }
    k
}

/// Inline parser: `**bold**`, `*italic*` / `_italic_`, `` `code` ``,
/// `~~strike~~`, `[text](url)` and `![alt](url)`, with backslash escapes.
pub fn parse_inline(cs: &[char]) -> (r: Vec<Span>)
    ensures
        spans_view(r@) == spec_inline(cs@),
        r.len() >= 1,
{
    let mut st = InlineState {
        i: 0,
        buf: Vec::new(),
        bold: false,
        italic: false,
        spans: Vec::new(),
    };
    let ghost st0 = InlineView {
        i: 0,
        buf: Seq::empty(),
        bold: false,
        italic: false,
        spans: Seq::empty(),
    };
    assert(st.buf@ =~= Seq::<char>::empty());
    assert(spans_view(st.spans@) =~= Seq::<SpanView>::empty());
    assert(st@ == st0);
    while st.i < cs.len()
        invariant
            inline_run(cs@, st@) == inline_run(cs@, st0),
            st.i <= cs.len(),
        decreases cs.len() - st.i,
    {
        let ghost before = st@;
        let i = st.i;
        let c = cs[i];
        let has2 = i + 1 < cs.len();
        if c == '\\' {
            if has2 {
                st.buf.push(cs[i + 1]);
                st.i = i + 2;
            } else {
                st.buf.push('\\');
                st.i = i + 1;
            }
        } else if has2 && ((c == '*' && cs[i + 1] == '*') || (c == '_' && cs[i + 1] == '_')) {
            flush_buf_exec(&mut st);
            st.bold = !st.bold;
            st.i = i + 2;
        } else if has2 && c == '~' && cs[i + 1] == '~' {
            flush_buf_exec(&mut st);
            let e = strike_end_exec(cs, i + 2);
            let closed = e < cs.len() && e + 1 < cs.len();
            let end = if closed {
                e
            } else {
                cs.len()
            };
            let tv = copy_range(cs, i + 2, end);
            let sp = Span {
                text: string_of(tv.as_slice()),
                bold: st.bold,
                italic: st.italic,
                mono: false,
                strike: true,
                underline: false,
                color: None,
                size: None,
            };
            push_span(&mut st, sp);
            st.i = if closed {
                e + 2
            } else {
                cs.len()
            };
        } else if c == '*' || (c == '_' && !between_word(cs, i)) {
            flush_buf_exec(&mut st);
            st.italic = !st.italic;
            st.i = i + 1;
        } else if c == '`' {
            flush_buf_exec(&mut st);
            let e = find_char(cs, i + 1, '`');
            let tv = copy_range(cs, i + 1, e);
            let sp = Span {
                text: string_of(tv.as_slice()),
                bold: false,
                italic: false,
                mono: true,
                strike: false,
                underline: false,
                color: Some(Color::rgba(0xc7, 0x25, 0x4e, 255)),
                size: None,
            };
            push_span(&mut st, sp);
            st.i = if e < cs.len() {
                e + 1
            } else {
                cs.len()
            };
        } else {
            let link = if c == '!' && has2 && cs[i + 1] == '[' {
                let rest = copy_range(cs, i + 1, cs.len());
                assert(rest@ =~= cs@.skip(i + 1));
                parse_link(rest.as_slice())
            } else if c == '[' {
                let rest = copy_range(cs, i, cs.len());
                assert(rest@ =~= cs@.skip(i as int));
                parse_link(rest.as_slice())
            } else {
                None
            };
            match link {
                Some((text, n)) => {
                    flush_buf_exec(&mut st);
                    if c == '!' {
                        let sp = Span {
                            text,
                            bold: st.bold,
                            italic: st.italic,
                            mono: false,
                            strike: false,
                            underline: false,
                            color: Some(Color::rgba(0x6a, 0x6f, 0x76, 255)),
                            size: None,
                        };
                        push_span(&mut st, sp);
                        st.i = i + 1 + n;
                    } else {
                        let sp = Span {
                            text,
                            bold: st.bold,
                            italic: st.italic,
                            mono: false,
                            strike: false,
                            underline: true,
                            color: Some(Color::rgba(0x1a, 0x5f, 0xb4, 255)),
                            size: None,
                        };
                        push_span(&mut st, sp);
                        st.i = i + n;
                    }
                },
                None => {
                    st.buf.push(c);
                    st.i = i + 1;
                },
            }
        }
        assert(st@ == inline_step(cs@, before));
    }
    flush_buf_exec(&mut st);
    if st.spans.len() == 0 {
        let mut v: Vec<Span> = Vec::new();
        v.push(Span::new(String::new()));
        assert(spans_view(v@) =~= seq![plain(Seq::empty())]);
        return v;
    }
    st.spans
}

// ------------------------------------------------------------------------
// Line classification
// ------------------------------------------------------------------------

/// The characters of `s` that are not white space.
pub open spec fn non_ws(s: Seq<char>) -> Seq<char>
    decreases s.len(),
{
    if s.len() == 0 {
        s
    } else if is_ws(s.last()) {
        non_ws(s.drop_last())
    } else {
        non_ws(s.drop_last()).push(s.last())
    }
}

/// Whether every character of `s` is `c`.
pub open spec fn all_are(s: Seq<char>, c: char) -> bool {
    forall|j: int| 0 <= j < s.len() ==> s[j] == c
}

fn non_ws_chars(t: &[char]) -> (v: Vec<char>)
    ensures
        v@ == non_ws(t@),
{
    let mut v: Vec<char> = Vec::new();
    let mut k: usize = 0;
    while k < t.len()
        invariant
            k <= t.len(),
            v@ == non_ws(t@.take(k as int)),
        decreases t.len() - k,
    {
        assert(t@.take(k + 1).drop_last() =~= t@.take(k as int));
        if !is_whitespace(t[k]) {
            v.push(t[k]);
        }
        k += 1;
    }
    assert(t@.take(t.len() as int) =~= t@);
    v
}

fn all_are_exec(s: &[char], c: char) -> (b: bool)
    ensures
        b == all_are(s@, c),
{
    let mut k: usize = 0;
    while k < s.len()
        invariant
            k <= s.len(),
            forall|j: int| 0 <= j < k ==> s@[j] == c,
        decreases s.len() - k,
    {
        if s[k] != c {
            return false;
        }
        k += 1;
    }
    true
}

/// A thematic break: three or more of one of `-`, `*`, `_`, white space aside.
pub open spec fn spec_is_rule(t: Seq<char>) -> bool {
    let u = non_ws(t);
    u.len() >= 3 && (all_are(u, '-') || all_are(u, '*') || all_are(u, '_'))
}

/// Whether the line is a thematic break.
pub fn is_rule(t: &[char]) -> (b: bool)
    ensures
        b == spec_is_rule(t@),
{
    let u = non_ws_chars(t);
    u.len() >= 3 && (all_are_exec(u.as_slice(), '-') || all_are_exec(u.as_slice(), '*')
        || all_are_exec(u.as_slice(), '_'))
}

/// Setext underline of a paragraph: its heading level (`=` gives 1, `-` gives 2).
pub open spec fn setext_level(t: Seq<char>) -> Option<u8> {
    let u = non_ws(t);
    if u.len() > 0 && (all_are(u, '=') || all_are(u, '-')) {
        Some(
            if u[0] == '=' {
                1u8
            } else {
                2u8
            },
        )
    } else {
        None
    }
}

fn setext_exec(t: &[char]) -> (r: Option<u8>)
    ensures
        r == setext_level(t@),
{
    let u = non_ws_chars(t);
    if u.len() > 0 && (all_are_exec(u.as_slice(), '=') || all_are_exec(u.as_slice(), '-')) {
        Some(
            if u[0] == '=' {
                1u8
            } else {
                2u8
            },
        )
    } else {
        None
    }
}

/// Number of leading `c` in `s`.
pub open spec fn lead_count(s: Seq<char>, c: char) -> nat
    decreases s.len(),
{
    if s.len() > 0 && s[0] == c {
        1 + lead_count(s.drop_first(), c)
    } else {
        0
    }
}

pub proof fn lemma_lead_count(s: Seq<char>, c: char, k: int)
    requires
        0 <= k <= s.len(),
        forall|j: int| 0 <= j < k ==> s[j] == c,
        k < s.len() ==> s[k] != c,
    ensures
        lead_count(s, c) == k,
    decreases k,
{
    if k > 0 {
        assert forall|j: int| 0 <= j < k - 1 implies s.drop_first()[j] == c by {
            assert(s.drop_first()[j] == s[j + 1]);
        }
        if k < s.len() {
            assert(s.drop_first()[k - 1] == s[k]);
        }
        lemma_lead_count(s.drop_first(), c, k - 1);
    }
}

fn lead_count_exec(s: &[char], c: char) -> (n: usize)
    ensures
        n == lead_count(s@, c),
        n <= s.len(),
{
    let mut k: usize = 0;
    while k < s.len() && s[k] == c
        invariant
            k <= s.len(),
            forall|j: int| 0 <= j < k ==> s@[j] == c,
        decreases s.len() - k,
    {
        k += 1;
    }
    proof {
        lemma_lead_count(s@, c, k as int);
    }
    k
}

/// `s` without its trailing `c` characters.
pub open spec fn strip_trailing(s: Seq<char>, c: char) -> Seq<char>
    decreases s.len(),
{
    if s.len() > 0 && s.last() == c {
        strip_trailing(s.drop_last(), c)
    } else {
        s
    }
}

fn strip_trailing_exec(s: &[char], c: char) -> (v: Vec<char>)
    ensures
        v@ == strip_trailing(s@, c),
{
    let mut n = s.len();
    assert(s@.take(s.len() as int) =~= s@);
    while n > 0 && s[n - 1] == c
        invariant
            n <= s.len(),
            strip_trailing(s@.take(n as int), c) == strip_trailing(s@, c),
        decreases n,
    {
        assert(s@.take(n as int).drop_last() =~= s@.take(n - 1));
        n -= 1;
    }
    assert(s@.take(s.len() as int) =~= s@);
    let v = copy_range(s, 0, n);
    assert(v@ =~= s@.take(n as int));
    v
}

/// ATX heading `### text ###`: level 1 to 6 and the text.
pub open spec fn spec_atx(t: Seq<char>) -> Option<(u8, Seq<char>)> {
    let h = lead_count(t, '#');
    if 1 <= h <= 6 && h < t.len() && t[h as int] == ' ' {
        Some((h as u8, trim_end(strip_trailing(trim_start(t.skip(h as int)), '#'))))
    } else {
        None
    }
}

/// `k` copies of `c`.
pub open spec fn repeat_char(c: char, k: nat) -> Seq<char> {
    Seq::new(k, |_j: int| c)
}

proof fn lemma_non_ws_repeat(c: char, k: nat)
    requires
        !is_ws(c),
    ensures
        non_ws(repeat_char(c, k)) == repeat_char(c, k),
    decreases k,
{
    if k > 0 {
        lemma_non_ws_repeat(c, (k - 1) as nat);
        assert(repeat_char(c, k).drop_last() =~= repeat_char(c, (k - 1) as nat));
        assert(repeat_char(c, (k - 1) as nat).push(c) =~= repeat_char(c, k));
    }
}

/// Block markers: three or more `-`, `*` or `_` make a thematic break and
/// fewer do not; a run of `=` underlines a level-1 heading and a run of `-`
/// a level-2 one; `-`, `*` or `+` and a space start a bullet item whose
/// content is the rest of the line.
pub proof fn law_markdown_markers(c: char, k: nat, rest: Seq<char>)
    ensures
        (c == '-' || c == '*' || c == '_') && k >= 3 ==> spec_is_rule(repeat_char(c, k)),
        (c == '-' || c == '*' || c == '_') && k < 3 ==> !spec_is_rule(repeat_char(c, k)),
        k >= 1 ==> setext_level(repeat_char('=', k)) == Some(1u8),
        k >= 1 ==> setext_level(repeat_char('-', k)) == Some(2u8),
        (c == '-' || c == '*' || c == '+') && (rest.len() == 0 || !is_ws(rest[0])) ==> spec_list_item(
            seq![c, ' '] + rest,
        ) == Some((seq!['\u{2022}'], 0u8, rest)),
{
    assert(!is_ws('-') && !is_ws('*') && !is_ws('_') && !is_ws('=') && !is_ws('+')) by {
        assert(('-' as u32) == 45 && ('*' as u32) == 42 && ('_' as u32) == 95 && ('=' as u32) == 61
            && ('+' as u32) == 43);
    }
    if c == '-' || c == '*' || c == '_' {
        lemma_non_ws_repeat(c, k);
    }
    if k >= 1 {
        lemma_non_ws_repeat('=', k);
        lemma_non_ws_repeat('-', k);
        assert(repeat_char('=', k)[0] == '=');
        assert(repeat_char('-', k)[0] == '-');
    }
    if (c == '-' || c == '*' || c == '+') && (rest.len() == 0 || !is_ws(rest[0])) {
        let line = seq![c, ' '] + rest;
        assert(is_ws(' ')) by {
            assert((' ' as u32) == 0x20);
        }
        assert(lead_ws(line) == 0);
        assert(trim_start(line) =~= line);
        assert(line.take(0) =~= Seq::<char>::empty());
        assert(utf8_total(Seq::<char>::empty()) == 0);
        let s = line.skip(1);
        assert(s =~= seq![' '] + rest);
        assert(s.drop_first() =~= rest);
        assert(lead_ws(rest) == 0);
        assert(lead_ws(s) == 1);
        assert(trim_start(s) =~= rest);
    }
}

/// `h` `#` characters, a space, then `rest`.
pub open spec fn hashes_line(h: nat, rest: Seq<char>) -> Seq<char> {
    Seq::new(h, |_j: int| '#').push(' ') + rest
}

/// A line of one to six `#`, a space and text is a heading of that many
/// levels; seven or more `#` make no heading. When the text neither starts
/// nor ends with white space and does not end with `#`, it is the heading's
/// text as it stands.
pub proof fn law_atx_heading_level(h: nat, rest: Seq<char>)
    ensures
        1 <= h <= 6 ==> (spec_atx(hashes_line(h, rest)) matches Some((l, _)) && l == h),
        h > 6 ==> spec_atx(hashes_line(h, rest)) is None,
        1 <= h <= 6 && rest.len() > 0 && !is_ws(rest[0]) && !is_ws(rest.last()) && rest.last()
            != '#' ==> spec_atx(hashes_line(h, rest)) == Some((h as u8, rest)),
{
    let line = hashes_line(h, rest);
    assert forall|j: int| 0 <= j < h implies line[j] == '#' by {}
    assert(line[h as int] == ' ');
    lemma_lead_count(line, '#', h as int);
    assert(line.skip(h as int) =~= seq![' '] + rest);
    if rest.len() > 0 && !is_ws(rest[0]) && !is_ws(rest.last()) && rest.last() != '#' {
        let s = seq![' '] + rest;
        assert(is_ws(' ')) by {
            assert((' ' as u32) == 0x20);
        }
        assert(s.drop_first() =~= rest);
        assert(lead_ws(rest) == 0);
        assert(lead_ws(s) == 1);
        assert(trim_start(s) =~= rest);
        assert(strip_trailing(rest, '#') == rest);
        assert(crate::chars::trail_ws(rest) == 0);
        assert(trim_end(rest) =~= rest);
    }
}

/// ATX heading: `#` to `######`, a space, the text, optional closing `#`s.
pub fn atx_heading(t: &[char]) -> (r: Option<(u8, Vec<char>)>)
    ensures
        match (r, spec_atx(t@)) {
            (Some((l, v)), Some((sl, sv))) => l == sl && v@ == sv,
            (None, None) => true,
            _ => false,
        },
{
    let h = lead_count_exec(t, '#');
    if 1 <= h && h <= 6 && h < t.len() && t[h] == ' ' {
        let rest = copy_range(t, h, t.len());
        assert(rest@ =~= t@.skip(h as int));
        let a = trim_start_chars(rest.as_slice());
        let b = strip_trailing_exec(a.as_slice(), '#');
        let c = trim_end_chars(b.as_slice());
        Some((h as u8, c))
    } else {
        None
    }
}

/// Indent level of a list line: half the UTF-8 length of its leading white
/// space, at most 5.
pub open spec fn indent_level(line: Seq<char>) -> u8 {
    let bytes = utf8_total(line.take(lead_ws(line) as int));
    if bytes >= 10 {
        5u8
    } else {
        (bytes / 2) as u8
    }
}

fn utf8_len_exec(c: char) -> (n: u64)
    ensures
        n == utf8_len(c),
{
    let u = c as u32;
    if u < 0x80 {
        1
    } else if u < 0x800 {
        2
    } else if u < 0x10000 {
        3
    } else {
        4
    }
}

fn indent_level_exec(line: &[char]) -> (l: u8)
    ensures
        l == indent_level(line@),
{
    let n = lead_ws_len(line);
    proof {
        lemma_lead_ws_bound(line@);
    }
    let mut total: u64 = 0;
    let mut k: usize = 0;
    while k < n
        invariant
            k <= n <= line.len(),
            total == (if utf8_total(line@.take(k as int)) >= 10 {
                10
            } else {
                utf8_total(line@.take(k as int))
            }),
        decreases n - k,
    {
        assert(line@.take(k + 1).drop_last() =~= line@.take(k as int));
        let b = utf8_len_exec(line[k]);
        total = if total + b >= 10 {
            10
        } else {
            total + b
        };
        k += 1;
    }
    if total >= 10 {
        5
    } else {
        (total / 2) as u8
    }
}

/// A list line: its marker (`•` for `-`, `*`, `+`; `N.` for `N.` or `N)`),
/// indent level and content.
pub open spec fn spec_list_item(line: Seq<char>) -> Option<(Seq<char>, u8, Seq<char>)> {
    let t = trim_start(line);
    let d = lead_digits(t) as int;
    if t.len() >= 2 && (t[0] == '-' || t[0] == '*' || t[0] == '+') && t[1] == ' ' {
        Some((seq!['\u{2022}'], indent_level(line), trim_start(t.skip(1))))
    } else if d > 0 && d + 1 < t.len() && (t[d] == '.' || t[d] == ')') && t[d + 1] == ' ' {
        Some((t.take(d).push('.'), indent_level(line), trim_start(t.skip(d + 1))))
    } else {
        None
    }
}

/// A list item line: marker, indent level and content.
pub fn list_item(line: &[char]) -> (r: Option<(String, u8, Vec<char>)>)
    ensures
        match (r, spec_list_item(line@)) {
            (Some((m, l, c)), Some((sm, sl, sc))) => m@ == sm && l == sl && c@ == sc,
            (None, None) => true,
            _ => false,
        },
{
    let level = indent_level_exec(line);
    let t = trim_start_chars(line);
    if t.len() >= 2 && (t[0] == '-' || t[0] == '*' || t[0] == '+') && t[1] == ' ' {
        let rest = copy_range(t.as_slice(), 1, t.len());
        assert(rest@ =~= t@.skip(1));
        let mut m = String::new();
        m.push('\u{2022}');
        assert(m@ =~= seq!['\u{2022}']);
        return Some((m, level, trim_start_chars(rest.as_slice())));
    }
    let mut d: usize = 0;
    while d < t.len() && '0' <= t[d] && t[d] <= '9'
        invariant
            d <= t.len(),
            forall|j: int| 0 <= j < d ==> is_digit(t@[j]),
        decreases t.len() - d,
    {
        d += 1;
    }
    proof {
        lemma_lead_digits(t@, d as int);
    }
    if d > 0 && d < t.len() && d + 1 < t.len() && (t[d] == '.' || t[d] == ')') && t[d + 1] == ' ' {
        let mut mv = copy_range(t.as_slice(), 0, d);
        mv.push('.');
        assert(mv@ =~= t@.take(d as int).push('.'));
        let rest = copy_range(t.as_slice(), d + 1, t.len());
        assert(rest@ =~= t@.skip(d + 1));
        return Some((string_of(mv.as_slice()), level, trim_start_chars(rest.as_slice())));
    }
    None
}

// ------------------------------------------------------------------------
// Blocks
// ------------------------------------------------------------------------

/// Lines of a document: its text without `'\r'`, split at `'\n'`.
pub open spec fn doc_lines(input: Seq<char>) -> Seq<Seq<char>> {
    lines(remove_cr(input))
}

/// Spec values of a list of character vectors.
pub open spec fn lines_view(v: Seq<Vec<char>>) -> Seq<Seq<char>> {
    v.map_values(|l: Vec<char>| l@)
}

/// The pieces joined with single spaces.
pub open spec fn join_space(ps: Seq<Seq<char>>) -> Seq<char>
    decreases ps.len(),
{
    if ps.len() == 0 {
        Seq::empty()
    } else if ps.len() == 1 {
        ps[0]
    } else {
        join_space(ps.drop_last()).push(' ') + ps.last()
    }
}

/// Whether `s` starts with three `c`.
pub open spec fn starts3(s: Seq<char>, c: char) -> bool {
    s.len() >= 3 && s[0] == c && s[1] == c && s[2] == c
}

/// The fence character of a code fence line (```` ``` ```` or `~~~`).
pub open spec fn fence_char(t: Seq<char>) -> Option<char> {
    if starts3(t, '`') {
        Some('`')
    } else if starts3(t, '~') {
        Some('~')
    } else {
        None
    }
}

/// Index of the closing fence at or after `j`, or the number of lines.
pub open spec fn fence_end(ls: Seq<Seq<char>>, j: int, c: char) -> int
    decreases ls.len() - j,
{
    if j >= ls.len() {
        j
    } else if starts3(trim_start(ls[j]), c) {
        j
    } else {
        fence_end(ls, j + 1, c)
    }
}

/// A line indented by four spaces or a tab.
pub open spec fn indented(l: Seq<char>) -> bool {
    (l.len() >= 4 && l[0] == ' ' && l[1] == ' ' && l[2] == ' ' && l[3] == ' ') || (l.len() > 0
        && l[0] == '\t')
}

/// A line without its code indentation.
pub open spec fn strip_indent(l: Seq<char>) -> Seq<char> {
    if l.len() >= 4 && l[0] == ' ' && l[1] == ' ' && l[2] == ' ' && l[3] == ' ' {
        l.skip(4)
    } else if l.len() > 0 && l[0] == '\t' {
        l.skip(1)
    } else {
        l
    }
}

/// Indented code from line `j`: the code lines (added to `code`) and the
/// index of the first line after the block. A blank line belongs to the
/// block only when an indented line follows it.
pub open spec fn icode_run(ls: Seq<Seq<char>>, j: int, code: Seq<Seq<char>>) -> (Seq<Seq<char>>, int)
    decreases ls.len() - j,
{
    if j >= ls.len() {
        (code, j)
    } else if !(indented(ls[j]) || blank(ls[j])) {
        (code, j)
    } else if blank(ls[j]) && (j + 1 >= ls.len() || !indented(ls[j + 1])) {
        (code, j)
    } else {
        icode_run(ls, j + 1, code.push(strip_indent(ls[j])))
    }
}

/// A block quote continued from line `j` with text `q`: the whole quote text
/// and the index of the first line after it (a blank line ends it).
pub open spec fn quote_run(ls: Seq<Seq<char>>, j: int, q: Seq<char>) -> (Seq<char>, int)
    decreases ls.len() - j,
{
    if j >= ls.len() {
        (q, j)
    } else {
        let lt = trim_start(ls[j]);
        if lt.len() > 0 && lt[0] == '>' {
            quote_run(ls, j + 1, q.push(' ') + trim_start(lt.skip(1)))
        } else if lt.len() == 0 {
            (q, j)
        } else {
            quote_run(ls, j + 1, q.push(' ') + lt)
        }
    }
}

/// State of the block scan: the next line, the pending paragraph lines and
/// the blocks so far.
pub struct MdView {
    pub i: int,
    pub para: Seq<Seq<char>>,
    pub blocks: Seq<BlockView>,
}

/// Spans of a paragraph: its lines joined with spaces, trimmed, parsed inline.
pub open spec fn para_spans(para: Seq<Seq<char>>) -> Seq<SpanView> {
    spec_inline(trim(join_space(para)))
}

/// Ends the pending paragraph, if any.
pub open spec fn flush_para(st: MdView) -> MdView {
    if st.para.len() == 0 {
        st
    } else {
        MdView {
            para: Seq::empty(),
            blocks: st.blocks.push(BlockView::Para(para_spans(st.para))),
            ..st
        }
    }
}

/// One step of the block scan at line `st.i` (in bounds).
#[verifier::opaque]
pub open spec fn md_step(ls: Seq<Seq<char>>, st: MdView) -> MdView {
    let line = ls[st.i];
    let t = trim_start(line);
    if fence_char(t) is Some {
        let f = flush_para(st);
        let k = fence_end(ls, st.i + 1, fence_char(t)->0);
        MdView {
            i: if k < ls.len() {
                k + 1
            } else {
                ls.len() as int
            },
            blocks: f.blocks.push(BlockView::Code(ls.subrange(st.i + 1, k))),
            ..f
        }
    } else if t.len() == 0 {
        MdView { i: st.i + 1, ..flush_para(st) }
    } else if st.para.len() > 0 && setext_level(t) is Some {
        MdView {
            i: st.i + 1,
            para: Seq::empty(),
            blocks: st.blocks.push(BlockView::Heading(setext_level(t)->0, para_spans(st.para))),
        }
    } else if st.para.len() == 0 && indented(line) {
        let r = icode_run(ls, st.i, Seq::empty());
        MdView { i: r.1, blocks: st.blocks.push(BlockView::Code(r.0)), ..st }
    } else if spec_is_rule(t) {
        let f = flush_para(st);
        MdView { i: st.i + 1, blocks: f.blocks.push(BlockView::Rule), ..f }
    } else if spec_atx(t) is Some {
        let f = flush_para(st);
        let h = spec_atx(t)->0;
        MdView { i: st.i + 1, blocks: f.blocks.push(BlockView::Heading(h.0, spec_inline(h.1))), ..f }
    } else if t[0] == '>' {
        let f = flush_para(st);
        let r = quote_run(ls, st.i + 1, trim_start(t.skip(1)));
        MdView { i: r.1, blocks: f.blocks.push(BlockView::Quote(spec_inline(trim(r.0)))), ..f }
    } else if spec_list_item(line) is Some {
        let f = flush_para(st);
        let li = spec_list_item(line)->0;
        MdView {
            i: st.i + 1,
            blocks: f.blocks.push(
                BlockView::ListItem { level: li.1, marker: li.0, spans: spec_inline(li.2) },
            ),
            ..f
        }
    } else {
        MdView { i: st.i + 1, para: st.para.push(trim_end(line)), ..st }
    }
}

/// The block scan from `st` to the last line.
pub open spec fn md_run(ls: Seq<Seq<char>>, st: MdView) -> MdView
    decreases ls.len() - st.i,
{
    if st.i < 0 || st.i >= ls.len() {
        st
    } else {
        let nx = md_step(ls, st);
        if nx.i <= st.i || nx.i > ls.len() {
            st
        } else {
            md_run(ls, nx)
        }
    }
}

/// Blocks of a Markdown document: the scan's blocks with the pending
/// paragraph, or one empty paragraph when there are none.
pub open spec fn spec_markdown(input: Seq<char>) -> Seq<BlockView> {
    let fin = flush_para(
        md_run(
            doc_lines(input),
            MdView { i: 0, para: Seq::empty(), blocks: Seq::empty() },
        ),
    );
    if fin.blocks.len() == 0 {
        empty_doc()
    } else {
        fin.blocks
    }
}

struct MdState {
    i: usize,
    para: Vec<Vec<char>>,
    blocks: Vec<Block>,
}

impl View for MdState {
    type V = MdView;

    closed spec fn view(&self) -> MdView {
        MdView { i: self.i as int, para: lines_view(self.para@), blocks: blocks_view(self.blocks@) }
    }
}

fn join_space_exec(ps: &Vec<Vec<char>>) -> (v: Vec<char>)
    ensures
        v@ == join_space(lines_view(ps@)),
{
    let mut v: Vec<char> = Vec::new();
    let mut k: usize = 0;
    while k < ps.len()
        invariant
            k <= ps.len(),
            v@ == join_space(lines_view(ps@).take(k as int)),
        decreases ps.len() - k,
    {
        let ghost pv = lines_view(ps@);
        assert(pv.take(k + 1).drop_last() =~= pv.take(k as int));
        assert(pv.take(k + 1).last() == ps@[k as int]@);
        if k > 0 {
            v.push(' ');
        } else {
            assert(v@ =~= Seq::<char>::empty());
        }
        append_chars(&mut v, ps[k].as_slice());
        k += 1;
    }
    assert(lines_view(ps@).take(ps.len() as int) =~= lines_view(ps@));
    v
}

fn push_block(st: &mut MdState, b: Block)
    ensures
        final(st)@ == (MdView { blocks: old(st)@.blocks.push(b@), ..old(st)@ }),
{
    let ghost v = b@;
    st.blocks.push(b);
    assert(blocks_view(st.blocks@) =~= blocks_view(old(st).blocks@).push(v));
}

fn flush_para_exec(st: &mut MdState)
    ensures
        final(st)@ == flush_para(old(st)@),
{
    if st.para.len() > 0 {
        let joined = join_space_exec(&st.para);
        let tr = trim_chars(joined.as_slice());
        let spans = parse_inline(tr.as_slice());
        push_block(st, Block::Para(spans));
        st.para = Vec::new();
        assert(lines_view(st.para@) =~= Seq::<Seq<char>>::empty());
    }
}

fn starts3_exec(s: &[char], c: char) -> (b: bool)
    ensures
        b == starts3(s@, c),
{
    s.len() >= 3 && s[0] == c && s[1] == c && s[2] == c
}

fn fence_end_exec(ls: &Vec<Vec<char>>, j: usize, c: char) -> (k: usize)
    requires
        j <= ls.len(),
    ensures
        k == fence_end(lines_view(ls@), j as int, c),
        j <= k <= ls.len(),
{
    let ghost lv = lines_view(ls@);
    let mut k = j;
    let mut done = false;
    while k < ls.len() && !done
        invariant
            j <= k <= ls.len(),
            lv == lines_view(ls@),
            fence_end(lv, k as int, c) == fence_end(lv, j as int, c),
            done ==> k < ls.len() && fence_end(lv, k as int, c) == k,
        decreases ls.len() - k, (if done { 0int } else { 1int }),
    {
        let t = trim_start_chars(ls[k].as_slice());
        assert(lv[k as int] == ls@[k as int]@);
        if starts3_exec(t.as_slice(), c) {
            done = true;
        } else {
            k += 1;
        }
    }
    k
}

fn strings_range(ls: &Vec<Vec<char>>, lo: usize, hi: usize) -> (v: Vec<String>)
    requires
        lo <= hi <= ls.len(),
    ensures
        strings_view(v@) == lines_view(ls@).subrange(lo as int, hi as int),
{
    let mut v: Vec<String> = Vec::new();
    let mut k = lo;
    while k < hi
        invariant
            lo <= k <= hi <= ls.len(),
            strings_view(v@) == lines_view(ls@).subrange(lo as int, k as int),
        decreases hi - k,
    {
        let s = string_of(ls[k].as_slice());
        let ghost prev = strings_view(v@);
        v.push(s);
        assert(strings_view(v@) =~= prev.push(ls@[k as int]@));
        assert(lines_view(ls@).subrange(lo as int, k + 1) =~= lines_view(ls@).subrange(
            lo as int,
            k as int,
        ).push(ls@[k as int]@));
        k += 1;
    }
    v
}

fn indented_exec(l: &[char]) -> (b: bool)
    ensures
        b == indented(l@),
{
    (l.len() >= 4 && l[0] == ' ' && l[1] == ' ' && l[2] == ' ' && l[3] == ' ') || (l.len() > 0
        && l[0] == '\t')
}

fn strip_indent_exec(l: &[char]) -> (v: Vec<char>)
    ensures
        v@ == strip_indent(l@),
{
    if l.len() >= 4 && l[0] == ' ' && l[1] == ' ' && l[2] == ' ' && l[3] == ' ' {
        let v = copy_range(l, 4, l.len());
        assert(v@ =~= l@.skip(4));
        v
    } else if l.len() > 0 && l[0] == '\t' {
        let v = copy_range(l, 1, l.len());
        assert(v@ =~= l@.skip(1));
        v
    } else {
        let v = copy_range(l, 0, l.len());
        assert(v@ =~= l@);
        v
    }
}

fn icode_exec(ls: &Vec<Vec<char>>, i: usize) -> (r: (Vec<String>, usize))
    requires
        i <= ls.len(),
    ensures
        (strings_view(r.0@), r.1 as int) == icode_run(lines_view(ls@), i as int, Seq::empty()),
        r.1 <= ls.len(),
{
    let ghost lv = lines_view(ls@);
    let mut code: Vec<String> = Vec::new();
    let mut j = i;
    let mut done = false;
    assert(strings_view(code@) =~= Seq::<Seq<char>>::empty());
    while j < ls.len() && !done
        invariant
            i <= j <= ls.len(),
            lv == lines_view(ls@),
            icode_run(lv, j as int, strings_view(code@)) == icode_run(lv, i as int, Seq::empty()),
            done ==> icode_run(lv, j as int, strings_view(code@)) == (strings_view(code@), j as int),
        decreases ls.len() - j, (if done { 0int } else { 1int }),
    {
        let l = ls[j].as_slice();
        assert(lv[j as int] == l@);
        let ind = indented_exec(l);
        let bl = is_blank(l);
        if !(ind || bl) {
            done = true;
        } else if bl && (j + 1 >= ls.len() || !indented_exec(ls[j + 1].as_slice())) {
            assert(j + 1 < ls.len() ==> lv[j + 1] == ls@[j + 1]@);
            done = true;
        } else {
            assert(j + 1 < ls.len() ==> lv[j + 1] == ls@[j + 1]@);
            let sv = strip_indent_exec(l);
            let s = string_of(sv.as_slice());
            let ghost before = strings_view(code@);
            code.push(s);
            assert(strings_view(code@) =~= before.push(strip_indent(lv[j as int])));
            j += 1;
        }
    }
    (code, j)
}

fn quote_exec(ls: &Vec<Vec<char>>, j0: usize, q0: Vec<char>) -> (r: (Vec<char>, usize))
    requires
        j0 <= ls.len(),
    ensures
        (r.0@, r.1 as int) == quote_run(lines_view(ls@), j0 as int, q0@),
        j0 <= r.1 <= ls.len(),
{
    let ghost lv = lines_view(ls@);
    let mut q = q0;
    let mut j = j0;
    let mut done = false;
    while j < ls.len() && !done
        invariant
            j0 <= j <= ls.len(),
            lv == lines_view(ls@),
            quote_run(lv, j as int, q@) == quote_run(lv, j0 as int, q0@),
            done ==> quote_run(lv, j as int, q@) == (q@, j as int),
        decreases ls.len() - j, (if done { 0int } else { 1int }),
    {
        let lt = trim_start_chars(ls[j].as_slice());
        assert(lv[j as int] == ls@[j as int]@);
        if lt.len() > 0 && lt[0] == '>' {
            let rest = copy_range(lt.as_slice(), 1, lt.len());
            assert(rest@ =~= lt@.skip(1));
            let r2 = trim_start_chars(rest.as_slice());
            q.push(' ');
            append_chars(&mut q, r2.as_slice());
            j += 1;
        } else if lt.len() == 0 {
            done = true;
        } else {
            q.push(' ');
            append_chars(&mut q, lt.as_slice());
            j += 1;
        }
    }
    (q, j)
}

pub proof fn lemma_trim_start_nonblank(s: Seq<char>)
    ensures
        trim_start(s).len() > 0 ==> !blank(s),
{
    lemma_lead_ws_bound(s);
    if trim_start(s).len() > 0 {
        assert(!is_ws(s[lead_ws(s) as int]));
    }
}

pub proof fn lemma_fence_end(ls: Seq<Seq<char>>, j: int, c: char)
    requires
        0 <= j <= ls.len(),
    ensures
        j <= fence_end(ls, j, c) <= ls.len(),
    decreases ls.len() - j,
{
    if j < ls.len() && !starts3(trim_start(ls[j]), c) {
        lemma_fence_end(ls, j + 1, c);
    }
}

pub proof fn lemma_icode_run(ls: Seq<Seq<char>>, j: int, code: Seq<Seq<char>>)
    requires
        0 <= j <= ls.len(),
    ensures
        j <= icode_run(ls, j, code).1 <= ls.len(),
    decreases ls.len() - j,
{
    if j < ls.len() && (indented(ls[j]) || blank(ls[j])) && !(blank(ls[j]) && (j + 1 >= ls.len()
        || !indented(ls[j + 1]))) {
        lemma_icode_run(ls, j + 1, code.push(strip_indent(ls[j])));
    }
}

pub proof fn lemma_quote_run(ls: Seq<Seq<char>>, j: int, q: Seq<char>)
    requires
        0 <= j <= ls.len(),
    ensures
        j <= quote_run(ls, j, q).1 <= ls.len(),
    decreases ls.len() - j,
{
    if j < ls.len() {
        let lt = trim_start(ls[j]);
        if lt.len() > 0 && lt[0] == '>' {
            lemma_quote_run(ls, j + 1, q.push(' ') + trim_start(lt.skip(1)));
        } else if lt.len() != 0 {
            lemma_quote_run(ls, j + 1, q.push(' ') + lt);
        }
    }
}

/// Markdown to blocks.
pub fn parse_markdown(input: &str) -> (r: Vec<Block>)
    ensures
        blocks_view(r@) == spec_markdown(input@),
        r.len() >= 1,
{
    let cs = chars_of(input);
    let nocr = remove_cr_chars(cs.as_slice());
    let ls = split_lines(nocr.as_slice());
    let ghost lv = doc_lines(input@);
    assert(lines_view(ls@) == lv);
    let mut st = MdState { i: 0, para: Vec::new(), blocks: Vec::new() };
    let ghost st0 = MdView { i: 0, para: Seq::empty(), blocks: Seq::empty() };
    assert(lines_view(st.para@) =~= Seq::<Seq<char>>::empty());
    assert(blocks_view(st.blocks@) =~= Seq::<BlockView>::empty());
    assert(st@ == st0);
    while st.i < ls.len()
        invariant
            lv == lines_view(ls@),
            md_run(lv, st@) == md_run(lv, st0),
            st.i <= ls.len(),
        decreases ls.len() - st.i,
    {
        let ghost before = st@;
        let i = st.i;
        let line = ls[i].as_slice();
        assert(lv[i as int] == line@);
        let t = trim_start_chars(line);
        if starts3_exec(t.as_slice(), '`') || starts3_exec(t.as_slice(), '~') {
            let c = if starts3_exec(t.as_slice(), '`') {
                '`'
            } else {
                '~'
            };
            flush_para_exec(&mut st);
            let k = fence_end_exec(&ls, i + 1, c);
            let code = strings_range(&ls, i + 1, k);
            push_block(&mut st, Block::Code(code));
            st.i = if k < ls.len() {
                k + 1
            } else {
                ls.len()
            };
        } else if t.len() == 0 {
            flush_para_exec(&mut st);
            st.i = i + 1;
        } else {
            let sl = if st.para.len() > 0 {
                setext_exec(t.as_slice())
            } else {
                None
            };
            match sl {
                Some(level) => {
                    let joined = join_space_exec(&st.para);
                    let tr = trim_chars(joined.as_slice());
                    let spans = parse_inline(tr.as_slice());
                    push_block(&mut st, Block::Heading(level, spans));
                    st.para = Vec::new();
                    assert(lines_view(st.para@) =~= Seq::<Seq<char>>::empty());
                    st.i = i + 1;
                },
                None => {
                    if st.para.len() == 0 && indented_exec(line) {
                        proof {
                            lemma_trim_start_nonblank(line@);
                            assert(Seq::<Seq<char>>::empty().push(strip_indent(line@)) =~= seq![
                                strip_indent(line@),
                            ]);
                            lemma_icode_run(lv, i + 1, seq![strip_indent(line@)]);
                        }
                        let (code, j) = icode_exec(&ls, i);
                        push_block(&mut st, Block::Code(code));
                        st.i = j;
                    } else if is_rule(t.as_slice()) {
                        flush_para_exec(&mut st);
                        push_block(&mut st, Block::Rule);
                        st.i = i + 1;
                    } else {
                        match atx_heading(t.as_slice()) {
                            Some((level, rest)) => {
                                flush_para_exec(&mut st);
                                let spans = parse_inline(rest.as_slice());
                                push_block(&mut st, Block::Heading(level, spans));
                                st.i = i + 1;
                            },
                            None => {
                                if t[0] == '>' {
                                    flush_para_exec(&mut st);
                                    let rest = copy_range(t.as_slice(), 1, t.len());
                                    assert(rest@ =~= t@.skip(1));
                                    let q0 = trim_start_chars(rest.as_slice());
                                    let (q, j) = quote_exec(&ls, i + 1, q0);
                                    let tq = trim_chars(q.as_slice());
                                    let spans = parse_inline(tq.as_slice());
                                    push_block(&mut st, Block::Quote(spans));
                                    st.i = j;
                                } else {
                                    match list_item(line) {
                                        Some((marker, level, content)) => {
                                            flush_para_exec(&mut st);
                                            let spans = parse_inline(content.as_slice());
                                            push_block(
                                                &mut st,
                                                Block::ListItem { level, marker, spans },
                                            );
                                            st.i = i + 1;
                                        },
                                        None => {
                                            let te = trim_end_chars(line);
                                            let ghost pb = lines_view(st.para@);
                                            st.para.push(te);
                                            assert(lines_view(st.para@) =~= pb.push(
                                                trim_end(line@),
                                            ));
                                            st.i = i + 1;
                                        },
                                    }
                                }
                            },
                        }
                    }
                },
            }
        }
        assert(st@ == md_step(lv, before)) by {
            reveal(md_step);
        }
        assert(i < st.i <= ls.len());
    }
    flush_para_exec(&mut st);
    if st.blocks.len() == 0 {
        return empty_para_doc();
    }
    st.blocks
}

// ------------------------------------------------------------------------
// Plain text
// ------------------------------------------------------------------------

/// State of the plain-text scan: the pending paragraph text and the blocks.
pub struct TextView {
    pub para: Seq<char>,
    pub blocks: Seq<BlockView>,
}

/// Ends the pending paragraph; one that is all white space is dropped.
pub open spec fn flush_text(st: TextView) -> TextView {
    TextView {
        para: Seq::empty(),
        blocks: if blank(st.para) {
            st.blocks
        } else {
            st.blocks.push(BlockView::Para(seq![plain(st.para)]))
        },
    }
}

/// A blank line ends the paragraph; another line is appended to it, after a
/// space, without its trailing white space.
pub open spec fn text_step(st: TextView, line: Seq<char>) -> TextView {
    if blank(line) {
        flush_text(st)
    } else {
        TextView {
            para: (if st.para.len() > 0 {
                st.para.push(' ')
            } else {
                st.para
            }) + trim_end(line),
            ..st
        }
    }
}

/// The plain-text scan over lines.
pub open spec fn text_fold(ls: Seq<Seq<char>>) -> TextView
    decreases ls.len(),
{
    if ls.len() == 0 {
        TextView { para: Seq::empty(), blocks: Seq::empty() }
    } else {
        text_step(text_fold(ls.drop_last()), ls.last())
    }
}

/// Blocks of a plain-text document.
pub open spec fn spec_text(input: Seq<char>) -> Seq<BlockView> {
    let fin = flush_text(text_fold(doc_lines(input)));
    if fin.blocks.len() == 0 {
        empty_doc()
    } else {
        fin.blocks
    }
}

/// A paragraph of one unstyled span.
pub open spec fn plain_para(b: BlockView) -> bool {
    b matches BlockView::Para(sp) && sp.len() == 1 && sp[0] == plain(sp[0].text)
}

pub proof fn lemma_text_fold_plain(ls: Seq<Seq<char>>)
    ensures
        forall|k: int|
            0 <= k < text_fold(ls).blocks.len() ==> plain_para(#[trigger] text_fold(ls).blocks[k]),
    decreases ls.len(),
{
    if ls.len() > 0 {
        let prev = text_fold(ls.drop_last());
        lemma_text_fold_plain(ls.drop_last());
        let cur = text_fold(ls);
        assert(cur == text_step(prev, ls.last()));
        if blank(ls.last()) && !blank(prev.para) {
            let b = BlockView::Para(seq![plain(prev.para)]);
            assert(plain_para(b));
            assert(cur.blocks == prev.blocks.push(b));
        }
        assert forall|k: int| 0 <= k < cur.blocks.len() implies plain_para(#[trigger] cur.blocks[k]) by {
            if k < prev.blocks.len() {
                assert(cur.blocks[k] == prev.blocks[k]);
            }
        }
    }
}

fn flush_text_exec(para: &mut Vec<char>, blocks: &mut Vec<Block>)
    ensures
        (TextView { para: final(para)@, blocks: blocks_view(final(blocks)@) }) == flush_text(
            TextView { para: old(para)@, blocks: blocks_view(old(blocks)@) },
        ),
{
    if !is_blank(para.as_slice()) {
        let mut spans: Vec<Span> = Vec::new();
        let sp = Span::new(string_of(para.as_slice()));
        spans.push(sp);
        assert(spans_view(spans@) =~= seq![plain(old(para)@)]);
        let b = Block::Para(spans);
        let ghost bv = b@;
        blocks.push(b);
        assert(blocks_view(blocks@) =~= blocks_view(old(blocks)@).push(bv));
    }
    *para = Vec::new();
    assert(para@ =~= Seq::<char>::empty());
}

/// Plain text to blocks: paragraphs separated by blank lines, the lines of a
/// paragraph joined with spaces, no inline markup.
pub fn parse_text(input: &str) -> (r: Vec<Block>)
    ensures
        blocks_view(r@) == spec_text(input@),
        r.len() >= 1,
        forall|k: int| 0 <= k < r.len() ==> plain_para(#[trigger] blocks_view(r@)[k]),
{
    let cs = chars_of(input);
    let nocr = remove_cr_chars(cs.as_slice());
    let ls = split_lines(nocr.as_slice());
    let ghost lv = doc_lines(input@);
    assert(lines_view(ls@) == lv);
    let mut para: Vec<char> = Vec::new();
    let mut blocks: Vec<Block> = Vec::new();
    let mut k: usize = 0;
    assert(blocks_view(blocks@) =~= Seq::<BlockView>::empty());
    assert(para@ =~= Seq::<char>::empty());
    assert(lv.take(0) =~= Seq::<Seq<char>>::empty());
    while k < ls.len()
        invariant
            k <= ls.len(),
            lv == lines_view(ls@),
            (TextView { para: para@, blocks: blocks_view(blocks@) }) == text_fold(lv.take(k as int)),
        decreases ls.len() - k,
    {
        let line = ls[k].as_slice();
        assert(lv.take(k + 1).drop_last() =~= lv.take(k as int));
        assert(lv.take(k + 1).last() == line@);
        if is_blank(line) {
            flush_text_exec(&mut para, &mut blocks);
        } else {
            if para.len() > 0 {
                para.push(' ');
            }
            let te = trim_end_chars(line);
            append_chars(&mut para, te.as_slice());
        }
        k += 1;
    }
    assert(lv.take(ls.len() as int) =~= lv);
    flush_text_exec(&mut para, &mut blocks);
    proof {
        lemma_text_fold_plain(lv);
        assert(text_fold(lv).blocks.len() <= blocks_view(blocks@).len());
    }
    if blocks.len() == 0 {
        let v = empty_para_doc();
        assert(plain_para(blocks_view(v@)[0]));
        return v;
    }
    blocks
}

} // verus!
